use pollings::json_responder::{Response, Status};
use pollings::jwt::{Claims, JwtError, JWT};

#[test]
fn test_sign() {
    let jwt = JWT::init("test-secret".to_string());
    let token = jwt.sign("test-uuid".to_string());
    assert!(token.is_ok());
    println!("Generated Token: {:?}", token.unwrap());
}

#[test]
fn signed_token_verifies_and_decodes() {
    let jwt = JWT::init("test-secret".to_string());
    let token = jwt.sign("test-uuid".to_string()).unwrap();
    assert!(jwt.verify(token.as_str()));
    let claims = jwt.decode(token.as_str()).unwrap();
    assert_eq!(claims.uuid, "test-uuid");
    assert!(claims.exp > 0);
}

#[test]
fn wrong_secret_rejects_the_token() {
    let signer = JWT::init("one-secret".to_string());
    let token = signer.sign("test-uuid".to_string()).unwrap();
    let other = JWT::init("another-secret".to_string());
    assert!(!other.verify(token.as_str()));
    assert!(matches!(other.decode(token.as_str()), Err(JwtError::Invalid)));
}

#[test]
fn garbage_never_verifies() {
    let jwt = JWT::init("test-secret".to_string());
    assert!(!jwt.verify("not.a.token"));
    assert!(!jwt.verify(""));
}

#[test]
fn claims_carry_their_fields() {
    let claims = Claims::init("some-uuid".to_string(), 12345);
    assert_eq!(claims.uuid, "some-uuid");
    assert_eq!(claims.exp, 12345);
}

#[test]
fn response_envelopes() {
    let good: Response<u64> = Response::ok(42);
    assert_eq!(good.status, Status::Success);
    assert_eq!(good.result, Some(42));
    assert!(good.error.is_none());
    let bad: Response<u64> = Response::error("it broke");
    assert_eq!(bad.status, Status::Error);
    assert!(bad.result.is_none());
    assert_eq!(bad.error.as_deref(), Some("it broke"));
}
