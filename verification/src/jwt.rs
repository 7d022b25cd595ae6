//! The session signer: HS256 tokens over a shared secret.

use vstd::prelude::*;

verus! {

/// A session's claims: the stable user identifier and the expiry time
/// in seconds since the Unix epoch.
pub struct Claims {
    pub uuid: String,
    pub exp: usize,
}

impl Claims {
    pub fn init(uuid: String, exp: usize) -> (r: Claims)
        ensures
            r.uuid == uuid,
            r.exp == exp,
    {
        Claims { uuid, exp }
    }
}

/// Why a token could not be produced or read.
#[derive(Clone, Copy, Debug, PartialEq, Eq, Structural)]
pub enum JwtError {
    Invalid,
}

/// The token the signer produces for a secret, an identifier and an
/// expiry: HS256 signing is deterministic, so it is a function of these
/// three alone.
pub uninterp spec fn token_of(secret: Seq<char>, uuid: Seq<char>, exp: nat) -> Seq<char>;

/// Relies on jsonwebtoken's `encode` with the default header (HS256)
/// and a secret key: the token depends on the secret and the claims
/// alone.
#[verifier::external_body]
fn jwt_encode(secret: &str, uuid: &str, exp: u64) -> (r: Result<
    String,
    jsonwebtoken::errors::Error,
>)
    ensures
        r matches Ok(t) ==> t@ == token_of(secret@, uuid@, exp as nat),
{
    let mut claims = serde_json::Map::new();
    claims.insert(String::from("uuid"), serde_json::Value::String(uuid.to_string()));
    claims.insert(String::from("exp"), serde_json::Value::from(exp));
    jsonwebtoken::encode(
        &jsonwebtoken::Header::default(),
        &serde_json::Value::Object(claims),
        &jsonwebtoken::EncodingKey::from_secret(secret.as_bytes()),
    )
}

/// Relies on jsonwebtoken's `decode` with HS256 and expiry validation:
/// the claims of a token that verifies under the secret and has not
/// expired. The outcome depends on the wall clock, so nothing is
/// promised of it.
#[verifier::external_body]
fn jwt_decode(secret: &str, token: &str) -> (r: Result<
    (String, u64),
    jsonwebtoken::errors::Error,
>) {
    let validation = jsonwebtoken::Validation::new(jsonwebtoken::Algorithm::HS256);
    let data = jsonwebtoken::decode::<serde_json::Map<String, serde_json::Value>>(
        token,
        &jsonwebtoken::DecodingKey::from_secret(secret.as_bytes()),
        &validation,
    )?;
    let uuid = match data.claims.get("uuid") {
        Some(serde_json::Value::String(s)) => s.clone(),
        _ => String::new(),
    };
    let exp = match data.claims.get("exp") {
        Some(v) => v.as_u64().unwrap_or(0),
        None => 0,
    };
    Ok((uuid, exp))
}

/// The error type of the jsonwebtoken crate, carried through the
/// wrappers and mapped to `JwtError` in verified code.
#[verifier::external_type_specification]
#[verifier::external_body]
pub struct ExJsonWebTokenError(jsonwebtoken::errors::Error);

/// The session signer: holds the signing secret.
pub struct JWT {
    secret: String,
}

impl JWT {
    /// The signing secret, for contracts alone.
    pub closed spec fn secret_view(&self) -> Seq<char> {
        self.secret@
    }

    /// A signer over the given secret.
    pub fn init(secret: String) -> (r: JWT)
        ensures
            r.secret_view() == secret@,
    {
        JWT { secret }
    }

    /// Sign a session token for the identifier, expiring an hour from
    /// now. The expiry comes from the wall clock, so the token is
    /// pinned only up to the expiry chosen.
    pub fn sign(&self, uuid: String) -> (r: Result<String, JwtError>)
        ensures
            r matches Ok(t) ==> exists|e: nat| t@ == token_of(self.secret_view(), uuid@, e),
    {
        let now = crate::clock::now_timestamp();
        let base: i64 = if now < 0 {
            0
        } else {
            now
        };
        let exp: u64 = (base as u64) + 3600;
        match jwt_encode(self.secret.as_str(), uuid.as_str(), exp) {
            Ok(t) => {
                proof {
                    assert(t@ == token_of(self.secret_view(), uuid@, exp as nat));
                }
                Ok(t)
            },
            Err(_) => Err(JwtError::Invalid),
        }
    }

    /// Whether the token verifies under this signer's secret and has
    /// not expired. The outcome depends on the wall clock.
    pub fn verify(&self, token: &str) -> bool {
        match jwt_decode(self.secret.as_str(), token) {
            Ok(_) => true,
            Err(_) => false,
        }
    }

    /// The claims of a token that verifies under this signer's secret
    /// and has not expired; `Invalid` otherwise. The outcome depends on
    /// the wall clock.
    pub fn decode(&self, token: &str) -> (r: Result<Claims, JwtError>) {
        match jwt_decode(self.secret.as_str(), token) {
            Ok((uuid, exp)) => {
                if exp <= usize::MAX as u64 {
                    Ok(Claims::init(uuid, exp as usize))
                } else {
                    Err(JwtError::Invalid)
                }
            },
            Err(_) => Err(JwtError::Invalid),
        }
    }
}

} // verus!
