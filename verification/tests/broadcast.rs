use pollings::db::DB;
use pollings::model::VoteOutcome;
use pollings::poll_api_model::{NewPollRequest, OptionRequest};
use pollings::poll_routes::{cast_vote, create_poll_with_id, reset_poll};
use pollings::sse::{Broadcaster, Frame, CAPACITY};

fn lunch(db: &mut DB, hub: &mut Broadcaster) {
    let req = NewPollRequest {
        title: "Lunch".to_string(),
        options: vec![
            OptionRequest { text: "Pizza".to_string() },
            OptionRequest { text: "Sushi".to_string() },
        ],
        ownername: "alice".to_string(),
    };
    create_poll_with_id(db, hub, "lunch1".to_string(), req, 7).unwrap();
}

#[test]
fn subscriber_sees_connected_then_update() {
    let mut db = DB::init();
    let mut hub = Broadcaster::new();
    lunch(&mut db, &mut hub);
    let client = hub.new_client();
    assert_eq!(
        cast_vote(&mut db, &mut hub, "lunch1", "bob".to_string(), 0),
        VoteOutcome::Accepted
    );
    match hub.recv(&client) {
        Some(Frame::Connected) => {},
        _ => panic!("expected the connected frame first"),
    }
    match hub.recv(&client) {
        Some(Frame::PollResults(r)) => {
            assert_eq!(r.total_votes, 1);
            assert_eq!(r.options[0].votes_count, 1);
        },
        _ => panic!("expected one results frame next"),
    }
    assert!(hub.recv(&client).is_none());
}

#[test]
fn every_mutation_publishes_once() {
    let mut db = DB::init();
    let mut hub = Broadcaster::new();
    let client = hub.new_client();
    lunch(&mut db, &mut hub);
    cast_vote(&mut db, &mut hub, "lunch1", "bob".to_string(), 0);
    reset_poll(&mut db, &mut hub, "lunch1", "alice").unwrap();
    match hub.recv(&client) {
        Some(Frame::Connected) => {},
        _ => panic!("expected the connected frame"),
    }
    // one frame per successful mutation: create, vote, reset
    match hub.recv(&client) {
        Some(Frame::PollResults(r)) => assert_eq!(r.total_votes, 0),
        _ => panic!("expected the creation frame"),
    }
    match hub.recv(&client) {
        Some(Frame::PollResults(r)) => assert_eq!(r.total_votes, 1),
        _ => panic!("expected the vote frame"),
    }
    match hub.recv(&client) {
        Some(Frame::PollResults(r)) => assert_eq!(r.total_votes, 0),
        _ => panic!("expected the reset frame"),
    }
    assert!(hub.recv(&client).is_none());
}

#[test]
fn rejected_operations_publish_nothing() {
    let mut db = DB::init();
    let mut hub = Broadcaster::new();
    lunch(&mut db, &mut hub);
    let client = hub.new_client();
    cast_vote(&mut db, &mut hub, "lunch1", "bob".to_string(), 99);
    reset_poll(&mut db, &mut hub, "lunch1", "mallory").ok();
    match hub.recv(&client) {
        Some(Frame::Connected) => {},
        _ => panic!("expected the connected frame"),
    }
    assert!(hub.recv(&client).is_none());
}

#[test]
fn stalled_channel_is_dropped_not_waited_for() {
    let mut hub = Broadcaster::new();
    let _client = hub.new_client();
    // the connected frame occupies one slot; fill the rest
    for _ in 0..(CAPACITY - 1) {
        hub.send("tick");
    }
    assert_eq!(hub.clients.len(), 1);
    hub.send("overflow");
    assert_eq!(hub.clients.len(), 0);
}

#[test]
fn disconnected_channel_is_pruned_by_the_sweep() {
    let mut hub = Broadcaster::new();
    let keeper = hub.new_client();
    let goner = hub.new_client();
    hub.disconnect(&goner);
    assert_eq!(hub.clients.len(), 2);
    hub.remove_stale_clients();
    assert_eq!(hub.clients.len(), 1);
    // the sweep's keep-alive reached the surviving channel
    match hub.recv(&keeper) {
        Some(Frame::Connected) => {},
        _ => panic!("expected the connected frame"),
    }
    match hub.recv(&keeper) {
        Some(Frame::Ping) => {},
        _ => panic!("expected the keep-alive"),
    }
}

#[test]
fn plain_messages_are_delivered_in_order() {
    let mut hub = Broadcaster::new();
    let client = hub.new_client();
    hub.send("first");
    hub.send("second");
    match hub.recv(&client) {
        Some(Frame::Connected) => {},
        _ => panic!("expected the connected frame"),
    }
    match hub.recv(&client) {
        Some(Frame::Message(m)) => assert_eq!(m, "first"),
        _ => panic!("expected the first message"),
    }
    match hub.recv(&client) {
        Some(Frame::Message(m)) => assert_eq!(m, "second"),
        _ => panic!("expected the second message"),
    }
}

#[test]
fn updated_poll_frames_carry_the_poll() {
    let mut db = DB::init();
    let mut hub = Broadcaster::new();
    lunch(&mut db, &mut hub);
    let client = hub.new_client();
    let got = db.polls.get("lunch1", "bob", &db.options);
    hub.send_updated_poll(&got);
    match hub.recv(&client) {
        Some(Frame::Connected) => {},
        _ => panic!("expected the connected frame"),
    }
    match hub.recv(&client) {
        Some(Frame::PollUpdated(p)) => {
            assert_eq!(p.poll.as_ref().unwrap().title, "Lunch");
            assert!(!p.has_voted);
        },
        _ => panic!("expected the poll frame"),
    }
}
