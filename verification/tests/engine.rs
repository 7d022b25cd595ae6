use pollings::db::DB;
use pollings::model::{PollError, VoteOutcome, VoteReason};
use pollings::poll_api_model::{NewPollRequest, OptionRequest};
use pollings::poll_routes::{
    cast_vote, close_poll, create_poll, create_poll_with_id, delete_poll, reset_poll, total_pages,
};
use pollings::sse::Broadcaster;

fn new_request(title: &str, owner: &str, options: &[&str]) -> NewPollRequest {
    NewPollRequest {
        title: title.to_string(),
        options: options.iter().map(|t| OptionRequest { text: t.to_string() }).collect(),
        ownername: owner.to_string(),
    }
}

fn lunch(db: &mut DB, hub: &mut Broadcaster) {
    let req = new_request("Lunch", "alice", &["Pizza", "Sushi"]);
    create_poll_with_id(db, hub, "lunch1".to_string(), req, 7).unwrap();
}

fn percentages(results: &pollings::poll_api_model::PollResults) -> Vec<f64> {
    results
        .options
        .iter()
        .map(|o| {
            if results.total_votes == 0 {
                0.0
            } else {
                o.votes_count as f64 / results.total_votes as f64 * 100.0
            }
        })
        .collect()
}

#[test]
fn lunch_scenario_one_vote_per_user() {
    let mut db = DB::init();
    let mut hub = Broadcaster::new();
    lunch(&mut db, &mut hub);
    // option ids are allocated in order: Pizza = 0, Sushi = 1
    assert_eq!(
        cast_vote(&mut db, &mut hub, "lunch1", "bob".to_string(), 0),
        VoteOutcome::Accepted
    );
    assert_eq!(
        cast_vote(&mut db, &mut hub, "lunch1", "bob".to_string(), 1),
        VoteOutcome::Rejected(VoteReason::AlreadyVoted)
    );
    let results = db.polls.get_poll_results(&db.options, "lunch1").unwrap();
    assert_eq!(results.total_votes, 1);
    assert_eq!(results.title, "Lunch");
    assert_eq!(results.options.len(), 2);
    assert_eq!(results.options[0].text, "Pizza");
    assert_eq!(results.options[0].votes_count, 1);
    assert_eq!(results.options[1].text, "Sushi");
    assert_eq!(results.options[1].votes_count, 0);
    let pct = percentages(&results);
    assert_eq!(pct[0], 100.0);
    assert_eq!(pct[1], 0.0);
}

#[test]
fn close_by_non_owner_has_no_effect() {
    let mut db = DB::init();
    let mut hub = Broadcaster::new();
    lunch(&mut db, &mut hub);
    assert_eq!(
        close_poll(&mut db, &mut hub, "lunch1", "bob"),
        Err(PollError::NotOwner)
    );
    let got = db.polls.get("lunch1", "", &db.options);
    assert!(got.poll.as_ref().unwrap().is_open);
    assert_eq!(
        cast_vote(&mut db, &mut hub, "lunch1", "carol".to_string(), 0),
        VoteOutcome::Accepted
    );
}

#[test]
fn vote_on_closed_poll_rejected() {
    let mut db = DB::init();
    let mut hub = Broadcaster::new();
    lunch(&mut db, &mut hub);
    close_poll(&mut db, &mut hub, "lunch1", "alice").unwrap();
    assert_eq!(
        cast_vote(&mut db, &mut hub, "lunch1", "bob".to_string(), 0),
        VoteOutcome::Rejected(VoteReason::Closed)
    );
    let results = db.polls.get_poll_results(&db.options, "lunch1").unwrap();
    assert_eq!(results.total_votes, 0);
}

#[test]
fn distinct_voters_all_accepted() {
    let mut db = DB::init();
    let mut hub = Broadcaster::new();
    lunch(&mut db, &mut hub);
    let voters = ["v1", "v2", "v3", "v4", "v5"];
    for (i, v) in voters.iter().enumerate() {
        let option = (i % 2) as u64;
        assert_eq!(
            cast_vote(&mut db, &mut hub, "lunch1", v.to_string(), option),
            VoteOutcome::Accepted
        );
    }
    let results = db.polls.get_poll_results(&db.options, "lunch1").unwrap();
    assert_eq!(results.total_votes, 5);
    assert_eq!(results.options[0].votes_count, 3);
    assert_eq!(results.options[1].votes_count, 2);
}

#[test]
fn percentages_sum_to_hundred() {
    let mut db = DB::init();
    let mut hub = Broadcaster::new();
    let req = new_request("Trip", "alice", &["Sea", "Hills", "City"]);
    create_poll_with_id(&mut db, &mut hub, "trip".to_string(), req, 7).unwrap();
    for (v, o) in [("a", 0u64), ("b", 0), ("c", 1), ("d", 2), ("e", 2), ("f", 2), ("g", 0)] {
        assert_eq!(
            cast_vote(&mut db, &mut hub, "trip", v.to_string(), o),
            VoteOutcome::Accepted
        );
    }
    let results = db.polls.get_poll_results(&db.options, "trip").unwrap();
    assert_eq!(results.total_votes, 7);
    let sum: f64 = percentages(&results).iter().sum();
    assert!((sum - 100.0).abs() < 1e-9);
}

#[test]
fn percentages_all_zero_without_votes() {
    let mut db = DB::init();
    let mut hub = Broadcaster::new();
    lunch(&mut db, &mut hub);
    let results = db.polls.get_poll_results(&db.options, "lunch1").unwrap();
    assert_eq!(results.total_votes, 0);
    for p in percentages(&results) {
        assert_eq!(p, 0.0);
    }
}

#[test]
fn reset_clears_counts_and_voters() {
    let mut db = DB::init();
    let mut hub = Broadcaster::new();
    lunch(&mut db, &mut hub);
    cast_vote(&mut db, &mut hub, "lunch1", "bob".to_string(), 0);
    cast_vote(&mut db, &mut hub, "lunch1", "carol".to_string(), 1);
    close_poll(&mut db, &mut hub, "lunch1", "alice").unwrap();
    reset_poll(&mut db, &mut hub, "lunch1", "alice").unwrap();
    let results = db.polls.get_poll_results(&db.options, "lunch1").unwrap();
    assert_eq!(results.total_votes, 0);
    for o in &results.options {
        assert_eq!(o.votes_count, 0);
    }
    // the poll is open again and earlier voters may vote anew
    let got = db.polls.get("lunch1", "bob", &db.options);
    assert!(got.poll.as_ref().unwrap().is_open);
    assert!(!got.has_voted);
    assert_eq!(
        cast_vote(&mut db, &mut hub, "lunch1", "bob".to_string(), 1),
        VoteOutcome::Accepted
    );
}

#[test]
fn reset_by_non_owner_keeps_counts() {
    let mut db = DB::init();
    let mut hub = Broadcaster::new();
    lunch(&mut db, &mut hub);
    cast_vote(&mut db, &mut hub, "lunch1", "bob".to_string(), 0);
    assert_eq!(
        reset_poll(&mut db, &mut hub, "lunch1", "mallory"),
        Err(PollError::NotOwner)
    );
    let results = db.polls.get_poll_results(&db.options, "lunch1").unwrap();
    assert_eq!(results.total_votes, 1);
}

#[test]
fn delete_only_by_owner() {
    let mut db = DB::init();
    let mut hub = Broadcaster::new();
    lunch(&mut db, &mut hub);
    assert_eq!(delete_poll(&mut db, "lunch1", "bob"), Err(PollError::NotOwner));
    assert!(db.polls.get("lunch1", "", &db.options).poll.is_some());
    assert_eq!(delete_poll(&mut db, "lunch1", "alice"), Ok(()));
    assert!(db.polls.get("lunch1", "", &db.options).poll.is_none());
    assert!(db.polls.get_poll_results(&db.options, "lunch1").is_none());
}

#[test]
fn create_needs_two_options() {
    let mut db = DB::init();
    let mut hub = Broadcaster::new();
    let req = new_request("Thin", "alice", &["Only"]);
    assert_eq!(
        create_poll_with_id(&mut db, &mut hub, "thin".to_string(), req, 7),
        Err(PollError::InvalidInput)
    );
    assert!(db.polls.get("thin", "", &db.options).poll.is_none());
}

#[test]
fn create_rejects_taken_id() {
    let mut db = DB::init();
    let mut hub = Broadcaster::new();
    lunch(&mut db, &mut hub);
    let req = new_request("Other", "dora", &["A", "B"]);
    assert_eq!(
        create_poll_with_id(&mut db, &mut hub, "lunch1".to_string(), req, 9),
        Err(PollError::Conflict)
    );
}

#[test]
fn create_poll_returns_fresh_short_id() {
    let mut db = DB::init();
    let mut hub = Broadcaster::new();
    let req = new_request("Lunch", "alice", &["Pizza", "Sushi"]);
    let id = create_poll(&mut db, &mut hub, req, 7).unwrap();
    assert_eq!(id.chars().count(), 21);
    let got = db.polls.get(id.as_str(), "", &db.options);
    assert_eq!(got.poll.as_ref().unwrap().title, "Lunch");
}

#[test]
fn vote_on_missing_poll_not_found() {
    let mut db = DB::init();
    let mut hub = Broadcaster::new();
    assert_eq!(
        cast_vote(&mut db, &mut hub, "nowhere", "bob".to_string(), 0),
        VoteOutcome::NotFound
    );
}

#[test]
fn vote_on_foreign_option_rejected() {
    let mut db = DB::init();
    let mut hub = Broadcaster::new();
    lunch(&mut db, &mut hub);
    assert_eq!(
        cast_vote(&mut db, &mut hub, "lunch1", "bob".to_string(), 99),
        VoteOutcome::Rejected(VoteReason::InvalidOption)
    );
}

#[test]
fn anonymous_get_counts_as_voted() {
    let mut db = DB::init();
    let mut hub = Broadcaster::new();
    lunch(&mut db, &mut hub);
    let anon = db.polls.get("lunch1", "", &db.options);
    assert!(anon.has_voted);
    let fresh = db.polls.get("lunch1", "bob", &db.options);
    assert!(!fresh.has_voted);
    cast_vote(&mut db, &mut hub, "lunch1", "bob".to_string(), 0);
    let voted = db.polls.get("lunch1", "bob", &db.options);
    assert!(voted.has_voted);
}

#[test]
fn get_expands_options_and_counts_voters() {
    let mut db = DB::init();
    let mut hub = Broadcaster::new();
    lunch(&mut db, &mut hub);
    cast_vote(&mut db, &mut hub, "lunch1", "bob".to_string(), 0);
    let got = db.polls.get("lunch1", "bob", &db.options);
    let poll = got.poll.unwrap();
    assert_eq!(poll.id, "lunch1");
    assert_eq!(poll.owner_id, "alice");
    assert_eq!(poll.total_votes, 1);
    assert_eq!(poll.options.len(), 2);
    assert_eq!(poll.options[0].text, "Pizza");
    assert_eq!(poll.options[0].votes_count, 1);
    assert_eq!(poll.voters, vec!["bob".to_string()]);
    assert_eq!(poll.created_at, 7);
}

#[test]
fn is_owner_fails_closed() {
    let mut db = DB::init();
    let mut hub = Broadcaster::new();
    lunch(&mut db, &mut hub);
    assert!(db.polls.is_owner("lunch1", "alice"));
    assert!(!db.polls.is_owner("lunch1", "bob"));
    assert!(!db.polls.is_owner("missing", "alice"));
}

#[test]
fn counts_follow_the_open_flag() {
    let mut db = DB::init();
    let mut hub = Broadcaster::new();
    lunch(&mut db, &mut hub);
    let req = new_request("Trip", "alice", &["Sea", "Hills"]);
    create_poll_with_id(&mut db, &mut hub, "trip".to_string(), req, 8).unwrap();
    assert_eq!(db.polls.count_live_polls(), 2);
    assert_eq!(db.polls.count_closed_polls(), 0);
    close_poll(&mut db, &mut hub, "trip", "alice").unwrap();
    assert_eq!(db.polls.count_live_polls(), 1);
    assert_eq!(db.polls.count_closed_polls(), 1);
    assert_eq!(db.polls.count_polls_by_username("alice"), 2);
    assert_eq!(db.polls.count_polls_by_username("bob"), 0);
}

#[test]
fn total_pages_is_the_ceiling() {
    assert_eq!(total_pages(0, 5), 0);
    assert_eq!(total_pages(1, 5), 1);
    assert_eq!(total_pages(5, 5), 1);
    assert_eq!(total_pages(6, 5), 2);
    assert_eq!(total_pages(11, 5), 3);
}

#[test]
fn polls_do_not_share_state() {
    let mut db = DB::init();
    let mut hub = Broadcaster::new();
    lunch(&mut db, &mut hub);
    let req = new_request("Trip", "dora", &["Sea", "Hills"]);
    create_poll_with_id(&mut db, &mut hub, "trip".to_string(), req, 8).unwrap();
    assert_eq!(
        cast_vote(&mut db, &mut hub, "lunch1", "bob".to_string(), 0),
        VoteOutcome::Accepted
    );
    // the same voter is free to vote on the other poll
    let trip_option = db.polls.get("trip", "", &db.options).poll.unwrap().options[0]._id;
    assert_eq!(
        cast_vote(&mut db, &mut hub, "trip", "bob".to_string(), trip_option),
        VoteOutcome::Accepted
    );
    assert_eq!(db.polls.get_poll_results(&db.options, "lunch1").unwrap().total_votes, 1);
    assert_eq!(db.polls.get_poll_results(&db.options, "trip").unwrap().total_votes, 1);
}

#[test]
fn another_polls_option_is_foreign() {
    let mut db = DB::init();
    let mut hub = Broadcaster::new();
    lunch(&mut db, &mut hub);
    let req = new_request("Trip", "dora", &["Sea", "Hills"]);
    create_poll_with_id(&mut db, &mut hub, "trip".to_string(), req, 8).unwrap();
    let trip_option = db.polls.get("trip", "", &db.options).poll.unwrap().options[0]._id;
    assert_eq!(
        cast_vote(&mut db, &mut hub, "lunch1", "bob".to_string(), trip_option),
        VoteOutcome::Rejected(VoteReason::InvalidOption)
    );
}
