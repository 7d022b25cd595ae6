use pollings::db::DB;
use pollings::poll_api_model::{NewPollRequest, OptionRequest};
use pollings::poll_routes::{cast_vote, close_poll, create_poll_with_id};
use pollings::sse::Broadcaster;

fn make_poll(db: &mut DB, hub: &mut Broadcaster, id: &str, title: &str, owner: &str, now: i64) {
    let req = NewPollRequest {
        title: title.to_string(),
        options: vec![
            OptionRequest { text: "Yes".to_string() },
            OptionRequest { text: "No".to_string() },
        ],
        ownername: owner.to_string(),
    };
    create_poll_with_id(db, hub, id.to_string(), req, now).unwrap();
}

fn vote_n(db: &mut DB, hub: &mut Broadcaster, id: &str, n: usize) {
    let option = db_first_option(db, id);
    for k in 0..n {
        let voter = format!("{}-{}", id, k);
        cast_vote(db, hub, id, voter, option);
    }
}

fn db_first_option(db: &DB, id: &str) -> u64 {
    db.polls.get(id, "", &db.options).poll.unwrap().options[0]._id
}

fn seeded() -> (DB, Broadcaster) {
    let mut db = DB::init();
    let mut hub = Broadcaster::new();
    make_poll(&mut db, &mut hub, "pa", "Apples", "alice", 10);
    make_poll(&mut db, &mut hub, "pb", "Bananas", "alice", 30);
    make_poll(&mut db, &mut hub, "pc", "Cherries", "bob", 20);
    vote_n(&mut db, &mut hub, "pa", 1);
    vote_n(&mut db, &mut hub, "pb", 3);
    vote_n(&mut db, &mut hub, "pc", 2);
    (db, hub)
}

#[test]
fn live_polls_come_most_voted_first() {
    let (db, _hub) = seeded();
    let live = db.polls.get_live_polls(&db.options, 1, 10);
    let ids: Vec<&str> = live.iter().map(|p| p.id.as_str()).collect();
    assert_eq!(ids, vec!["pb", "pc", "pa"]);
    assert_eq!(live[0].total_votes, 3);
}

#[test]
fn closed_polls_are_listed_apart() {
    let (mut db, mut hub) = seeded();
    close_poll(&mut db, &mut hub, "pa", "alice").unwrap();
    let live = db.polls.get_live_polls(&db.options, 1, 10);
    assert_eq!(live.len(), 2);
    let closed = db.polls.get_closed_polls(&db.options, 1, 10);
    assert_eq!(closed.len(), 1);
    assert_eq!(closed[0].id, "pa");
}

#[test]
fn listing_pages_cut_the_order() {
    let (db, _hub) = seeded();
    let page1 = db.polls.get_live_polls(&db.options, 1, 1);
    let page2 = db.polls.get_live_polls(&db.options, 2, 1);
    let page9 = db.polls.get_live_polls(&db.options, 9, 1);
    assert_eq!(page1.len(), 1);
    assert_eq!(page1[0].id, "pb");
    assert_eq!(page2.len(), 1);
    assert_eq!(page2[0].id, "pc");
    assert!(page9.is_empty());
    // page zero counts as the first page, a zero size as one item
    let clamped = db.polls.get_live_polls(&db.options, 0, 0);
    assert_eq!(clamped.len(), 1);
    assert_eq!(clamped[0].id, "pb");
}

#[test]
fn owner_listing_sorts_by_named_key() {
    let (db, _hub) = seeded();
    let by_title: Vec<String> = db
        .polls
        .get_polls_by_username(&db.options, "alice", 1, 10, "title", 1)
        .iter()
        .map(|p| p.title.clone())
        .collect();
    assert_eq!(by_title, vec!["Apples".to_string(), "Bananas".to_string()]);
    let by_votes_desc: Vec<String> = db
        .polls
        .get_polls_by_username(&db.options, "alice", 1, 10, "votes", -1)
        .iter()
        .map(|p| p.id.clone())
        .collect();
    assert_eq!(by_votes_desc, vec!["pb".to_string(), "pa".to_string()]);
    let by_created_asc: Vec<String> = db
        .polls
        .get_polls_by_username(&db.options, "alice", 1, 10, "created_at", 1)
        .iter()
        .map(|p| p.id.clone())
        .collect();
    assert_eq!(by_created_asc, vec!["pa".to_string(), "pb".to_string()]);
}

#[test]
fn unknown_sort_key_lists_newest_first() {
    let (db, _hub) = seeded();
    let listed: Vec<String> = db
        .polls
        .get_polls_by_username(&db.options, "alice", 1, 10, "unheard_of", 1)
        .iter()
        .map(|p| p.id.clone())
        .collect();
    assert_eq!(listed, vec!["pb".to_string(), "pa".to_string()]);
}

#[test]
fn owner_listing_holds_only_that_owner() {
    let (db, _hub) = seeded();
    let bobs = db.polls.get_polls_by_username(&db.options, "bob", 1, 10, "votes", -1);
    assert_eq!(bobs.len(), 1);
    assert_eq!(bobs[0].id, "pc");
    assert_eq!(bobs[0].owner_id, "bob");
    assert!(db.polls.get_polls_by_username(&db.options, "nobody", 1, 10, "votes", -1).is_empty());
}

#[test]
fn title_order_is_lexicographic_by_code_point() {
    let mut db = DB::init();
    let mut hub = Broadcaster::new();
    make_poll(&mut db, &mut hub, "t1", "Apples", "dora", 1);
    make_poll(&mut db, &mut hub, "t2", "Apple", "dora", 2);
    make_poll(&mut db, &mut hub, "t3", "apple", "dora", 3);
    let titles: Vec<String> = db
        .polls
        .get_polls_by_username(&db.options, "dora", 1, 10, "title", 1)
        .iter()
        .map(|p| p.title.clone())
        .collect();
    // a prefix comes first, and capitals order below lower case
    assert_eq!(
        titles,
        vec!["Apple".to_string(), "Apples".to_string(), "apple".to_string()]
    );
}
