//! The engine's entry points: each state-mutating operation runs its
//! transition on the store and, on success, hands the poll's current
//! tally to the broadcast hub exactly once. The caller's response never
//! waits on delivery: publishing drops stalled channels instead of
//! blocking.

use vstd::prelude::*;

use crate::db::DB;
use crate::model::{
    close_spec, create_spec, delete_spec, is_owner_spec, lemma_close_preserves_wf,
    lemma_create_preserves_wf, lemma_delete_preserves_wf, lemma_reset_preserves_wf,
    lemma_vote_preserves_wf, has_poll, poll_state, reset_spec, results_spec, store_wf, vote_spec,
    PollError, PollState, StoreState, VoteOutcome, VoteReason,
};
use crate::options_repo::OptionModel;
use crate::poll_api_model::{texts_of, NewPollRequest};
use crate::polls_repo::{poll_ids_unique, Poll};
use crate::sse::{hub_wf, publish_clients, Broadcaster, FrameState};

verus! {

/// Relies on nanoid's `format` with the default URL-safe alphabet and
/// its default secure generator: a random 21-character id. The result
/// is random, so only its length is stated.
#[verifier::external_body]
fn new_poll_id() -> (r: String)
    ensures
        r@.len() == 21,
{
    nanoid::format(nanoid::rngs::default, &nanoid::alphabet::SAFE, 21)
}

/// How many pages a listing of `total` items makes at `per_page` items
/// per page: the least count of pages that holds them all.
pub fn total_pages(total: u64, per_page: u64) -> (r: u64)
    requires
        per_page >= 1,
    ensures
        (r as int) * (per_page as int) >= total as int,
        (r as int - 1) * (per_page as int) < total as int,
{
    let q = total / per_page;
    let m = total % per_page;
    proof {
        vstd::arithmetic::div_mod::lemma_fundamental_div_mod(total as int, per_page as int);
        assert(total as int == per_page as int * (q as int) + (m as int));
        if m == 0 {
            assert((q as int) * (per_page as int) >= total as int) by (nonlinear_arith)
                requires
                    total as int == per_page as int * (q as int) + (m as int),
                    m == 0,
            ;
            assert((q as int - 1) * (per_page as int) < total as int) by (nonlinear_arith)
                requires
                    total as int == per_page as int * (q as int) + (m as int),
                    m == 0,
                    per_page >= 1,
            ;
        } else {
            assert((q as int + 1) * (per_page as int) >= total as int) by (nonlinear_arith)
                requires
                    total as int == per_page as int * (q as int) + (m as int),
                    0 < m < per_page,
            ;
            assert((q as int) * (per_page as int) < total as int) by (nonlinear_arith)
                requires
                    total as int == per_page as int * (q as int) + (m as int),
                    0 < m < per_page,
            ;
            assert(q < u64::MAX) by (nonlinear_arith)
                requires
                    total as int == per_page as int * (q as int) + (m as int),
                    0 < m < per_page,
                    total <= u64::MAX,
                    per_page >= 1,
                    q >= 0,
            ;
        }
    }
    if m == 0 {
        q
    } else {
        q + 1
    }
}

/// Create a poll under the given id: at least two option texts are
/// required, the id must be unused, and the option records are inserted
/// first, the poll then referencing exactly their ids — one atomic
/// unit, visible entirely or not at all. On success the hub is notified
/// once with the new poll's (all-zero) tally.
#[verifier::loop_isolation(false)]
pub fn create_poll_with_id(
    db: &mut DB,
    broadcaster: &mut Broadcaster,
    id: String,
    req: NewPollRequest,
    now: i64,
) -> (r: Result<(), PollError>)
    requires
        store_wf(old(db)@),
        hub_wf(old(broadcaster)@),
    ensures
        ({
            let (s2, res) = create_spec(
                old(db)@,
                id@,
                req.title@,
                req.ownername@,
                texts_of(req),
                now as int,
            );
            &&& final(db)@ == s2
            &&& r == res
            &&& store_wf(final(db)@)
            &&& hub_wf(final(broadcaster)@)
            &&& (r is Ok ==> results_spec(s2, id@) is Some && final(broadcaster)@.clients
                == publish_clients(
                old(broadcaster)@.clients,
                FrameState::PollResults(results_spec(s2, id@)->Some_0),
            ) && final(broadcaster)@.next_id == old(broadcaster)@.next_id)
            &&& (r is Err ==> final(db)@ == old(db)@ && final(broadcaster)@ == old(broadcaster)@)
        }),
        texts_of(req).len() < 2 ==> r == Err::<(), PollError>(PollError::InvalidInput),
{
    let ghost s = db@;
    let ghost gtitle = req.title@;
    let ghost gowner = req.ownername@;
    let ghost gtexts = texts_of(req);
    proof {
        lemma_create_preserves_wf(s, id@, gtitle, gowner, gtexts, now as int);
    }
    if req.options.len() < 2 {
        return Err(PollError::InvalidInput);
    }
    if db.polls.find(&id).is_some() {
        return Err(PollError::Conflict);
    }
    let texts_n = req.options.len();
    let len64 = texts_n as u64;
    if db.options.next_id > u64::MAX - len64 {
        return Err(PollError::StorageError);
    }
    let base = db.options.next_id;
    let ghost oprior = db.options@;
    let mut ids: Vec<u64> = Vec::new();
    for k in 0..texts_n
        invariant
            db.polls@ == s.polls,
            db.options.next_id == base,
            db.options@.len() == oprior.len() + k,
            forall|m: int| 0 <= m < oprior.len() ==> #[trigger] db.options@[m] == oprior[m],
            forall|m: int|
                oprior.len() <= m < oprior.len() + k ==> #[trigger] db.options@[m]
                    == crate::model::new_options(base as int, gtexts)[m - oprior.len()],
            ids@.len() == k,
            forall|m: int| 0 <= m < k ==> #[trigger] ids@[m] == (base + m) as u64,
    {
        let ghost obefore = db.options@;
        let oid = base + (k as u64);
        db.options.collection.push(
            OptionModel { _id: oid, text: req.options[k].text.clone(), votes_count: 0 },
        );
        ids.push(oid);
        proof {
            assert(db.options@ =~= obefore.push(
                crate::model::OptionState { id: oid, text: req.options@[k as int].text@, votes_count: 0 },
            ));
        }
    }
    db.options.next_id = base + len64;
    let id2 = id.clone();
    db.polls.collection.push(
        Poll {
            id,
            title: req.title,
            owner_id: req.ownername,
            options: ids,
            is_open: true,
            voters: Vec::new(),
            created_at: now,
            updated_at: now,
        },
    );
    let ghost s2 = create_spec(s, id2@, gtitle, gowner, gtexts, now as int).0;
    proof {
        assert(db.options@ =~= s.options + crate::model::new_options(base as int, gtexts));
        let newp = s2.polls.last();
        assert(newp.options =~= crate::model::new_option_ids(base as int, gtexts.len()));
        assert(newp.voters =~= Seq::<Seq<char>>::empty());
        let pushed = db.polls@.last();
        assert(pushed.options =~= newp.options);
        assert(pushed.voters =~= newp.voters);
        assert(pushed == newp);
        assert(db.polls@ =~= s.polls.push(newp));
        assert(db@ =~= s2);
    }
    let results = db.polls.get_poll_results(&db.options, id2.as_str());
    match results {
        Some(pr) => {
            broadcaster.send_poll_results(&pr);
            Ok(())
        },
        None => {
            proof {
                assert(false);
            }
            Err(PollError::StorageError)
        },
    }
}

/// Create a poll under a freshly generated id and return the id. The
/// id is random: a creation that would otherwise succeed can still end
/// in `Conflict` when the generated id is already taken.
pub fn create_poll(
    db: &mut DB,
    broadcaster: &mut Broadcaster,
    req: NewPollRequest,
    now: i64,
) -> (r: Result<String, PollError>)
    requires
        store_wf(old(db)@),
        hub_wf(old(broadcaster)@),
    ensures
        store_wf(final(db)@),
        hub_wf(final(broadcaster)@),
        ({
            match r {
                Ok(id) => {
                    let (s2, res) = create_spec(
                        old(db)@,
                        id@,
                        req.title@,
                        req.ownername@,
                        texts_of(req),
                        now as int,
                    );
                    &&& res == Ok::<(), PollError>(())
                    &&& final(db)@ == s2
                    &&& results_spec(s2, id@) is Some
                    &&& final(broadcaster)@.clients == publish_clients(
                        old(broadcaster)@.clients,
                        FrameState::PollResults(results_spec(s2, id@)->Some_0),
                    )
                    &&& final(broadcaster)@.next_id == old(broadcaster)@.next_id
                },
                Err(e) => {
                    &&& final(db)@ == old(db)@
                    &&& final(broadcaster)@ == old(broadcaster)@
                    &&& (e == PollError::InvalidInput <==> texts_of(req).len() < 2)
                },
            }
        }),
{
    let pid = new_poll_id();
    let out = pid.clone();
    match create_poll_with_id(db, broadcaster, pid, req, now) {
        Ok(()) => Ok(out),
        Err(e) => Err(e),
    }
}

/// Cast a vote. On acceptance the store moves by the vote transition
/// and the hub is notified once with the poll's new tally; every
/// rejection leaves both untouched. A closed poll always answers
/// `Rejected(Closed)`.
pub fn cast_vote(
    db: &mut DB,
    broadcaster: &mut Broadcaster,
    poll_id: &str,
    username: String,
    option_id: u64,
) -> (r: VoteOutcome)
    requires
        store_wf(old(db)@),
        hub_wf(old(broadcaster)@),
    ensures
        ({
            let (s2, out) = vote_spec(old(db)@, poll_id@, username@, option_id);
            &&& final(db)@ == s2
            &&& r == out
            &&& store_wf(final(db)@)
            &&& hub_wf(final(broadcaster)@)
            &&& (r == VoteOutcome::Accepted ==> results_spec(s2, poll_id@) is Some
                && final(broadcaster)@.clients == publish_clients(
                old(broadcaster)@.clients,
                FrameState::PollResults(results_spec(s2, poll_id@)->Some_0),
            ) && final(broadcaster)@.next_id == old(broadcaster)@.next_id)
            &&& (r != VoteOutcome::Accepted ==> final(db)@ == old(db)@ && final(broadcaster)@
                == old(broadcaster)@)
        }),
        has_poll(old(db)@.polls, poll_id@) && !poll_state(old(db)@.polls, poll_id@).is_open
            ==> r == VoteOutcome::Rejected(VoteReason::Closed),
{
    let ghost s = db@;
    proof {
        lemma_vote_preserves_wf(s, poll_id@, username@, option_id);
    }
    let out = db.polls.add_vote(poll_id, username, option_id, &mut db.options);
    proof {
        assert(db@ =~= vote_spec(s, poll_id@, username@, option_id).0);
    }
    match out {
        VoteOutcome::Accepted => {
            let results = db.polls.get_poll_results(&db.options, poll_id);
            match results {
                Some(pr) => {
                    broadcaster.send_poll_results(&pr);
                    VoteOutcome::Accepted
                },
                None => {
                    proof {
                        assert(false);
                    }
                    VoteOutcome::Accepted
                },
            }
        },
        _ => out,
    }
}

/// Close a poll: only the owner may; a rejected close has no effect at
/// all. On success the hub is notified once with the (unchanged) tally.
pub fn close_poll(
    db: &mut DB,
    broadcaster: &mut Broadcaster,
    poll_id: &str,
    username: &str,
) -> (r: Result<(), PollError>)
    requires
        store_wf(old(db)@),
        hub_wf(old(broadcaster)@),
    ensures
        ({
            let (polls2, res) = close_spec(old(db)@.polls, poll_id@, username@);
            let s2 = StoreState { polls: polls2, ..old(db)@ };
            &&& final(db)@ == s2
            &&& r == res
            &&& store_wf(final(db)@)
            &&& hub_wf(final(broadcaster)@)
            &&& (r is Ok ==> results_spec(s2, poll_id@) is Some && final(broadcaster)@.clients
                == publish_clients(
                old(broadcaster)@.clients,
                FrameState::PollResults(results_spec(s2, poll_id@)->Some_0),
            ) && final(broadcaster)@.next_id == old(broadcaster)@.next_id)
        }),
        !is_owner_spec(old(db)@.polls, poll_id@, username@) ==> r == Err::<(), PollError>(
            PollError::NotOwner,
        ) && final(db)@ == old(db)@ && final(broadcaster)@ == old(broadcaster)@,
{
    let ghost s = db@;
    proof {
        lemma_close_preserves_wf(s, poll_id@, username@);
        assert(poll_ids_unique(db.polls@));
    }
    match db.polls.close_poll(poll_id, username) {
        Ok(()) => {
            let results = db.polls.get_poll_results(&db.options, poll_id);
            match results {
                Some(pr) => {
                    broadcaster.send_poll_results(&pr);
                    Ok(())
                },
                None => {
                    proof {
                        assert(false);
                    }
                    Ok(())
                },
            }
        },
        Err(e) => Err(e),
    }
}

/// Reset a poll: only the owner may; on success every owned option's
/// count is zero again, the voters are cleared, the poll reopens, and
/// the hub is notified once with the all-zero tally.
pub fn reset_poll(
    db: &mut DB,
    broadcaster: &mut Broadcaster,
    poll_id: &str,
    username: &str,
) -> (r: Result<(), PollError>)
    requires
        store_wf(old(db)@),
        hub_wf(old(broadcaster)@),
    ensures
        ({
            let (s2, res) = reset_spec(old(db)@, poll_id@, username@);
            &&& final(db)@ == s2
            &&& r == res
            &&& store_wf(final(db)@)
            &&& hub_wf(final(broadcaster)@)
            &&& (r is Ok ==> results_spec(s2, poll_id@) is Some && final(broadcaster)@.clients
                == publish_clients(
                old(broadcaster)@.clients,
                FrameState::PollResults(results_spec(s2, poll_id@)->Some_0),
            ) && final(broadcaster)@.next_id == old(broadcaster)@.next_id)
        }),
        !is_owner_spec(old(db)@.polls, poll_id@, username@) ==> r == Err::<(), PollError>(
            PollError::NotOwner,
        ) && final(db)@ == old(db)@ && final(broadcaster)@ == old(broadcaster)@,
{
    let ghost s = db@;
    proof {
        lemma_reset_preserves_wf(s, poll_id@, username@);
    }
    match db.polls.reset_poll(poll_id, &mut db.options, username) {
        Ok(()) => {
            proof {
                assert(db@ =~= reset_spec(s, poll_id@, username@).0);
            }
            let results = db.polls.get_poll_results(&db.options, poll_id);
            match results {
                Some(pr) => {
                    broadcaster.send_poll_results(&pr);
                    Ok(())
                },
                None => {
                    proof {
                        assert(false);
                    }
                    Ok(())
                },
            }
        },
        Err(e) => Err(e),
    }
}

/// Delete a poll: only the owner may; the record is gone afterwards.
/// Orphaned option records are cleaned up lazily and never block the
/// removal; a deleted poll has no tally left to publish.
pub fn delete_poll(db: &mut DB, poll_id: &str, username: &str) -> (r: Result<(), PollError>)
    requires
        store_wf(old(db)@),
    ensures
        ({
            let (polls2, res) = delete_spec(old(db)@.polls, poll_id@, username@);
            &&& final(db)@ == (StoreState { polls: polls2, ..old(db)@ })
            &&& r == res
            &&& store_wf(final(db)@)
            &&& (r is Ok ==> !has_poll(final(db)@.polls, poll_id@))
        }),
        !is_owner_spec(old(db)@.polls, poll_id@, username@) ==> r == Err::<(), PollError>(
            PollError::NotOwner,
        ) && final(db)@ == old(db)@,
{
    let ghost s = db@;
    proof {
        lemma_delete_preserves_wf(s, poll_id@, username@);
        assert(poll_ids_unique(db.polls@));
    }
    db.polls.delete(poll_id, username)
}

} // verus!
