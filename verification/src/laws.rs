//! The engine's concurrency laws.
//!
//! Concurrent callers are serialized by the store's atomic conditional
//! updates, so any interleaving of operations is some order of the
//! transition functions; these laws hold of every such order.

use vstd::prelude::*;

use crate::model::{
    has_poll, lemma_reset_preserves_wf, lemma_vote_preserves_wf, poll_index, poll_state,
    reset_spec, results_spec, store_wf, total_votes_of, vote_ok, vote_spec, PollState, StoreState,
    VoteOutcome, VoteReason,
};

verus! {

/// One vote attempt: who votes, and for which option.
pub ghost struct VoteEvent {
    pub voter: Seq<char>,
    pub option_id: u64,
}

/// The store after a batch of vote attempts on one poll lands, in the
/// given order.
pub open spec fn apply_votes(s: StoreState, poll_id: Seq<char>, reqs: Seq<VoteEvent>) -> StoreState
    decreases reqs.len(),
{
    if reqs.len() == 0 {
        s
    } else {
        let s1 = vote_spec(s, poll_id, reqs[0].voter, reqs[0].option_id).0;
        apply_votes(s1, poll_id, reqs.skip(1))
    }
}

/// How many attempts of the batch are accepted.
pub open spec fn accepted_count(s: StoreState, poll_id: Seq<char>, reqs: Seq<VoteEvent>) -> int
    decreases reqs.len(),
{
    if reqs.len() == 0 {
        0
    } else {
        let (s1, out) = vote_spec(s, poll_id, reqs[0].voter, reqs[0].option_id);
        (if out == VoteOutcome::Accepted {
            1int
        } else {
            0int
        }) + accepted_count(s1, poll_id, reqs.skip(1))
    }
}

/// A batch of vote attempts on one open poll by pairwise distinct
/// voters, none of whom has voted yet, each naming a valid option:
/// every attempt is accepted and the sum of the poll's option counts
/// rises by exactly the batch's size, in whatever order the attempts
/// land.
pub proof fn lemma_distinct_voters_all_accepted(
    s: StoreState,
    poll_id: Seq<char>,
    reqs: Seq<VoteEvent>,
)
    requires
        store_wf(s),
        has_poll(s.polls, poll_id),
        poll_state(s.polls, poll_id).is_open,
        forall|i: int|
            0 <= i < reqs.len() ==> poll_state(s.polls, poll_id).options.contains(
                (#[trigger] reqs[i]).option_id,
            ),
        forall|i: int|
            0 <= i < reqs.len() ==> !poll_state(s.polls, poll_id).voters.contains(
                (#[trigger] reqs[i]).voter,
            ),
        forall|i: int, j: int| 0 <= i < j < reqs.len() ==> reqs[i].voter != reqs[j].voter,
    ensures
        ({
            let s2 = apply_votes(s, poll_id, reqs);
            &&& accepted_count(s, poll_id, reqs) == reqs.len()
            &&& store_wf(s2)
            &&& has_poll(s2.polls, poll_id)
            &&& poll_state(s2.polls, poll_id).is_open
            &&& poll_state(s2.polls, poll_id).options == poll_state(s.polls, poll_id).options
            &&& total_votes_of(s2.options, poll_state(s2.polls, poll_id).options)
                == total_votes_of(s.options, poll_state(s.polls, poll_id).options) + reqs.len()
            &&& poll_state(s2.polls, poll_id).voters.len() == poll_state(
                s.polls,
                poll_id,
            ).voters.len() + reqs.len()
        }),
    decreases reqs.len(),
{
    if reqs.len() > 0 {
        let v = reqs[0];
        let p = poll_state(s.polls, poll_id);
        let i = poll_index(s.polls, poll_id);
        lemma_vote_preserves_wf(s, poll_id, v.voter, v.option_id);
        let (s1, out) = vote_spec(s, poll_id, v.voter, v.option_id);
        assert(vote_ok(s, poll_id, v.voter, v.option_id));
        assert(out == VoteOutcome::Accepted);
        let p1 = poll_state(s1.polls, poll_id);
        assert(p1 == (PollState { voters: p.voters.push(v.voter), ..p }));

        let rest = reqs.skip(1);
        assert(forall|j: int| 0 <= j < rest.len() ==> rest[j] == reqs[j + 1]);
        assert forall|j: int| 0 <= j < rest.len() implies !p1.voters.contains(
            (#[trigger] rest[j]).voter,
        ) by {
            if p1.voters.contains(rest[j].voter) {
                let w = choose|w: int|
                    0 <= w < p1.voters.len() && p1.voters[w] == rest[j].voter;
                if w < p.voters.len() {
                    assert(p.voters[w] == reqs[j + 1].voter);
                    assert(p.voters.contains(reqs[j + 1].voter));
                } else {
                    assert(reqs[0].voter == reqs[j + 1].voter);
                }
            }
        }
        assert(forall|j: int| 0 <= j < rest.len() ==> p1.options.contains(
            (#[trigger] rest[j]).option_id,
        ));
        assert(forall|a: int, b: int| 0 <= a < b < rest.len() ==> rest[a].voter != rest[b].voter);
        lemma_distinct_voters_all_accepted(s1, poll_id, rest);
    }
}

/// Two vote attempts by one voter on one poll, one after the other and
/// on any options: never are both accepted; where the first is accepted
/// and the second names a valid option, the second is rejected as a
/// duplicate; and where the first attempt meets every condition, it is
/// the one accepted — exactly one of the pair.
pub proof fn lemma_same_voter_at_most_once(
    s: StoreState,
    poll_id: Seq<char>,
    voter: Seq<char>,
    oid1: u64,
    oid2: u64,
)
    requires
        store_wf(s),
    ensures
        ({
            let (s1, out1) = vote_spec(s, poll_id, voter, oid1);
            let out2 = vote_spec(s1, poll_id, voter, oid2).1;
            &&& !(out1 == VoteOutcome::Accepted && out2 == VoteOutcome::Accepted)
            &&& (out1 == VoteOutcome::Accepted && poll_state(s1.polls, poll_id).options.contains(
                oid2,
            ) ==> out2 == VoteOutcome::Rejected(VoteReason::AlreadyVoted))
            &&& (vote_ok(s, poll_id, voter, oid1) ==> out1 == VoteOutcome::Accepted)
        }),
{
    lemma_vote_preserves_wf(s, poll_id, voter, oid1);
    let (s1, out1) = vote_spec(s, poll_id, voter, oid1);
    if out1 == VoteOutcome::Accepted {
        let p = poll_state(s.polls, poll_id);
        let p1 = poll_state(s1.polls, poll_id);
        assert(p1 == (PollState { voters: p.voters.push(voter), ..p }));
        assert(p1.voters[p.voters.len() as int] == voter);
        assert(p1.voters.contains(voter));
    }
}

/// A reset followed at once by the results projection: the total is
/// zero and every listed option's count is zero.
pub proof fn lemma_reset_then_results(s: StoreState, poll_id: Seq<char>, requester: Seq<char>)
    requires
        store_wf(s),
    ensures
        ({
            let (s2, res) = reset_spec(s, poll_id, requester);
            res is Ok ==> {
                let rv = results_spec(s2, poll_id);
                &&& rv is Some
                &&& rv->Some_0.total_votes == 0
                &&& forall|k: int|
                    0 <= k < rv->Some_0.options.len()
                        ==> (#[trigger] rv->Some_0.options[k]).votes_count == 0
            }
        }),
{
    lemma_reset_preserves_wf(s, poll_id, requester);
    let (s2, res) = reset_spec(s, poll_id, requester);
    if res is Ok {
        let i = poll_index(s.polls, poll_id);
        let p = s.polls[i];
        let p2 = poll_state(s2.polls, poll_id);
        assert(p2.options == p.options);
        let rv = results_spec(s2, poll_id);
        assert forall|k: int| 0 <= k < rv->Some_0.options.len() implies (#[trigger] rv
            ->Some_0.options[k]).votes_count == 0 by {
            assert(p.options.contains(p.options[k]));
        }
    }
}

} // verus!
