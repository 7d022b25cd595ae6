//! The mathematical model of the poll store.
//!
//! `StoreState` is the abstract value of the whole store: the sequence of
//! polls, the sequence of option records, and the next option id to hand
//! out. Every executable operation of the engine is specified as a pure
//! transition function over this model; the executable code is proved to
//! return exactly the transition's result.

use vstd::prelude::*;

verus! {

/// Why a vote was not recorded. `Conflict` is the lost-race outcome of
/// a conditional update that matched nothing; the in-memory store
/// commits each vote as one atomic unit, so its own operations never
/// report it, but callers over a store with looser atomicity do.
#[derive(Clone, Copy, Debug, PartialEq, Eq, Structural)]
pub enum VoteReason {
    Closed,
    InvalidOption,
    AlreadyVoted,
    Conflict,
}

/// The outcome of a vote attempt.
#[derive(Clone, Copy, Debug, PartialEq, Eq, Structural)]
pub enum VoteOutcome {
    Accepted,
    NotFound,
    Rejected(VoteReason),
}

/// Errors of the non-vote operations. An absent poll fails the owner
/// check, so owner-gated operations answer `NotOwner` for it (fail
/// closed); `StorageError` is a transient storage failure, here only an
/// exhausted id allocator.
#[derive(Clone, Copy, Debug, PartialEq, Eq, Structural)]
pub enum PollError {
    InvalidInput,
    NotOwner,
    Conflict,
    StorageError,
}

/// Abstract value of one option record.
#[verifier::ext_equal]
pub ghost struct OptionState {
    pub id: u64,
    pub text: Seq<char>,
    pub votes_count: nat,
}

/// Abstract value of one poll record.
#[verifier::ext_equal]
pub ghost struct PollState {
    pub id: Seq<char>,
    pub title: Seq<char>,
    pub owner_id: Seq<char>,
    pub options: Seq<u64>,
    pub is_open: bool,
    pub voters: Seq<Seq<char>>,
    pub created_at: int,
    pub updated_at: int,
}

/// Abstract value of the whole store.
#[verifier::ext_equal]
pub ghost struct StoreState {
    pub polls: Seq<PollState>,
    pub options: Seq<OptionState>,
    pub next_option_id: int,
}

pub open spec fn has_option(options: Seq<OptionState>, oid: u64) -> bool {
    exists|k: int| 0 <= k < options.len() && options[k].id == oid
}

pub open spec fn option_index(options: Seq<OptionState>, oid: u64) -> int {
    choose|k: int| 0 <= k < options.len() && options[k].id == oid
}

/// The vote count of the option with id `oid`, or zero when no such
/// option exists (a missing option counts as zero votes).
pub open spec fn option_votes(options: Seq<OptionState>, oid: u64) -> nat {
    if has_option(options, oid) {
        options[option_index(options, oid)].votes_count
    } else {
        0
    }
}

/// The text of the option with id `oid`, or the empty text.
pub open spec fn option_text(options: Seq<OptionState>, oid: u64) -> Seq<char> {
    if has_option(options, oid) {
        options[option_index(options, oid)].text
    } else {
        Seq::empty()
    }
}

/// Sum of the vote counts of the options named by `ids`.
pub open spec fn total_votes_of(options: Seq<OptionState>, ids: Seq<u64>) -> nat
    decreases ids.len(),
{
    if ids.len() == 0 {
        0
    } else {
        total_votes_of(options, ids.drop_last()) + option_votes(options, ids.last())
    }
}

pub open spec fn has_poll(polls: Seq<PollState>, id: Seq<char>) -> bool {
    exists|i: int| 0 <= i < polls.len() && polls[i].id == id
}

pub open spec fn poll_index(polls: Seq<PollState>, id: Seq<char>) -> int {
    choose|i: int| 0 <= i < polls.len() && polls[i].id == id
}

pub open spec fn poll_state(polls: Seq<PollState>, id: Seq<char>) -> PollState {
    polls[poll_index(polls, id)]
}

pub open spec fn distinct_strs(s: Seq<Seq<char>>) -> bool {
    forall|i: int, j: int| 0 <= i < j < s.len() ==> s[i] != s[j]
}

pub open spec fn distinct_ids(s: Seq<u64>) -> bool {
    forall|i: int, j: int| 0 <= i < j < s.len() ==> s[i] != s[j]
}

/// Well-formedness of a single poll: at least two options, no option
/// listed twice, no voter recorded twice.
pub open spec fn poll_wf(p: PollState) -> bool {
    &&& p.options.len() >= 2
    &&& distinct_ids(p.options)
    &&& distinct_strs(p.voters)
}

/// Well-formedness of the poll sequence: every poll well formed, poll
/// ids unique, and no option owned by two polls.
pub open spec fn polls_wf(polls: Seq<PollState>) -> bool {
    &&& forall|i: int| 0 <= i < polls.len() ==> poll_wf(#[trigger] polls[i])
    &&& forall|i: int, j: int| 0 <= i < j < polls.len() ==> polls[i].id != polls[j].id
    &&& forall|i: int, j: int, oid: u64|
        0 <= i < polls.len() && 0 <= j < polls.len() && i != j
            && #[trigger] polls[i].options.contains(oid)
            ==> !(#[trigger] polls[j].options.contains(oid))
}

/// Well-formedness of the option records: ids unique and below the
/// allocation counter.
pub open spec fn options_wf(options: Seq<OptionState>, next_option_id: int) -> bool {
    &&& forall|i: int, j: int| 0 <= i < j < options.len() ==> options[i].id != options[j].id
    &&& forall|k: int| 0 <= k < options.len() ==> (#[trigger] options[k].id) < next_option_id
}

/// Referential integrity: every option id a poll lists resolves to an
/// option record.
pub open spec fn refint(s: StoreState) -> bool {
    forall|i: int, k: int|
        0 <= i < s.polls.len() && 0 <= k < s.polls[i].options.len()
            ==> has_option(s.options, #[trigger] s.polls[i].options[k])
}

/// Transactional consistency: for every poll, the vote counts of its
/// options sum to the number of recorded voters.
pub open spec fn vote_sums(s: StoreState) -> bool {
    forall|i: int|
        0 <= i < s.polls.len()
            ==> total_votes_of(s.options, (#[trigger] s.polls[i]).options) == s.polls[i].voters.len()
}

/// The store invariant, established at creation and preserved by every
/// transition.
pub open spec fn store_wf(s: StoreState) -> bool {
    &&& polls_wf(s.polls)
    &&& options_wf(s.options, s.next_option_id)
    &&& 0 <= s.next_option_id <= u64::MAX
    &&& refint(s)
    &&& vote_sums(s)
}

pub open spec fn empty_store() -> StoreState {
    StoreState { polls: Seq::empty(), options: Seq::empty(), next_option_id: 0 }
}

/// Casting a vote: the checks of the engine's vote sequence, in order,
/// and on success the voter added and the chosen option's count raised
/// by one, atomically.
pub open spec fn vote_spec(
    s: StoreState,
    poll_id: Seq<char>,
    voter: Seq<char>,
    option_id: u64,
) -> (StoreState, VoteOutcome) {
    if !has_poll(s.polls, poll_id) {
        (s, VoteOutcome::NotFound)
    } else {
        let i = poll_index(s.polls, poll_id);
        let p = s.polls[i];
        if !p.is_open {
            (s, VoteOutcome::Rejected(VoteReason::Closed))
        } else if !p.options.contains(option_id) {
            (s, VoteOutcome::Rejected(VoteReason::InvalidOption))
        } else if p.voters.contains(voter) {
            (s, VoteOutcome::Rejected(VoteReason::AlreadyVoted))
        } else {
            let k = option_index(s.options, option_id);
            let p2 = PollState { voters: p.voters.push(voter), ..p };
            let o2 = OptionState { votes_count: s.options[k].votes_count + 1, ..s.options[k] };
            (
                StoreState {
                    polls: s.polls.update(i, p2),
                    options: s.options.update(k, o2),
                    ..s
                },
                VoteOutcome::Accepted,
            )
        }
    }
}

/// Whether `requester` owns the poll; a failed lookup counts as not
/// owning (fail closed).
pub open spec fn is_owner_spec(polls: Seq<PollState>, poll_id: Seq<char>, requester: Seq<char>) -> bool {
    has_poll(polls, poll_id) && poll_state(polls, poll_id).owner_id == requester
}

/// Closing a poll: only the owner may; sets `is_open` to false.
pub open spec fn close_spec(
    polls: Seq<PollState>,
    poll_id: Seq<char>,
    requester: Seq<char>,
) -> (Seq<PollState>, Result<(), PollError>) {
    if !is_owner_spec(polls, poll_id, requester) {
        (polls, Err(PollError::NotOwner))
    } else {
        let i = poll_index(polls, poll_id);
        let p2 = PollState { is_open: false, ..polls[i] };
        (polls.update(i, p2), Ok(()))
    }
}

/// Resetting a poll: only the owner may; every owned option's count goes
/// to zero, the voter set is cleared, and the poll reopens, atomically.
pub open spec fn reset_spec(
    s: StoreState,
    poll_id: Seq<char>,
    requester: Seq<char>,
) -> (StoreState, Result<(), PollError>) {
    if !is_owner_spec(s.polls, poll_id, requester) {
        (s, Err(PollError::NotOwner))
    } else {
        let i = poll_index(s.polls, poll_id);
        let p = s.polls[i];
        let p2 = PollState { is_open: true, voters: Seq::empty(), ..p };
        let options2 = s.options.map(
            |k: int, o: OptionState|
                if p.options.contains(o.id) {
                    OptionState { votes_count: 0, ..o }
                } else {
                    o
                },
        );
        (StoreState { polls: s.polls.update(i, p2), options: options2, ..s }, Ok(()))
    }
}

/// Deleting a poll: only the owner may; the poll record is removed
/// (option cleanup is deferred and must not block the removal).
pub open spec fn delete_spec(
    polls: Seq<PollState>,
    poll_id: Seq<char>,
    requester: Seq<char>,
) -> (Seq<PollState>, Result<(), PollError>) {
    if !is_owner_spec(polls, poll_id, requester) {
        (polls, Err(PollError::NotOwner))
    } else {
        (polls.remove(poll_index(polls, poll_id)), Ok(()))
    }
}

/// The index a linear search finds is the index the model speaks of:
/// with unique poll ids there is only one.
pub proof fn lemma_poll_index_of(polls: Seq<PollState>, id: Seq<char>, i: int)
    requires
        0 <= i < polls.len(),
        polls[i].id == id,
        forall|a: int, b: int| 0 <= a < b < polls.len() ==> polls[a].id != polls[b].id,
    ensures
        has_poll(polls, id),
        poll_index(polls, id) == i,
{
    assert(has_poll(polls, id));
    let j = poll_index(polls, id);
    if i < j {
        assert(polls[i].id != polls[j].id);
    } else if j < i {
        assert(polls[j].id != polls[i].id);
    }
}

/// Likewise for option records.
pub proof fn lemma_option_index_of(options: Seq<OptionState>, oid: u64, k: int)
    requires
        0 <= k < options.len(),
        options[k].id == oid,
        forall|a: int, b: int| 0 <= a < b < options.len() ==> options[a].id != options[b].id,
    ensures
        has_option(options, oid),
        option_index(options, oid) == k,
{
    assert(has_option(options, oid));
    let j = option_index(options, oid);
    if k < j {
        assert(options[k].id != options[j].id);
    } else if j < k {
        assert(options[j].id != options[k].id);
    }
}

/// The option records a creation with `base` as the first fresh id makes
/// out of the given texts, all with zero votes.
pub open spec fn new_options(base: int, texts: Seq<Seq<char>>) -> Seq<OptionState> {
    Seq::new(texts.len(), |k: int| OptionState { id: (base + k) as u64, text: texts[k], votes_count: 0 })
}

/// The ids of those records, in order.
pub open spec fn new_option_ids(base: int, n: nat) -> Seq<u64> {
    Seq::new(n, |k: int| (base + k) as u64)
}

/// Creating a poll: at least two option texts are required; the id must
/// be fresh; the options are inserted first and the poll then references
/// exactly their ids, open, with no voters, as one atomic unit.
pub open spec fn create_spec(
    s: StoreState,
    id: Seq<char>,
    title: Seq<char>,
    owner: Seq<char>,
    texts: Seq<Seq<char>>,
    now: int,
) -> (StoreState, Result<(), PollError>) {
    if texts.len() < 2 {
        (s, Err(PollError::InvalidInput))
    } else if has_poll(s.polls, id) {
        (s, Err(PollError::Conflict))
    } else if s.next_option_id + texts.len() > u64::MAX {
        (s, Err(PollError::StorageError))
    } else {
        let p = PollState {
            id: id,
            title: title,
            owner_id: owner,
            options: new_option_ids(s.next_option_id, texts.len()),
            is_open: true,
            voters: Seq::empty(),
            created_at: now,
            updated_at: now,
        };
        (
            StoreState {
                polls: s.polls.push(p),
                options: s.options + new_options(s.next_option_id, texts),
                next_option_id: s.next_option_id + texts.len(),
            },
            Ok(()),
        )
    }
}

/// Abstract value of one line of a results view.
#[verifier::ext_equal]
pub ghost struct OptionResultState {
    pub text: Seq<char>,
    pub votes_count: nat,
}

/// Abstract value of a results view: per option its text and count, and
/// the total over all of the poll's options.
#[verifier::ext_equal]
pub ghost struct ResultsState {
    pub id: Seq<char>,
    pub title: Seq<char>,
    pub total_votes: nat,
    pub options: Seq<OptionResultState>,
}

/// The results projection of a poll, or `None` when the poll is absent.
pub open spec fn results_spec(s: StoreState, poll_id: Seq<char>) -> Option<ResultsState> {
    if !has_poll(s.polls, poll_id) {
        None
    } else {
        let p = poll_state(s.polls, poll_id);
        Some(
            ResultsState {
                id: p.id,
                title: p.title,
                total_votes: total_votes_of(s.options, p.options),
                options: Seq::new(
                    p.options.len(),
                    |k: int| OptionResultState {
                        text: option_text(s.options, p.options[k]),
                        votes_count: option_votes(s.options, p.options[k]),
                    },
                ),
            },
        )
    }
}

/// Abstract value of a poll expanded with its option records, as the get
/// operation returns it; `total_votes` counts the recorded voters.
#[verifier::ext_equal]
pub ghost struct GetPollState {
    pub id: Seq<char>,
    pub title: Seq<char>,
    pub owner_id: Seq<char>,
    pub options: Seq<OptionState>,
    pub total_votes: nat,
    pub is_open: bool,
    pub voters: Seq<Seq<char>>,
    pub created_at: int,
    pub updated_at: int,
}

pub open spec fn expand_spec(options: Seq<OptionState>, p: PollState) -> GetPollState {
    GetPollState {
        id: p.id,
        title: p.title,
        owner_id: p.owner_id,
        options: Seq::new(
            p.options.len(),
            |k: int| OptionState {
                id: p.options[k],
                text: option_text(options, p.options[k]),
                votes_count: option_votes(options, p.options[k]),
            },
        ),
        total_votes: p.voters.len(),
        is_open: p.is_open,
        voters: p.voters,
        created_at: p.created_at,
        updated_at: p.updated_at,
    }
}

/// A requester has voted when it is anonymous (empty identifier) or
/// recorded among the voters.
pub open spec fn has_voted_spec(p: PollState, requester: Seq<char>) -> bool {
    requester.len() == 0 || p.voters.contains(requester)
}

/// Abstract value of a get response: the expanded poll when present,
/// and whether the requester has voted.
#[verifier::ext_equal]
pub ghost struct PollResponseState {
    pub poll: Option<GetPollState>,
    pub has_voted: bool,
}

/// The get operation: the poll expanded with its option records, or an
/// empty response when no such poll exists.
pub open spec fn get_spec(s: StoreState, poll_id: Seq<char>, requester: Seq<char>) -> PollResponseState {
    if !has_poll(s.polls, poll_id) {
        PollResponseState { poll: None, has_voted: false }
    } else {
        let p = poll_state(s.polls, poll_id);
        PollResponseState {
            poll: Some(expand_spec(s.options, p)),
            has_voted: has_voted_spec(p, requester),
        }
    }
}

/// How many polls have the given open flag.
pub open spec fn count_open(polls: Seq<PollState>, flag: bool) -> int
    decreases polls.len(),
{
    if polls.len() == 0 {
        0
    } else {
        count_open(polls.drop_last(), flag) + if polls.last().is_open == flag {
            1int
        } else {
            0int
        }
    }
}

/// How many polls the given owner holds.
pub open spec fn count_owned(polls: Seq<PollState>, owner: Seq<char>) -> int
    decreases polls.len(),
{
    if polls.len() == 0 {
        0
    } else {
        count_owned(polls.drop_last(), owner) + if polls.last().owner_id == owner {
            1int
        } else {
            0int
        }
    }
}

/// Sum of the counts a results view lists.
pub open spec fn results_sum(rs: Seq<OptionResultState>) -> nat
    decreases rs.len(),
{
    if rs.len() == 0 {
        0
    } else {
        results_sum(rs.drop_last()) + rs.last().votes_count
    }
}

/// The counts a results view lists sum to the poll's total.
pub proof fn lemma_results_sum(options: Seq<OptionState>, ids: Seq<u64>)
    ensures
        results_sum(
            Seq::new(
                ids.len(),
                |k: int| OptionResultState {
                    text: option_text(options, ids[k]),
                    votes_count: option_votes(options, ids[k]),
                },
            ),
        ) == total_votes_of(options, ids),
    decreases ids.len(),
{
    let rs = Seq::new(
        ids.len(),
        |k: int| OptionResultState {
            text: option_text(options, ids[k]),
            votes_count: option_votes(options, ids[k]),
        },
    );
    if ids.len() > 0 {
        lemma_results_sum(options, ids.drop_last());
        let rs1 = Seq::new(
            ids.drop_last().len(),
            |k: int| OptionResultState {
                text: option_text(options, ids.drop_last()[k]),
                votes_count: option_votes(options, ids.drop_last()[k]),
            },
        );
        assert(rs.drop_last() =~= rs1);
    }
}

/// The store a poll collection and an option collection make together.
pub open spec fn store_of(
    polls: Seq<PollState>,
    options: Seq<OptionState>,
    next_option_id: int,
) -> StoreState {
    StoreState { polls, options, next_option_id }
}

/// The conditions under which a vote is accepted.
pub open spec fn vote_ok(s: StoreState, poll_id: Seq<char>, voter: Seq<char>, option_id: u64) -> bool {
    &&& has_poll(s.polls, poll_id)
    &&& poll_state(s.polls, poll_id).is_open
    &&& poll_state(s.polls, poll_id).options.contains(option_id)
    &&& !poll_state(s.polls, poll_id).voters.contains(voter)
}

/// Updating one record changes the count read for its id and no other.
pub proof fn lemma_votes_after_update(options: Seq<OptionState>, k: int, o2: OptionState, oid: u64)
    requires
        0 <= k < options.len(),
        o2.id == options[k].id,
        forall|a: int, b: int| 0 <= a < b < options.len() ==> options[a].id != options[b].id,
    ensures
        option_votes(options.update(k, o2), oid) == if oid == options[k].id {
            o2.votes_count
        } else {
            option_votes(options, oid)
        },
        option_text(options.update(k, o2), oid) == if oid == options[k].id {
            o2.text
        } else {
            option_text(options, oid)
        },
{
    let upd = options.update(k, o2);
    assert(forall|a: int, b: int| 0 <= a < b < upd.len() ==> upd[a].id != upd[b].id);
    if oid == options[k].id {
        lemma_option_index_of(upd, oid, k);
    } else {
        if has_option(options, oid) {
            let m = option_index(options, oid);
            assert(upd[m].id == oid);
            lemma_option_index_of(upd, oid, m);
            lemma_option_index_of(options, oid, m);
        } else {
            assert(!has_option(upd, oid)) by {
                if has_option(upd, oid) {
                    let m = option_index(upd, oid);
                    assert(options[m].id == oid);
                }
            }
        }
    }
}

/// Two option collections that read the same count for every id in
/// `ids` give the same total.
pub proof fn lemma_total_congruence(
    opts1: Seq<OptionState>,
    opts2: Seq<OptionState>,
    ids: Seq<u64>,
)
    requires
        forall|j: int| 0 <= j < ids.len() ==> option_votes(opts2, #[trigger] ids[j]) == option_votes(
            opts1,
            ids[j],
        ),
    ensures
        total_votes_of(opts2, ids) == total_votes_of(opts1, ids),
    decreases ids.len(),
{
    if ids.len() > 0 {
        lemma_total_congruence(opts1, opts2, ids.drop_last());
    }
}

/// Raising the count of one record by one raises the total of any id
/// list that names it once by one.
pub proof fn lemma_total_update_inc(options: Seq<OptionState>, k: int, ids: Seq<u64>)
    requires
        0 <= k < options.len(),
        forall|a: int, b: int| 0 <= a < b < options.len() ==> options[a].id != options[b].id,
        distinct_ids(ids),
        ids.contains(options[k].id),
    ensures
        total_votes_of(
            options.update(k, OptionState { votes_count: options[k].votes_count + 1, ..options[k] }),
            ids,
        ) == total_votes_of(options, ids) + 1,
    decreases ids.len(),
{
    let o2 = OptionState { votes_count: options[k].votes_count + 1, ..options[k] };
    let upd = options.update(k, o2);
    let rest = ids.drop_last();
    if ids.last() == options[k].id {
        lemma_votes_after_update(options, k, o2, ids.last());
        assert(forall|j: int| 0 <= j < rest.len() ==> rest[j] == ids[j]);
        assert(forall|j: int| 0 <= j < rest.len() ==> #[trigger] rest[j] != options[k].id);
        assert(forall|j: int| 0 <= j < rest.len() ==> option_votes(upd, #[trigger] rest[j])
            == option_votes(options, rest[j])) by {
            assert forall|j: int| 0 <= j < rest.len() implies option_votes(upd, #[trigger] rest[j])
                == option_votes(options, rest[j]) by {
                lemma_votes_after_update(options, k, o2, rest[j]);
            }
        }
        lemma_total_congruence(options, upd, rest);
    } else {
        assert(rest.contains(options[k].id)) by {
            let w = choose|w: int| 0 <= w < ids.len() && ids[w] == options[k].id;
            assert(0 <= w < ids.len() - 1);
            assert(rest[w] == options[k].id);
        }
        lemma_total_update_inc(options, k, rest);
        lemma_votes_after_update(options, k, o2, ids.last());
    }
}

/// A list of ids whose counts all read zero totals zero.
pub proof fn lemma_total_zero(options: Seq<OptionState>, ids: Seq<u64>)
    requires
        forall|j: int| 0 <= j < ids.len() ==> option_votes(options, #[trigger] ids[j]) == 0,
    ensures
        total_votes_of(options, ids) == 0,
    decreases ids.len(),
{
    if ids.len() > 0 {
        lemma_total_zero(options, ids.drop_last());
    }
}

/// A named option's count never exceeds the total over the list.
pub proof fn lemma_total_member_le(options: Seq<OptionState>, ids: Seq<u64>, w: int)
    requires
        0 <= w < ids.len(),
    ensures
        option_votes(options, ids[w]) <= total_votes_of(options, ids),
    decreases ids.len(),
{
    if w < ids.len() - 1 {
        lemma_total_member_le(options, ids.drop_last(), w);
    }
}

/// One step of a prefix sum.
pub proof fn lemma_total_take_step(options: Seq<OptionState>, ids: Seq<u64>, i: int)
    requires
        0 <= i < ids.len(),
    ensures
        total_votes_of(options, ids.take(i + 1)) == total_votes_of(options, ids.take(i))
            + option_votes(options, ids[i]),
{
    assert(ids.take(i + 1).drop_last() =~= ids.take(i));
    assert(ids.take(i + 1).last() == ids[i]);
}

/// A prefix sum never exceeds the full total.
pub proof fn lemma_total_take_le(options: Seq<OptionState>, ids: Seq<u64>, i: int)
    requires
        0 <= i <= ids.len(),
    ensures
        total_votes_of(options, ids.take(i)) <= total_votes_of(options, ids),
    decreases ids.len() - i,
{
    if i == ids.len() {
        assert(ids.take(i) =~= ids);
    } else {
        lemma_total_take_step(options, ids, i);
        lemma_total_take_le(options, ids, i + 1);
    }
}

/// Closing a poll keeps the store invariant: only the open flag moves.
pub proof fn lemma_close_preserves_wf(s: StoreState, poll_id: Seq<char>, requester: Seq<char>)
    requires
        store_wf(s),
    ensures
        ({
            let (polls2, res) = close_spec(s.polls, poll_id, requester);
            let s2 = StoreState { polls: polls2, ..s };
            &&& store_wf(s2)
            &&& (res == Ok::<(), PollError>(()) <==> is_owner_spec(s.polls, poll_id, requester))
            &&& (res is Err ==> polls2 == s.polls)
            &&& (res is Ok ==> has_poll(polls2, poll_id) && poll_index(polls2, poll_id)
                == poll_index(s.polls, poll_id))
        }),
{
    let (polls2, res) = close_spec(s.polls, poll_id, requester);
    let s2 = StoreState { polls: polls2, ..s };
    if res is Ok {
        let i = poll_index(s.polls, poll_id);
        assert(0 <= i < s.polls.len());
        lemma_poll_index_of(polls2, poll_id, i);
        assert(forall|j: int| 0 <= j < polls2.len() && j != i ==> #[trigger] polls2[j]
            == s.polls[j]);
        assert(polls2[i].options == s.polls[i].options && polls2[i].voters == s.polls[i].voters
            && polls2[i].id == s.polls[i].id);
        assert(polls_wf(polls2)) by {
            assert forall|a: int, b: int, oid: u64|
                0 <= a < polls2.len() && 0 <= b < polls2.len() && a != b
                    && #[trigger] polls2[a].options.contains(oid)
                    implies !(#[trigger] polls2[b].options.contains(oid)) by {
                assert(polls2[a].options == s.polls[a].options);
                assert(polls2[b].options == s.polls[b].options);
                assert(s.polls[a].options.contains(oid));
                assert(!s.polls[b].options.contains(oid));
            }
        }
        assert(refint(s2)) by {
            assert forall|j: int, w: int|
                0 <= j < s2.polls.len() && 0 <= w < s2.polls[j].options.len()
                    implies has_option(s2.options, #[trigger] s2.polls[j].options[w]) by {
                assert(s2.polls[j].options == s.polls[j].options);
                assert(has_option(s.options, s.polls[j].options[w]));
            }
        }
        assert(vote_sums(s2)) by {
            assert forall|j: int| 0 <= j < s2.polls.len() implies total_votes_of(
                s2.options,
                (#[trigger] s2.polls[j]).options,
            ) == s2.polls[j].voters.len() by {
                assert(s2.polls[j].options == s.polls[j].options);
                assert(s2.polls[j].voters == s.polls[j].voters);
            }
        }
    }
}

/// Deleting a poll keeps the store invariant: the remaining polls are
/// the others, unchanged, and orphaned options stay harmless.
pub proof fn lemma_delete_preserves_wf(s: StoreState, poll_id: Seq<char>, requester: Seq<char>)
    requires
        store_wf(s),
    ensures
        ({
            let (polls2, res) = delete_spec(s.polls, poll_id, requester);
            let s2 = StoreState { polls: polls2, ..s };
            &&& store_wf(s2)
            &&& (res == Ok::<(), PollError>(()) <==> is_owner_spec(s.polls, poll_id, requester))
            &&& (res is Err ==> polls2 == s.polls)
            &&& (res is Ok ==> polls2.len() == s.polls.len() - 1 && !has_poll(polls2, poll_id))
        }),
{
    let (polls2, res) = delete_spec(s.polls, poll_id, requester);
    let s2 = StoreState { polls: polls2, ..s };
    if res is Ok {
        let i = poll_index(s.polls, poll_id);
        assert(0 <= i < s.polls.len());
        assert(forall|j: int| 0 <= j < i ==> #[trigger] polls2[j] == s.polls[j]);
        assert(forall|j: int| i <= j < polls2.len() ==> #[trigger] polls2[j] == s.polls[j + 1]);
        assert(!has_poll(polls2, poll_id)) by {
            if has_poll(polls2, poll_id) {
                let j = poll_index(polls2, poll_id);
                if j < i {
                    assert(s.polls[j].id != s.polls[i].id);
                } else {
                    assert(s.polls[i].id != s.polls[j + 1].id);
                }
            }
        }
        assert(polls_wf(polls2)) by {
            assert(forall|j: int| 0 <= j < polls2.len() ==> poll_wf(#[trigger] polls2[j]));
            assert forall|a: int, b: int| 0 <= a < b < polls2.len() implies polls2[a].id
                != polls2[b].id by {
                let a0 = if a < i { a } else { a + 1 };
                let b0 = if b < i { b } else { b + 1 };
                assert(polls2[a] == s.polls[a0] && polls2[b] == s.polls[b0]);
            }
            assert forall|a: int, b: int, oid: u64|
                0 <= a < polls2.len() && 0 <= b < polls2.len() && a != b
                    && #[trigger] polls2[a].options.contains(oid)
                    implies !(#[trigger] polls2[b].options.contains(oid)) by {
                let a0 = if a < i { a } else { a + 1 };
                let b0 = if b < i { b } else { b + 1 };
                assert(s.polls[a0].options.contains(oid));
                assert(!s.polls[b0].options.contains(oid));
            }
        }
        assert(refint(s2)) by {
            assert forall|j: int, w: int|
                0 <= j < s2.polls.len() && 0 <= w < s2.polls[j].options.len()
                    implies has_option(s2.options, #[trigger] s2.polls[j].options[w]) by {
                let j0 = if j < i { j } else { j + 1 };
                assert(s2.polls[j] == s.polls[j0]);
                assert(has_option(s.options, s.polls[j0].options[w]));
            }
        }
        assert(vote_sums(s2)) by {
            assert forall|j: int| 0 <= j < s2.polls.len() implies total_votes_of(
                s2.options,
                (#[trigger] s2.polls[j]).options,
            ) == s2.polls[j].voters.len() by {
                let j0 = if j < i { j } else { j + 1 };
                assert(s2.polls[j] == s.polls[j0]);
            }
        }
    }
}

/// The create transition keeps the store invariant; a failed creation
/// changes nothing, and a successful one appends fresh zero-count
/// options and one open poll referencing exactly them.
pub proof fn lemma_create_preserves_wf(
    s: StoreState,
    id: Seq<char>,
    title: Seq<char>,
    owner: Seq<char>,
    texts: Seq<Seq<char>>,
    now: int,
)
    requires
        store_wf(s),
    ensures
        ({
            let (s2, res) = create_spec(s, id, title, owner, texts, now);
            &&& store_wf(s2)
            &&& (res is Err ==> s2 == s)
            &&& (res is Ok ==> {
                &&& has_poll(s2.polls, id)
                &&& poll_index(s2.polls, id) == s.polls.len()
                &&& s2.polls.len() == s.polls.len() + 1
                &&& (forall|j: int| 0 <= j < s.polls.len() ==> #[trigger] s2.polls[j] == s.polls[j])
                &&& total_votes_of(s2.options, s2.polls[s.polls.len() as int].options) == 0
                &&& (forall|oid: u64|
                    has_option(s.options, oid) ==> option_votes(s2.options, oid) == option_votes(
                        s.options,
                        oid,
                    ) && option_text(s2.options, oid) == option_text(s.options, oid))
            })
        }),
{
    let (s2, res) = create_spec(s, id, title, owner, texts, now);
    if res is Ok {
        let base = s.next_option_id;
        let ids = new_option_ids(base, texts.len());
        let p = s2.polls.last();
        assert(s2.polls == s.polls.push(p));
        assert(s2.options == s.options + new_options(base, texts));
        assert(forall|m: int| 0 <= m < s.options.len() ==> #[trigger] s2.options[m]
            == s.options[m]);
        assert(forall|m: int| s.options.len() <= m < s2.options.len() ==> (#[trigger] s2.options[m]).id
            == base + (m - s.options.len()) && s2.options[m].votes_count == 0);
        assert(forall|m: int| 0 <= m < s.options.len() ==> (#[trigger] s2.options[m]).id < base);
        assert(forall|a: int, b: int| 0 <= a < b < s2.options.len() ==> s2.options[a].id
            != s2.options[b].id);
        lemma_poll_index_of(s2.polls, id, s.polls.len() as int);

        // reads of the old records carry over
        assert forall|oid: u64| has_option(s.options, oid) implies {
            &&& has_option(s2.options, oid)
            &&& option_index(s2.options, oid) == option_index(s.options, oid)
        } by {
            let m = option_index(s.options, oid);
            assert(s2.options[m].id == oid);
            lemma_option_index_of(s2.options, oid, m);
            lemma_option_index_of(s.options, oid, m);
        }

        // the new poll's ids all read zero
        assert forall|j: int| 0 <= j < ids.len() implies option_votes(
            s2.options,
            #[trigger] ids[j],
        ) == 0 by {
            let m = s.options.len() + j;
            assert(s2.options[m].id == ids[j]);
            lemma_option_index_of(s2.options, ids[j], m);
        }
        lemma_total_zero(s2.options, ids);
        assert(p.options == ids);

        // poll well-formedness: new ids are fresh and distinct
        assert(distinct_ids(ids));
        assert(polls_wf(s2.polls)) by {
            assert(forall|j: int| 0 <= j < s.polls.len() ==> (#[trigger] s2.polls[j]).id
                == s.polls[j].id);
            assert(forall|j: int| 0 <= j < s.polls.len() ==> !(s.polls[j].id == id));
            assert(poll_wf(p));
            assert forall|a: int, b: int, oid: u64|
                0 <= a < s2.polls.len() && 0 <= b < s2.polls.len() && a != b
                    && #[trigger] s2.polls[a].options.contains(oid)
                    implies !(#[trigger] s2.polls[b].options.contains(oid)) by {
                if a < s.polls.len() && b < s.polls.len() {
                    assert(s.polls[a].options.contains(oid));
                    assert(!s.polls[b].options.contains(oid));
                } else if a == s.polls.len() {
                    // oid is fresh, so no old poll lists it
                    assert(oid >= base);
                    if s.polls[b].options.contains(oid) {
                        let w = choose|w: int|
                            0 <= w < s.polls[b].options.len() && s.polls[b].options[w] == oid;
                        assert(has_option(s.options, s.polls[b].options[w]));
                        let m = option_index(s.options, oid);
                        assert(s.options[m].id < base);
                        assert(false);
                    }
                } else {
                    // b is the new poll: old polls hold only ids below base
                    assert(b == s.polls.len());
                    if s2.polls[b].options.contains(oid) {
                        let w = choose|w: int| 0 <= w < ids.len() && ids[w] == oid;
                        assert(oid >= base);
                        let v = choose|v: int|
                            0 <= v < s.polls[a].options.len() && s.polls[a].options[v] == oid;
                        assert(has_option(s.options, s.polls[a].options[v]));
                        let m = option_index(s.options, oid);
                        assert(s.options[m].id < base);
                        assert(false);
                    }
                }
            }
        }
        assert(refint(s2)) by {
            assert forall|j: int, w: int|
                0 <= j < s2.polls.len() && 0 <= w < s2.polls[j].options.len()
                    implies has_option(s2.options, #[trigger] s2.polls[j].options[w]) by {
                if j < s.polls.len() {
                    assert(has_option(s.options, s.polls[j].options[w]));
                } else {
                    let m = s.options.len() + w;
                    assert(s2.options[m].id == ids[w]);
                }
            }
        }
        assert(vote_sums(s2)) by {
            assert forall|j: int| 0 <= j < s2.polls.len() implies total_votes_of(
                s2.options,
                (#[trigger] s2.polls[j]).options,
            ) == s2.polls[j].voters.len() by {
                if j < s.polls.len() {
                    assert(s2.polls[j] == s.polls[j]);
                    assert forall|w: int| 0 <= w < s.polls[j].options.len() implies option_votes(
                        s2.options,
                        #[trigger] s.polls[j].options[w],
                    ) == option_votes(s.options, s.polls[j].options[w]) by {
                        assert(has_option(s.options, s.polls[j].options[w]));
                    }
                    lemma_total_congruence(s.options, s2.options, s.polls[j].options);
                } else {
                    assert(s2.polls[j] == p);
                }
            }
        }
    }
}

/// The reset transition keeps the store invariant; a rejected reset
/// changes nothing, and an accepted one zeroes exactly the owned
/// options' counts, clears the voters, and reopens the poll.
pub proof fn lemma_reset_preserves_wf(s: StoreState, poll_id: Seq<char>, requester: Seq<char>)
    requires
        store_wf(s),
    ensures
        ({
            let (s2, res) = reset_spec(s, poll_id, requester);
            &&& store_wf(s2)
            &&& (res == Ok::<(), PollError>(()) <==> is_owner_spec(s.polls, poll_id, requester))
            &&& (res is Err ==> s2 == s)
            &&& (res is Ok ==> {
                let i = poll_index(s.polls, poll_id);
                let p = s.polls[i];
                &&& s2.polls.len() == s.polls.len()
                &&& (forall|j: int|
                    0 <= j < s.polls.len() && j != i ==> #[trigger] s2.polls[j] == s.polls[j])
                &&& s2.polls[i] == PollState { is_open: true, voters: Seq::<Seq<char>>::empty(), ..p }
                &&& s2.next_option_id == s.next_option_id
                &&& has_poll(s2.polls, poll_id)
                &&& poll_index(s2.polls, poll_id) == i
                &&& s2.options.len() == s.options.len()
                &&& (forall|oid: u64|
                    p.options.contains(oid) ==> option_votes(s2.options, oid) == 0)
                &&& (forall|oid: u64|
                    !p.options.contains(oid) ==> option_votes(s2.options, oid) == option_votes(
                        s.options,
                        oid,
                    ))
                &&& (forall|oid: u64| option_text(s2.options, oid) == option_text(s.options, oid))
                &&& total_votes_of(s2.options, p.options) == 0
            })
        }),
{
    let (s2, res) = reset_spec(s, poll_id, requester);
    if res is Ok {
        let i = poll_index(s.polls, poll_id);
        let p = s.polls[i];
        assert(0 <= i < s.polls.len());
        let p2 = PollState { is_open: true, voters: Seq::<Seq<char>>::empty(), ..p };
        assert(s2.polls == s.polls.update(i, p2));
        lemma_poll_index_of(s2.polls, poll_id, i);
        assert(forall|m: int| 0 <= m < s2.options.len() ==> (#[trigger] s2.options[m]).id
            == s.options[m].id && s2.options[m].text == s.options[m].text);
        assert(forall|m: int|
            0 <= m < s2.options.len() ==> (#[trigger] s2.options[m]).votes_count == (
            if p.options.contains(s.options[m].id) {
                0
            } else {
                s.options[m].votes_count
            }));

        // pointwise reads over the mapped option collection
        assert forall|oid: u64| crate::model::has_option(s.options, oid) implies {
            &&& has_option(s2.options, oid)
            &&& option_index(s2.options, oid) == option_index(s.options, oid)
        } by {
            let m = option_index(s.options, oid);
            assert(s2.options[m].id == oid);
            lemma_option_index_of(s2.options, oid, m);
        }
        assert forall|oid: u64| !has_option(s.options, oid) implies !has_option(s2.options, oid) by {
            if has_option(s2.options, oid) {
                let m = option_index(s2.options, oid);
                assert(s.options[m].id == oid);
            }
        }
        assert forall|oid: u64| p.options.contains(oid) implies option_votes(s2.options, oid)
            == 0 by {
            let w = choose|w: int| 0 <= w < p.options.len() && p.options[w] == oid;
            assert(has_option(s.options, s.polls[i].options[w]));
            let m = option_index(s.options, oid);
            assert(s2.options[m].votes_count == 0);
        }
        assert(forall|oid: u64| !p.options.contains(oid) ==> option_votes(s2.options, oid)
            == option_votes(s.options, oid));
        assert(forall|oid: u64| option_text(s2.options, oid) == option_text(s.options, oid));

        // the poll sequence stays well formed
        assert(polls_wf(s2.polls)) by {
            assert(forall|j: int| 0 <= j < s2.polls.len() ==> (#[trigger] s2.polls[j]).options
                == s.polls[j].options);
            assert(forall|j: int| 0 <= j < s2.polls.len() ==> (#[trigger] s2.polls[j]).id
                == s.polls[j].id);
            assert forall|a: int, b: int, oid: u64|
                0 <= a < s2.polls.len() && 0 <= b < s2.polls.len() && a != b
                    && #[trigger] s2.polls[a].options.contains(oid)
                    implies !(#[trigger] s2.polls[b].options.contains(oid)) by {
                assert(s.polls[a].options.contains(oid));
                assert(!s.polls[b].options.contains(oid));
            }
        }
        assert(refint(s2)) by {
            assert forall|j: int, w: int|
                0 <= j < s2.polls.len() && 0 <= w < s2.polls[j].options.len()
                    implies has_option(s2.options, #[trigger] s2.polls[j].options[w]) by {
                assert(s2.polls[j].options == s.polls[j].options);
                assert(has_option(s.options, s.polls[j].options[w]));
            }
        }
        assert forall|j: int| 0 <= j < p.options.len() implies option_votes(
            s2.options,
            #[trigger] p.options[j],
        ) == 0 by {
            assert(p.options.contains(p.options[j]));
        }
        lemma_total_zero(s2.options, p.options);
        assert(vote_sums(s2)) by {
            assert forall|j: int| 0 <= j < s2.polls.len() implies total_votes_of(
                s2.options,
                (#[trigger] s2.polls[j]).options,
            ) == s2.polls[j].voters.len() by {
                if j == i {
                } else {
                    assert(s2.polls[j] == s.polls[j]);
                    assert forall|w: int| 0 <= w < s.polls[j].options.len() implies option_votes(
                        s2.options,
                        #[trigger] s.polls[j].options[w],
                    ) == option_votes(s.options, s.polls[j].options[w]) by {
                        assert(s.polls[j].options.contains(s.polls[j].options[w]));
                        assert(!s.polls[i].options.contains(s.polls[j].options[w]));
                        assert(!p.options.contains(s.polls[j].options[w]));
                    }
                    lemma_total_congruence(s.options, s2.options, s.polls[j].options);
                }
            }
        }
    }
}

/// The vote transition keeps the store invariant; a rejected vote
/// changes nothing, and an accepted one changes exactly the voter list
/// of the poll and the count of the chosen option.
pub proof fn lemma_vote_preserves_wf(
    s: StoreState,
    poll_id: Seq<char>,
    voter: Seq<char>,
    option_id: u64,
)
    requires
        store_wf(s),
    ensures
        ({
            let (s2, out) = vote_spec(s, poll_id, voter, option_id);
            &&& store_wf(s2)
            &&& (out == VoteOutcome::Accepted <==> vote_ok(s, poll_id, voter, option_id))
            &&& (out != VoteOutcome::Accepted ==> s2 == s)
            &&& (out == VoteOutcome::Accepted ==> {
                let i = poll_index(s.polls, poll_id);
                let p = s.polls[i];
                &&& s2.polls.len() == s.polls.len()
                &&& (forall|j: int|
                    0 <= j < s.polls.len() && j != i ==> #[trigger] s2.polls[j] == s.polls[j])
                &&& s2.polls[i] == PollState { voters: p.voters.push(voter), ..p }
                &&& s2.next_option_id == s.next_option_id
                &&& poll_index(s2.polls, poll_id) == i
                &&& has_poll(s2.polls, poll_id)
                &&& total_votes_of(s2.options, p.options) == total_votes_of(s.options, p.options)
                    + 1
                &&& (forall|j: int|
                    0 <= j < s.polls.len() && j != i ==> total_votes_of(
                        s2.options,
                        (#[trigger] s.polls[j]).options,
                    ) == total_votes_of(s.options, s.polls[j].options))
            })
        }),
{
    let (s2, out) = vote_spec(s, poll_id, voter, option_id);
    if out == VoteOutcome::Accepted {
        let i = poll_index(s.polls, poll_id);
        let p = s.polls[i];
        assert(0 <= i < s.polls.len());
        assert(has_option(s.options, option_id)) by {
            let w = choose|w: int| 0 <= w < p.options.len() && p.options[w] == option_id;
            assert(has_option(s.options, s.polls[i].options[w]));
        }
        let k = option_index(s.options, option_id);
        assert(0 <= k < s.options.len() && s.options[k].id == option_id);
        let p2 = PollState { voters: p.voters.push(voter), ..p };
        let o2 = OptionState { votes_count: s.options[k].votes_count + 1, ..s.options[k] };
        assert(s2.polls == s.polls.update(i, p2));
        assert(s2.options == s.options.update(k, o2));
        lemma_poll_index_of(s2.polls, poll_id, i);

        // well-formedness of the updated poll: the new voter was absent
        assert(distinct_strs(p2.voters)) by {
            assert(forall|a: int| 0 <= a < p.voters.len() ==> p2.voters[a] == p.voters[a]);
            assert(forall|a: int| 0 <= a < p.voters.len() ==> #[trigger] p.voters[a] != voter);
        }
        assert(polls_wf(s2.polls)) by {
            assert(forall|j: int| 0 <= j < s2.polls.len() ==> (#[trigger] s2.polls[j]).options
                == s.polls[j].options);
            assert(forall|j: int| 0 <= j < s2.polls.len() ==> (#[trigger] s2.polls[j]).id
                == s.polls[j].id);
            assert(forall|a: int, b: int, oid: u64|
                0 <= a < s2.polls.len() && 0 <= b < s2.polls.len() && a != b
                    && #[trigger] s2.polls[a].options.contains(oid)
                    ==> !(#[trigger] s2.polls[b].options.contains(oid))) by {
                assert forall|a: int, b: int, oid: u64|
                    0 <= a < s2.polls.len() && 0 <= b < s2.polls.len() && a != b
                        && #[trigger] s2.polls[a].options.contains(oid)
                        implies !(#[trigger] s2.polls[b].options.contains(oid)) by {
                    assert(s.polls[a].options.contains(oid));
                    assert(!s.polls[b].options.contains(oid));
                }
            }
        }
        assert(options_wf(s2.options, s2.next_option_id)) by {
            assert(forall|m: int| 0 <= m < s2.options.len() ==> (#[trigger] s2.options[m]).id
                == s.options[m].id);
        }
        assert(refint(s2)) by {
            assert forall|j: int, w: int|
                0 <= j < s2.polls.len() && 0 <= w < s2.polls[j].options.len()
                    implies has_option(s2.options, #[trigger] s2.polls[j].options[w]) by {
                assert(s2.polls[j].options == s.polls[j].options);
                assert(has_option(s.options, s.polls[j].options[w]));
                let m = option_index(s.options, s.polls[j].options[w]);
                assert(s2.options[m].id == s.polls[j].options[w]);
            }
        }
        // the consistency sums
        lemma_total_update_inc(s.options, k, p.options);
        assert(total_votes_of(s2.options, p.options) == total_votes_of(s.options, p.options) + 1);
        assert forall|j: int| 0 <= j < s.polls.len() && j != i implies total_votes_of(
            s2.options,
            (#[trigger] s.polls[j]).options,
        ) == total_votes_of(s.options, s.polls[j].options) by {
            assert forall|w: int| 0 <= w < s.polls[j].options.len() implies option_votes(
                s2.options,
                #[trigger] s.polls[j].options[w],
            ) == option_votes(s.options, s.polls[j].options[w]) by {
                assert(s.polls[j].options.contains(s.polls[j].options[w]));
                assert(!s.polls[i].options.contains(s.polls[j].options[w]));
                assert(s.polls[j].options[w] != option_id);
                lemma_votes_after_update(s.options, k, o2, s.polls[j].options[w]);
            }
            assert(forall|q: int| 0 <= q < s.polls[j].options.len() ==> option_votes(
                s2.options,
                #[trigger] s.polls[j].options[q],
            ) == option_votes(s.options, s.polls[j].options[q]));
            lemma_total_congruence(s.options, s2.options, s.polls[j].options);
        }
        assert(vote_sums(s2)) by {
            assert forall|j: int| 0 <= j < s2.polls.len() implies total_votes_of(
                s2.options,
                (#[trigger] s2.polls[j]).options,
            ) == s2.polls[j].voters.len() by {
                if j == i {
                    assert(s2.polls[j].options == p.options);
                    assert(s2.polls[j].voters.len() == p.voters.len() + 1);
                } else {
                    assert(s2.polls[j] == s.polls[j]);
                    assert(total_votes_of(s.options, s.polls[j].options)
                        == s.polls[j].voters.len());
                }
            }
        }
    }
}

} // verus!
