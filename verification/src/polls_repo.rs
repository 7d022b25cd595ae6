//! The poll store and the lifecycle engine's operations on it.

use vstd::prelude::*;

use crate::model::{
    close_spec, count_open, count_owned, delete_spec, expand_spec, get_spec, has_option, has_poll,
    is_owner_spec, lemma_option_index_of, lemma_poll_index_of, lemma_results_sum,
    lemma_total_member_le, lemma_total_take_le, lemma_total_take_step, lemma_vote_preserves_wf,
    option_text, option_votes, poll_state, results_spec, results_sum, store_of, store_wf,
    total_votes_of, vote_spec, OptionResultState, OptionState, PollError, PollState, VoteOutcome,
    VoteReason,
};
use crate::options_repo::{OptionModel, OptionRepo};
use crate::poll_api_model::{GetPollResponse, PollOptionResult, PollResponse, PollResults};

verus! {

/// Whether `x` occurs among the ids.
pub fn contains_id(v: &Vec<u64>, x: u64) -> (r: bool)
    ensures
        r == v@.contains(x),
{
    let n = v.len();
    for i in 0..n
        invariant
            n == v.len(),
            forall|j: int| 0 <= j < i ==> v@[j] != x,
    {
        if v[i] == x {
            return true;
        }
    }
    false
}

/// A copy of a list of ids.
pub fn copy_ids(v: &Vec<u64>) -> (r: Vec<u64>)
    ensures
        r@ == v@,
{
    let mut r: Vec<u64> = Vec::new();
    let n = v.len();
    for i in 0..n
        invariant
            n == v.len(),
            r@ == v@.take(i as int),
    {
        r.push(v[i]);
        proof {
            assert(v@.take(i + 1 as int) =~= v@.take(i as int).push(v@[i as int]));
        }
    }
    proof {
        assert(v@.take(n as int) =~= v@);
    }
    r
}

/// A copy of a list of strings, element for element.
pub fn copy_strings(v: &Vec<String>) -> (r: Vec<String>)
    ensures
        r@.len() == v@.len(),
        forall|k: int| 0 <= k < v@.len() ==> r@[k] == v@[k],
{
    let mut r: Vec<String> = Vec::new();
    let n = v.len();
    for i in 0..n
        invariant
            n == v.len(),
            r@.len() == i,
            forall|k: int| 0 <= k < i ==> r@[k] == v@[k],
    {
        r.push(v[i].clone());
    }
    r
}

/// The records of the given option ids, in order, copied out of the
/// option store.
pub(crate) fn expand_options(ids: &Vec<u64>, options: &OptionRepo) -> (r: Vec<OptionModel>)
    requires
        forall|k: int| 0 <= k < ids@.len() ==> has_option(options@, #[trigger] ids@[k]),
        forall|a: int, b: int| 0 <= a < b < options@.len() ==> options@[a].id != options@[b].id,
    ensures
        r@.len() == ids@.len(),
        forall|k: int|
            0 <= k < ids@.len() ==> (#[trigger] r@[k])@ == (OptionState {
                id: ids@[k],
                text: option_text(options@, ids@[k]),
                votes_count: option_votes(options@, ids@[k]),
            }),
{
    let mut r: Vec<OptionModel> = Vec::new();
    let n = ids.len();
    for k in 0..n
        invariant
            n == ids@.len(),
            r@.len() == k,
            forall|a: int, b: int| 0 <= a < b < options@.len() ==> options@[a].id != options@[b].id,
            forall|j: int| 0 <= j < ids@.len() ==> has_option(options@, #[trigger] ids@[j]),
            forall|j: int|
                0 <= j < k ==> (#[trigger] r@[j])@ == (OptionState {
                    id: ids@[j],
                    text: option_text(options@, ids@[j]),
                    votes_count: option_votes(options@, ids@[j]),
                }),
    {
        match options.find(ids[k]) {
            None => {
                proof {
                    assert(false);
                }
            },
            Some(m) => {
                proof {
                    lemma_option_index_of(options@, ids@[k as int], m as int);
                }
                let rec = OptionModel {
                    _id: options.collection[m]._id,
                    text: options.collection[m].text.clone(),
                    votes_count: options.collection[m].votes_count,
                };
                r.push(rec);
            },
        }
    }
    r
}

/// Whether `x` occurs among the strings, compared by contents.
pub fn contains_str(v: &Vec<String>, x: &String) -> (r: bool)
    ensures
        r == Seq::new(v@.len(), |k: int| v@[k]@).contains(x@),
{
    let ghost vs = Seq::new(v@.len(), |k: int| v@[k]@);
    let n = v.len();
    for i in 0..n
        invariant
            n == v.len(),
            vs == Seq::new(v@.len(), |k: int| v@[k]@),
            forall|j: int| 0 <= j < i ==> vs[j] != x@,
    {
        if v[i] == *x {
            proof {
                assert(vs[i as int] == x@);
            }
            return true;
        }
    }
    false
}

/// One poll record: title, owner, the ids of its options, the open
/// flag, the recorded voters, and timestamps.
pub struct Poll {
    pub id: String,
    pub title: String,
    pub owner_id: String,
    pub options: Vec<u64>,
    pub is_open: bool,
    pub voters: Vec<String>,
    pub created_at: i64,
    pub updated_at: i64,
}

impl View for Poll {
    type V = PollState;

    open spec fn view(&self) -> PollState {
        PollState {
            id: self.id@,
            title: self.title@,
            owner_id: self.owner_id@,
            options: self.options@,
            is_open: self.is_open,
            voters: Seq::new(self.voters@.len(), |k: int| self.voters@[k]@),
            created_at: self.created_at as int,
            updated_at: self.updated_at as int,
        }
    }
}

/// All poll ids in the collection differ.
pub open spec fn poll_ids_unique(polls: Seq<PollState>) -> bool {
    forall|a: int, b: int| 0 <= a < b < polls.len() ==> polls[a].id != polls[b].id
}

/// The collection of poll records.
pub struct PollRepo {
    pub collection: Vec<Poll>,
}

impl View for PollRepo {
    type V = Seq<PollState>;

    open spec fn view(&self) -> Seq<PollState> {
        Seq::new(self.collection@.len(), |i: int| self.collection@[i]@)
    }
}

impl PollRepo {
    /// An empty poll store.
    pub fn init() -> (r: PollRepo)
        ensures
            r@ == Seq::<PollState>::empty(),
    {
        let r = PollRepo { collection: Vec::new() };
        proof {
            assert(r@ =~= Seq::<PollState>::empty());
        }
        r
    }

    /// Index of the poll with the given id, if any.
    pub(crate) fn find(&self, poll_id: &String) -> (r: Option<usize>)
        ensures
            match r {
                Some(i) => 0 <= i < self@.len() && self@[i as int].id == poll_id@,
                None => !has_poll(self@, poll_id@),
            },
    {
        let n = self.collection.len();
        for i in 0..n
            invariant
                n == self.collection.len(),
                forall|j: int| 0 <= j < i ==> self@[j].id != poll_id@,
        {
            if self.collection[i].id == *poll_id {
                return Some(i);
            }
        }
        None
    }

    /// Fetch the poll expanded with its option records, with `has_voted`
    /// true when `username` is empty (anonymous callers see no vote
    /// form) or already recorded. A pure read.
    pub fn get(&self, poll_id: &str, username: &str, options: &OptionRepo) -> (r: PollResponse)
        requires
            store_wf(store_of(self@, options@, options.next_id as int)),
        ensures
            r@ == get_spec(store_of(self@, options@, options.next_id as int), poll_id@, username@),
            r.poll is Some <==> has_poll(self@, poll_id@),
    {
        let ghost s = store_of(self@, options@, options.next_id as int);
        let pid = poll_id.to_owned();
        match self.find(&pid) {
            None => PollResponse { poll: None, has_voted: false },
            Some(i) => {
                proof {
                    lemma_poll_index_of(self@, pid@, i as int);
                }
                let ghost p = s.polls[i as int];
                proof {
                    assert(forall|k: int| 0 <= k < p.options.len() ==> has_option(
                        s.options,
                        #[trigger] s.polls[i as int].options[k],
                    ));
                }
                let expanded = expand_options(&self.collection[i].options, options);
                let uid = username.to_owned();
                let has_voted = username.is_empty() || contains_str(
                    &self.collection[i].voters,
                    &uid,
                );
                let resp = GetPollResponse {
                    id: self.collection[i].id.clone(),
                    title: self.collection[i].title.clone(),
                    owner_id: self.collection[i].owner_id.clone(),
                    options: expanded,
                    total_votes: self.collection[i].voters.len() as u64,
                    is_open: self.collection[i].is_open,
                    voters: copy_strings(&self.collection[i].voters),
                    created_at: self.collection[i].created_at,
                    updated_at: self.collection[i].updated_at,
                };
                proof {
                    assert(resp@.options =~= expand_spec(s.options, p).options);
                    assert(resp@.voters =~= expand_spec(s.options, p).voters);
                    assert(resp@ == expand_spec(s.options, p));
                }
                PollResponse { poll: Some(resp), has_voted }
            },
        }
    }

    /// The results projection: per option its text and count, and the
    /// total over all of the poll's options; `None` when the poll is
    /// absent. The listed counts provably sum to the total.
    pub fn get_poll_results(&self, options: &OptionRepo, poll_id: &str) -> (r: Option<PollResults>)
        requires
            store_wf(store_of(self@, options@, options.next_id as int)),
        ensures
            ({
                let rs = results_spec(store_of(self@, options@, options.next_id as int), poll_id@);
                &&& (r is Some <==> has_poll(self@, poll_id@))
                &&& (r matches Some(pr) ==> rs == Some(pr@))
                &&& (r matches Some(pr) ==> results_sum(pr@.options) == pr@.total_votes)
            }),
    {
        let ghost s = store_of(self@, options@, options.next_id as int);
        let pid = poll_id.to_owned();
        match self.find(&pid) {
            None => None,
            Some(i) => {
                proof {
                    lemma_poll_index_of(self@, pid@, i as int);
                }
                let ghost p = s.polls[i as int];
                let nvoters = self.collection[i].voters.len();
                let ids = copy_ids(&self.collection[i].options);
                let n = ids.len();
                let mut opts_out: Vec<PollOptionResult> = Vec::new();
                let mut total: u64 = 0;
                proof {
                    assert(ids@.take(0) =~= Seq::<u64>::empty());
                }
                for k in 0..n
                    invariant
                        n == ids@.len(),
                        ids@ == p.options,
                        s == store_of(self@, options@, options.next_id as int),
                        store_wf(s),
                        0 <= i < s.polls.len(),
                        p == s.polls[i as int],
                        p.voters.len() == nvoters,
                        total as nat == total_votes_of(s.options, ids@.take(k as int)),
                        opts_out@.len() == k,
                        forall|j: int|
                            0 <= j < k ==> (#[trigger] opts_out@[j])@ == (OptionResultState {
                                text: option_text(s.options, ids@[j]),
                                votes_count: option_votes(s.options, ids@[j]),
                            }),
                {
                    proof {
                        assert(has_option(s.options, s.polls[i as int].options[k as int]));
                    }
                    match options.find(ids[k]) {
                        None => {
                            proof {
                                assert(false);
                            }
                        },
                        Some(m) => {
                            proof {
                                lemma_option_index_of(options@, ids@[k as int], m as int);
                                lemma_total_take_step(s.options, ids@, k as int);
                                lemma_total_take_le(s.options, ids@, k + 1);
                                assert(total_votes_of(s.options, ids@) == p.voters.len());
                            }
                            total = total + options.collection[m].votes_count;
                            opts_out.push(
                                PollOptionResult {
                                    text: options.collection[m].text.clone(),
                                    votes_count: options.collection[m].votes_count,
                                },
                            );
                        },
                    }
                }
                proof {
                    assert(ids@.take(n as int) =~= ids@);
                    lemma_results_sum(s.options, p.options);
                }
                let pr = PollResults {
                    id: self.collection[i].id.clone(),
                    title: self.collection[i].title.clone(),
                    total_votes: total,
                    options: opts_out,
                };
                proof {
                    let rs = results_spec(s, pid@);
                    assert(pr@.options =~= rs->Some_0.options);
                    assert(pr@ == rs->Some_0);
                }
                Some(pr)
            },
        }
    }

    /// How many polls are open.
    pub fn count_live_polls(&self) -> (r: u64)
        ensures
            r as int == count_open(self@, true),
    {
        self.count_by_flag(true)
    }

    /// How many polls are closed.
    pub fn count_closed_polls(&self) -> (r: u64)
        ensures
            r as int == count_open(self@, false),
    {
        self.count_by_flag(false)
    }

    /// How many polls have the given open flag.
    fn count_by_flag(&self, flag: bool) -> (r: u64)
        ensures
            r as int == count_open(self@, flag),
    {
        let mut total: u64 = 0;
        let n = self.collection.len();
        proof {
            assert(self@.take(0) =~= Seq::<PollState>::empty());
        }
        for i in 0..n
            invariant
                n == self.collection.len(),
                total as int == count_open(self@.take(i as int), flag),
                total <= i,
        {
            proof {
                assert(self@.take(i + 1 as int).drop_last() =~= self@.take(i as int));
                assert(self@.take(i + 1 as int).last() == self@[i as int]);
            }
            if self.collection[i].is_open == flag {
                total = total + 1;
            }
        }
        proof {
            assert(self@.take(n as int) =~= self@);
        }
        total
    }

    /// How many polls the given owner holds.
    pub fn count_polls_by_username(&self, username: &str) -> (r: u64)
        ensures
            r as int == count_owned(self@, username@),
    {
        let uid = username.to_owned();
        let mut total: u64 = 0;
        let n = self.collection.len();
        proof {
            assert(self@.take(0) =~= Seq::<PollState>::empty());
        }
        for i in 0..n
            invariant
                n == self.collection.len(),
                total as int == count_owned(self@.take(i as int), uid@),
                uid@ == username@,
                total <= i,
        {
            proof {
                assert(self@.take(i + 1 as int).drop_last() =~= self@.take(i as int));
                assert(self@.take(i + 1 as int).last() == self@[i as int]);
            }
            if self.collection[i].owner_id == uid {
                total = total + 1;
            }
        }
        proof {
            assert(self@.take(n as int) =~= self@);
        }
        total
    }

    /// Whether `username` owns the poll. A pure read; a failed lookup
    /// counts as not owning (fail closed).
    pub fn is_owner(&self, poll_id: &str, username: &str) -> (r: bool)
        requires
            poll_ids_unique(self@),
        ensures
            r == is_owner_spec(self@, poll_id@, username@),
    {
        let pid = poll_id.to_owned();
        match self.find(&pid) {
            None => false,
            Some(i) => {
                proof {
                    lemma_poll_index_of(self@, pid@, i as int);
                }
                let uid = username.to_owned();
                self.collection[i].owner_id == uid
            },
        }
    }

    /// Close the poll: only the owner may; on success the poll is no
    /// longer open and nothing else changes.
    pub fn close_poll(&mut self, poll_id: &str, username: &str) -> (r: Result<(), PollError>)
        requires
            poll_ids_unique(old(self)@),
        ensures
            (final(self)@, r) == close_spec(old(self)@, poll_id@, username@),
            !is_owner_spec(old(self)@, poll_id@, username@) ==> r == Err::<(), PollError>(
                PollError::NotOwner,
            ) && final(self)@ == old(self)@,
    {
        let pid = poll_id.to_owned();
        let uid = username.to_owned();
        let found = self.find(&pid);
        match found {
            None => Err(PollError::NotOwner),
            Some(i) => {
                proof {
                    lemma_poll_index_of(self@, pid@, i as int);
                }
                if self.collection[i].owner_id == uid {
                    let ghost prior = self@;
                    let mut p = self.collection.remove(i);
                    p.is_open = false;
                    let ghost p2 = p@;
                    self.collection.insert(i, p);
                    proof {
                        assert(self@ =~= prior.update(i as int, p2));
                    }
                    Ok(())
                } else {
                    Err(PollError::NotOwner)
                }
            },
        }
    }

    /// Cast a vote: the checks of the engine's vote sequence, in order
    /// (present, open, option belongs to the poll, voter not yet
    /// recorded), and on acceptance the voter is recorded and the chosen
    /// option's count raised by one, as one atomic unit. A closed poll
    /// rejects every vote with `Closed`, whatever else holds.
    pub fn add_vote(
        &mut self,
        poll_id: &str,
        username: String,
        option_id: u64,
        options: &mut OptionRepo,
    ) -> (r: VoteOutcome)
        requires
            store_wf(store_of(old(self)@, old(options)@, old(options).next_id as int)),
        ensures
            ({
                let s = store_of(old(self)@, old(options)@, old(options).next_id as int);
                let (s2, out) = vote_spec(s, poll_id@, username@, option_id);
                &&& final(self)@ == s2.polls
                &&& final(options)@ == s2.options
                &&& final(options).next_id == old(options).next_id
                &&& r == out
                &&& store_wf(s2)
            }),
            has_poll(old(self)@, poll_id@) && !poll_state(old(self)@, poll_id@).is_open
                ==> r == VoteOutcome::Rejected(VoteReason::Closed) && final(self)@ == old(self)@
                && final(options)@ == old(options)@,
    {
        let ghost s = store_of(self@, options@, options.next_id as int);
        proof {
            lemma_vote_preserves_wf(s, poll_id@, username@, option_id);
        }
        let pid = poll_id.to_owned();
        let found = self.find(&pid);
        match found {
            None => VoteOutcome::NotFound,
            Some(i) => {
                proof {
                    lemma_poll_index_of(self@, pid@, i as int);
                }
                if !self.collection[i].is_open {
                    return VoteOutcome::Rejected(VoteReason::Closed);
                }
                if !contains_id(&self.collection[i].options, option_id) {
                    return VoteOutcome::Rejected(VoteReason::InvalidOption);
                }
                if contains_str(&self.collection[i].voters, &username) {
                    return VoteOutcome::Rejected(VoteReason::AlreadyVoted);
                }
                let ghost prior = self@;
                let ghost p2 = PollState {
                    voters: s.polls[i as int].voters.push(username@),
                    ..s.polls[i as int]
                };
                let mut p = self.collection.remove(i);
                p.voters.push(username);
                let new_len = p.voters.len();
                proof {
                    assert(p@ =~= p2);
                }
                self.collection.insert(i, p);
                proof {
                    assert(self@ =~= prior.update(i as int, p2));
                }
                let found_opt = options.find(option_id);
                match found_opt {
                    None => {
                        proof {
                            let w = choose|w: int|
                                0 <= w < s.polls[i as int].options.len()
                                    && s.polls[i as int].options[w] == option_id;
                            assert(crate::model::has_option(
                                s.options,
                                s.polls[i as int].options[w],
                            ));
                            assert(false);
                        }
                        VoteOutcome::NotFound
                    },
                    Some(k) => {
                        proof {
                            lemma_option_index_of(options@, option_id, k as int);
                            let w = choose|w: int|
                                0 <= w < s.polls[i as int].options.len()
                                    && s.polls[i as int].options[w] == option_id;
                            lemma_total_member_le(s.options, s.polls[i as int].options, w);
                            assert(option_id == s.polls[i as int].options[w]);
                            assert(crate::model::option_votes(s.options, option_id)
                                <= s.polls[i as int].voters.len());
                            assert(s.polls[i as int].voters.len() == new_len - 1);
                        }
                        let ghost oprior = options@;
                        let ghost o2 = OptionState {
                            votes_count: s.options[k as int].votes_count + 1,
                            ..s.options[k as int]
                        };
                        let mut o = options.collection.remove(k);
                        o.votes_count = o.votes_count + 1;
                        proof {
                            assert(o@ =~= o2);
                        }
                        options.collection.insert(k, o);
                        proof {
                            assert(options@ =~= oprior.update(k as int, o2));
                        }
                        VoteOutcome::Accepted
                    },
                }
            },
        }
    }

    /// Reset the poll: only the owner may; every owned option's count
    /// goes to zero, the voter set is cleared, and the poll reopens, as
    /// one atomic unit.
    pub fn reset_poll(
        &mut self,
        poll_id: &str,
        options: &mut OptionRepo,
        username: &str,
    ) -> (r: Result<(), PollError>)
        requires
            store_wf(store_of(old(self)@, old(options)@, old(options).next_id as int)),
        ensures
            ({
                let s = store_of(old(self)@, old(options)@, old(options).next_id as int);
                let (s2, res) = crate::model::reset_spec(s, poll_id@, username@);
                &&& final(self)@ == s2.polls
                &&& final(options)@ == s2.options
                &&& final(options).next_id == old(options).next_id
                &&& r == res
                &&& store_wf(s2)
            }),
            !is_owner_spec(old(self)@, poll_id@, username@) ==> r == Err::<(), PollError>(
                PollError::NotOwner,
            ) && final(self)@ == old(self)@ && final(options)@ == old(options)@,
    {
        let ghost s = store_of(self@, options@, options.next_id as int);
        proof {
            crate::model::lemma_reset_preserves_wf(s, poll_id@, username@);
        }
        let pid = poll_id.to_owned();
        let uid = username.to_owned();
        let found = self.find(&pid);
        match found {
            None => Err(PollError::NotOwner),
            Some(i) => {
                proof {
                    lemma_poll_index_of(self@, pid@, i as int);
                }
                if !(self.collection[i].owner_id == uid) {
                    return Err(PollError::NotOwner);
                }
                let ghost p = s.polls[i as int];
                // zero the counts of every option the poll owns
                let ids = copy_ids(&self.collection[i].options);
                let ghost oprior = options@;
                let n = options.collection.len();
                for k in 0..n
                    invariant
                        n == options.collection.len(),
                        options@.len() == oprior.len(),
                        options.next_id == old(options).next_id,
                        ids@ == p.options,
                        forall|m: int|
                            0 <= m < k ==> #[trigger] options@[m] == (
                            if p.options.contains(oprior[m].id) {
                                OptionState { votes_count: 0, ..oprior[m] }
                            } else {
                                oprior[m]
                            }),
                        forall|m: int| k <= m < oprior.len() ==> #[trigger] options@[m] == oprior[m],
                {
                    if contains_id(&ids, options.collection[k]._id) {
                        let ghost before = options@;
                        let mut o = options.collection.remove(k);
                        o.votes_count = 0;
                        let ghost o2 = o@;
                        options.collection.insert(k, o);
                        proof {
                            assert(options@ =~= before.update(k as int, o2));
                            assert(before[k as int] == oprior[k as int]);
                            assert(o2.votes_count == 0);
                            assert(o2.id == oprior[k as int].id);
                            assert(o2.text == oprior[k as int].text);
                            assert(o2 == OptionState { votes_count: 0, ..oprior[k as int] });
                        }
                    }
                }
                proof {
                    assert(options@ =~= oprior.map(
                        |m: int, o: OptionState|
                            if p.options.contains(o.id) {
                                OptionState { votes_count: 0, ..o }
                            } else {
                                o
                            },
                    ));
                }
                // clear the voters and reopen
                let ghost prior = self@;
                let mut rec = self.collection.remove(i);
                rec.voters = Vec::new();
                rec.is_open = true;
                let ghost p2 = PollState { is_open: true, voters: Seq::<Seq<char>>::empty(), ..p };
                proof {
                    assert(rec@ =~= p2);
                }
                self.collection.insert(i, rec);
                proof {
                    assert(self@ =~= prior.update(i as int, p2));
                }
                Ok(())
            },
        }
    }

    /// Delete the poll record: only the owner may; option cleanup is
    /// deferred and never blocks the removal.
    pub fn delete(&mut self, poll_id: &str, username: &str) -> (r: Result<(), PollError>)
        requires
            poll_ids_unique(old(self)@),
        ensures
            (final(self)@, r) == delete_spec(old(self)@, poll_id@, username@),
            !is_owner_spec(old(self)@, poll_id@, username@) ==> r == Err::<(), PollError>(
                PollError::NotOwner,
            ) && final(self)@ == old(self)@,
    {
        let pid = poll_id.to_owned();
        let uid = username.to_owned();
        let found = self.find(&pid);
        match found {
            None => Err(PollError::NotOwner),
            Some(i) => {
                proof {
                    lemma_poll_index_of(self@, pid@, i as int);
                }
                if self.collection[i].owner_id == uid {
                    let ghost prior = self@;
                    let _ = self.collection.remove(i);
                    proof {
                        assert(self@ =~= prior.remove(i as int));
                    }
                    Ok(())
                } else {
                    Err(PollError::NotOwner)
                }
            },
        }
    }
}

} // verus!
