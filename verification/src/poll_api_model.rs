//! The request and response shapes of the engine.

use vstd::prelude::*;

use crate::model::{
    GetPollState, OptionResultState, PollResponseState, ResultsState,
};
use crate::options_repo::OptionModel;

verus! {

/// Input of the create operation.
pub struct NewPollRequest {
    pub title: String,
    pub options: Vec<OptionRequest>,
    pub ownername: String,
}

/// One option text of a create request.
pub struct OptionRequest {
    pub text: String,
}

/// The option texts of a create request, in order.
pub open spec fn texts_of(req: NewPollRequest) -> Seq<Seq<char>> {
    Seq::new(req.options@.len(), |k: int| req.options@[k].text@)
}

/// One line of a results view: an option's text and its count. A
/// percentage display is `votes_count / total_votes * 100` (zero when
/// no votes are in), computed at the rendering edge from these
/// integers; the library keeps the exact counts.
pub struct PollOptionResult {
    pub text: String,
    pub votes_count: u64,
}

impl View for PollOptionResult {
    type V = OptionResultState;

    open spec fn view(&self) -> OptionResultState {
        OptionResultState { text: self.text@, votes_count: self.votes_count as nat }
    }
}

/// A poll's current tally: per option its text and count, and the total
/// over all options.
pub struct PollResults {
    pub id: String,
    pub title: String,
    pub total_votes: u64,
    pub options: Vec<PollOptionResult>,
}

impl View for PollResults {
    type V = ResultsState;

    open spec fn view(&self) -> ResultsState {
        ResultsState {
            id: self.id@,
            title: self.title@,
            total_votes: self.total_votes as nat,
            options: Seq::new(self.options@.len(), |k: int| self.options@[k]@),
        }
    }
}

impl PollResults {
    /// A copy whose abstract value equals this view's.
    pub fn duplicate(&self) -> (r: PollResults)
        ensures
            r@ == self@,
    {
        let mut options: Vec<PollOptionResult> = Vec::new();
        let n = self.options.len();
        for k in 0..n
            invariant
                n == self.options.len(),
                options@.len() == k,
                forall|j: int| 0 <= j < k ==> #[trigger] options@[j]@ == self.options@[j]@,
        {
            options.push(
                PollOptionResult {
                    text: self.options[k].text.clone(),
                    votes_count: self.options[k].votes_count,
                },
            );
        }
        let r = PollResults {
            id: self.id.clone(),
            title: self.title.clone(),
            total_votes: self.total_votes,
            options,
        };
        proof {
            assert(r@.options =~= self@.options);
            assert(r@ == self@);
        }
        r
    }
}

/// A poll expanded with its option records; `total_votes` counts the
/// recorded voters.
pub struct GetPollResponse {
    pub id: String,
    pub title: String,
    pub owner_id: String,
    pub options: Vec<OptionModel>,
    pub total_votes: u64,
    pub is_open: bool,
    pub voters: Vec<String>,
    pub created_at: i64,
    pub updated_at: i64,
}

impl View for GetPollResponse {
    type V = GetPollState;

    open spec fn view(&self) -> GetPollState {
        GetPollState {
            id: self.id@,
            title: self.title@,
            owner_id: self.owner_id@,
            options: Seq::new(self.options@.len(), |k: int| self.options@[k]@),
            total_votes: self.total_votes as nat,
            is_open: self.is_open,
            voters: Seq::new(self.voters@.len(), |k: int| self.voters@[k]@),
            created_at: self.created_at as int,
            updated_at: self.updated_at as int,
        }
    }
}

impl GetPollResponse {
    /// A copy whose abstract value equals this view's.
    pub fn duplicate(&self) -> (r: GetPollResponse)
        ensures
            r@ == self@,
    {
        let mut options: Vec<OptionModel> = Vec::new();
        let n = self.options.len();
        for k in 0..n
            invariant
                n == self.options.len(),
                options@.len() == k,
                forall|j: int| 0 <= j < k ==> #[trigger] options@[j]@ == self.options@[j]@,
        {
            options.push(self.options[k].duplicate());
        }
        let r = GetPollResponse {
            id: self.id.clone(),
            title: self.title.clone(),
            owner_id: self.owner_id.clone(),
            options,
            total_votes: self.total_votes,
            is_open: self.is_open,
            voters: crate::polls_repo::copy_strings(&self.voters),
            created_at: self.created_at,
            updated_at: self.updated_at,
        };
        proof {
            assert(r@.options =~= self@.options);
            assert(r@.voters =~= self@.voters);
            assert(r@ == self@);
        }
        r
    }
}

/// The get operation's response: the expanded poll when present, and
/// whether the requester has voted.
pub struct PollResponse {
    pub poll: Option<GetPollResponse>,
    pub has_voted: bool,
}

impl View for PollResponse {
    type V = PollResponseState;

    open spec fn view(&self) -> PollResponseState {
        PollResponseState {
            poll: match self.poll {
                Some(p) => Some(p@),
                None => None,
            },
            has_voted: self.has_voted,
        }
    }
}

impl PollResponse {
    /// A copy whose abstract value equals this view's.
    pub fn duplicate(&self) -> (r: PollResponse)
        ensures
            r@ == self@,
    {
        match &self.poll {
            Some(p) => PollResponse { poll: Some(p.duplicate()), has_voted: self.has_voted },
            None => PollResponse { poll: None, has_voted: self.has_voted },
        }
    }
}

} // verus!
