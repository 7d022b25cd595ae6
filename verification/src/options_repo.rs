//! The option store: one record per selectable choice of a poll.

use vstd::prelude::*;

use crate::model::OptionState;

verus! {

/// One option record: its id, its text, and how many votes it holds.
pub struct OptionModel {
    pub _id: u64,
    pub text: String,
    pub votes_count: u64,
}

impl View for OptionModel {
    type V = OptionState;

    open spec fn view(&self) -> OptionState {
        OptionState { id: self._id, text: self.text@, votes_count: self.votes_count as nat }
    }
}

impl OptionModel {
    /// A copy whose abstract value equals this record's.
    pub fn duplicate(&self) -> (r: OptionModel)
        ensures
            r@ == self@,
    {
        OptionModel { _id: self._id, text: self.text.clone(), votes_count: self.votes_count }
    }
}

/// The collection of option records, together with the next id to hand
/// out; ids are allocated in increasing order and never reused.
pub struct OptionRepo {
    pub collection: Vec<OptionModel>,
    pub next_id: u64,
}

impl View for OptionRepo {
    type V = Seq<OptionState>;

    open spec fn view(&self) -> Seq<OptionState> {
        Seq::new(self.collection@.len(), |k: int| self.collection@[k]@)
    }
}

impl OptionRepo {
    /// An empty option store.
    pub fn init() -> (r: OptionRepo)
        ensures
            r@ == Seq::<OptionState>::empty(),
            r.next_id == 0,
    {
        let r = OptionRepo { collection: Vec::new(), next_id: 0 };
        proof {
            assert(r@ =~= Seq::<OptionState>::empty());
        }
        r
    }

    /// Index of the option record with id `oid`, if any.
    pub fn find(&self, oid: u64) -> (r: Option<usize>)
        ensures
            match r {
                Some(k) => 0 <= k < self@.len() && self@[k as int].id == oid,
                None => !crate::model::has_option(self@, oid),
            },
    {
        let n = self.collection.len();
        for k in 0..n
            invariant
                n == self.collection.len(),
                forall|j: int| 0 <= j < k ==> self@[j].id != oid,
        {
            if self.collection[k]._id == oid {
                return Some(k);
            }
        }
        None
    }
}

} // verus!
