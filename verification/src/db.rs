//! The store both repositories make together.

use vstd::prelude::*;

use crate::model::{empty_store, store_of, store_wf, StoreState};
use crate::options_repo::OptionRepo;
use crate::polls_repo::PollRepo;

verus! {

/// The whole store: the poll records and the option records, mutated
/// only through the engine's operations, which keep `store_wf`.
pub struct DB {
    pub polls: PollRepo,
    pub options: OptionRepo,
}

impl View for DB {
    type V = StoreState;

    open spec fn view(&self) -> StoreState {
        store_of(self.polls@, self.options@, self.options.next_id as int)
    }
}

impl DB {
    /// An empty store; it satisfies the store invariant.
    pub fn init() -> (r: DB)
        ensures
            r@ == empty_store(),
            store_wf(r@),
    {
        let r = DB { polls: PollRepo::init(), options: OptionRepo::init() };
        proof {
            assert(r@.polls =~= empty_store().polls);
            assert(r@.options =~= empty_store().options);
            assert(r@ == empty_store());
        }
        r
    }
}

} // verus!
