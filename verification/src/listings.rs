//! Listing queries: open polls, closed polls, and one owner's polls,
//! each expanded, ordered by a chosen key, and paginated.
//!
//! The order is pinned exactly: the result is a page of `sort_spec`, a
//! deterministic insertion sort by the chosen key, and `sort_spec` is
//! proved to order its output (`lemma_sort_spec_sorted`).

use vstd::prelude::*;

use vstd::relations::sorted_by;

use crate::model::{
    expand_spec, has_option, store_of, store_wf, GetPollState, PollState, StoreState,
};
use crate::options_repo::OptionRepo;
use crate::poll_api_model::GetPollResponse;
use crate::polls_repo::{copy_strings, expand_options, Poll, PollRepo};

verus! {

/// The keys a listing can be ordered by.
#[derive(Clone, Copy, Debug, PartialEq, Eq, Structural)]
pub enum SortKey {
    Votes,
    CreatedAt,
    UpdatedAt,
    Title,
}

/// Lexicographic order on texts, by code point; a prefix comes first.
pub open spec fn lex_le(a: Seq<char>, b: Seq<char>) -> bool
    decreases a.len(),
{
    if a.len() == 0 {
        true
    } else if b.len() == 0 {
        false
    } else if (a[0] as u32) < (b[0] as u32) {
        true
    } else if (a[0] as u32) > (b[0] as u32) {
        false
    } else {
        lex_le(a.skip(1), b.skip(1))
    }
}

/// Any two texts are comparable.
pub proof fn lemma_lex_le_total(a: Seq<char>, b: Seq<char>)
    ensures
        lex_le(a, b) || lex_le(b, a),
    decreases a.len(),
{
    if a.len() > 0 && b.len() > 0 && (a[0] as u32) == (b[0] as u32) {
        lemma_lex_le_total(a.skip(1), b.skip(1));
    }
}

/// The order chains.
pub proof fn lemma_lex_le_trans(a: Seq<char>, b: Seq<char>, c: Seq<char>)
    requires
        lex_le(a, b),
        lex_le(b, c),
    ensures
        lex_le(a, c),
    decreases a.len(),
{
    if a.len() > 0 && b.len() > 0 && c.len() > 0 && (a[0] as u32) == (b[0] as u32) && (b[0] as u32)
        == (c[0] as u32) {
        lemma_lex_le_trans(a.skip(1), b.skip(1), c.skip(1));
    }
}

/// The base order under a key, ascending.
pub open spec fn key_le(key: SortKey, x: GetPollState, y: GetPollState) -> bool {
    match key {
        SortKey::Votes => x.total_votes <= y.total_votes,
        SortKey::CreatedAt => x.created_at <= y.created_at,
        SortKey::UpdatedAt => x.updated_at <= y.updated_at,
        SortKey::Title => lex_le(x.title, y.title),
    }
}

/// The listing order: the key's order when ascending, its reverse when
/// descending.
pub open spec fn listing_le(key: SortKey, asc: bool, x: GetPollState, y: GetPollState) -> bool {
    if asc {
        key_le(key, x, y)
    } else {
        key_le(key, y, x)
    }
}

pub proof fn lemma_listing_le_total(key: SortKey, asc: bool, x: GetPollState, y: GetPollState)
    ensures
        listing_le(key, asc, x, y) || listing_le(key, asc, y, x),
{
    if key == SortKey::Title {
        lemma_lex_le_total(x.title, y.title);
    }
}

pub proof fn lemma_listing_le_trans(
    key: SortKey,
    asc: bool,
    x: GetPollState,
    y: GetPollState,
    z: GetPollState,
)
    requires
        listing_le(key, asc, x, y),
        listing_le(key, asc, y, z),
    ensures
        listing_le(key, asc, x, z),
{
    if key == SortKey::Title {
        if asc {
            lemma_lex_le_trans(x.title, y.title, z.title);
        } else {
            lemma_lex_le_trans(z.title, y.title, x.title);
        }
    }
}

/// Where an insertion sort puts `x` into `s`: before the first element
/// that does not come at or before `x`.
pub open spec fn insert_pos(key: SortKey, asc: bool, s: Seq<GetPollState>, x: GetPollState) -> int
    decreases s.len(),
{
    if s.len() == 0 {
        0
    } else if !listing_le(key, asc, s[0], x) {
        0
    } else {
        1 + insert_pos(key, asc, s.skip(1), x)
    }
}

/// One insertion step.
pub open spec fn sort_insert(
    key: SortKey,
    asc: bool,
    s: Seq<GetPollState>,
    x: GetPollState,
) -> Seq<GetPollState> {
    s.insert(insert_pos(key, asc, s, x), x)
}

/// Insertion sort, element by element from the front.
pub open spec fn sort_spec(key: SortKey, asc: bool, s: Seq<GetPollState>) -> Seq<GetPollState>
    decreases s.len(),
{
    if s.len() == 0 {
        Seq::empty()
    } else {
        sort_insert(key, asc, sort_spec(key, asc, s.drop_last()), s.last())
    }
}

/// The insertion position is in range, everything before it comes at or
/// before `x`, and the element at it (if any) does not.
pub proof fn lemma_insert_pos_props(key: SortKey, asc: bool, s: Seq<GetPollState>, x: GetPollState)
    ensures
        0 <= insert_pos(key, asc, s, x) <= s.len(),
        forall|m: int|
            0 <= m < insert_pos(key, asc, s, x) ==> listing_le(key, asc, #[trigger] s[m], x),
        insert_pos(key, asc, s, x) < s.len() ==> !listing_le(
            key,
            asc,
            s[insert_pos(key, asc, s, x)],
            x,
        ),
    decreases s.len(),
{
    if s.len() > 0 && listing_le(key, asc, s[0], x) {
        lemma_insert_pos_props(key, asc, s.skip(1), x);
        let p = insert_pos(key, asc, s, x);
        assert forall|m: int| 0 <= m < p implies listing_le(key, asc, #[trigger] s[m], x) by {
            if m > 0 {
                assert(listing_le(key, asc, s.skip(1)[m - 1], x));
            }
        }
    }
}

/// A scan that stops at the first element not at or before `x` finds
/// the insertion position.
pub proof fn lemma_insert_pos_of(
    key: SortKey,
    asc: bool,
    s: Seq<GetPollState>,
    x: GetPollState,
    p: int,
)
    requires
        0 <= p <= s.len(),
        forall|m: int| 0 <= m < p ==> listing_le(key, asc, #[trigger] s[m], x),
        p < s.len() ==> !listing_le(key, asc, s[p], x),
    ensures
        insert_pos(key, asc, s, x) == p,
    decreases s.len(),
{
    if s.len() > 0 && p > 0 {
        assert(listing_le(key, asc, s[0], x));
        assert(forall|m: int| 0 <= m < p - 1 ==> listing_le(key, asc, #[trigger] s.skip(1)[m], x));
        lemma_insert_pos_of(key, asc, s.skip(1), x, p - 1);
    }
}

/// Inserting at the insertion position keeps the sequence ordered.
pub proof fn lemma_sort_insert_sorted(
    key: SortKey,
    asc: bool,
    s: Seq<GetPollState>,
    x: GetPollState,
)
    requires
        sorted_by(s, |a: GetPollState, b: GetPollState| listing_le(key, asc, a, b)),
    ensures
        sorted_by(
            sort_insert(key, asc, s, x),
            |a: GetPollState, b: GetPollState| listing_le(key, asc, a, b),
        ),
{
    let le = |a: GetPollState, b: GetPollState| listing_le(key, asc, a, b);
    lemma_insert_pos_props(key, asc, s, x);
    let p = insert_pos(key, asc, s, x);
    let t = s.insert(p, x);
    assert forall|i: int, j: int| 0 <= i < j < t.len() implies #[trigger] le(t[i], t[j]) by {
        if i == p && j != p {
            // x against a later element: s[j - 1] sits at or after position p
            let orig = s[j - 1];
            if p < s.len() {
                lemma_listing_le_total(key, asc, s[p], x);
                if j - 1 > p {
                    assert(le(s[p], orig));
                    lemma_listing_le_trans(key, asc, x, s[p], orig);
                }
            }
        } else if j == p && i != p {
            assert(le(s[i], x));
        } else if i != p && j != p {
            let i0 = if i < p {
                i
            } else {
                i - 1
            };
            let j0 = if j < p {
                j
            } else {
                j - 1
            };
            assert(t[i] == s[i0] && t[j] == s[j0]);
        }
    }
}

/// The insertion sort orders its output under the listing order.
pub proof fn lemma_sort_spec_sorted(key: SortKey, asc: bool, s: Seq<GetPollState>)
    ensures
        sorted_by(
            sort_spec(key, asc, s),
            |a: GetPollState, b: GetPollState| listing_le(key, asc, a, b),
        ),
    decreases s.len(),
{
    if s.len() > 0 {
        lemma_sort_spec_sorted(key, asc, s.drop_last());
        lemma_sort_insert_sorted(key, asc, sort_spec(key, asc, s.drop_last()), s.last());
    }
}

/// A page of an ordered listing is ordered.
pub proof fn lemma_page_of_sorted(
    key: SortKey,
    asc: bool,
    s: Seq<GetPollState>,
    page: int,
    per_page: int,
)
    requires
        page >= 1,
        per_page >= 1,
        sorted_by(s, |a: GetPollState, b: GetPollState| listing_le(key, asc, a, b)),
    ensures
        sorted_by(
            page_slice(s, page, per_page),
            |a: GetPollState, b: GetPollState| listing_le(key, asc, a, b),
        ),
{
    let t = page_slice(s, page, per_page);
    let le = |a: GetPollState, b: GetPollState| listing_le(key, asc, a, b);
    let skip = (page - 1) * per_page;
    assert(skip >= 0) by (nonlinear_arith)
        requires
            page >= 1,
            per_page >= 1,
            skip == (page - 1) * per_page,
    ;
    let lo = if skip > s.len() {
        s.len() as int
    } else {
        skip
    };
    assert forall|i: int, j: int| 0 <= i < j < t.len() implies #[trigger] le(t[i], t[j]) by {
        assert(t[i] == s[lo + i]);
        assert(t[j] == s[lo + j]);
        assert(le(s[lo + i], s[lo + j]));
    }
}

/// The abstract values of a listing, in order.
pub open spec fn listing_views(s: Seq<GetPollResponse>) -> Seq<GetPollState> {
    Seq::new(s.len(), |k: int| s[k]@)
}

/// The expanded polls of `polls` whose open flag matches, in store
/// order.
pub open spec fn pool_by_flag(
    options: Seq<crate::model::OptionState>,
    polls: Seq<PollState>,
    flag: bool,
) -> Seq<GetPollState>
    decreases polls.len(),
{
    if polls.len() == 0 {
        Seq::empty()
    } else {
        let rest = pool_by_flag(options, polls.drop_last(), flag);
        if polls.last().is_open == flag {
            rest.push(expand_spec(options, polls.last()))
        } else {
            rest
        }
    }
}

/// The expanded polls of `polls` with the given owner, in store order.
pub open spec fn pool_by_owner(
    options: Seq<crate::model::OptionState>,
    polls: Seq<PollState>,
    owner: Seq<char>,
) -> Seq<GetPollState>
    decreases polls.len(),
{
    if polls.len() == 0 {
        Seq::empty()
    } else {
        let rest = pool_by_owner(options, polls.drop_last(), owner);
        if polls.last().owner_id == owner {
            rest.push(expand_spec(options, polls.last()))
        } else {
            rest
        }
    }
}

/// The page a one-based page number and a page size cut out of a
/// listing.
pub open spec fn page_slice(s: Seq<GetPollState>, page: int, per_page: int) -> Seq<GetPollState> {
    let skip = (page - 1) * per_page;
    let lo = if skip > s.len() {
        s.len() as int
    } else {
        skip
    };
    let hi = if skip + per_page > s.len() {
        s.len() as int
    } else {
        skip + per_page
    };
    s.subrange(lo, hi)
}

/// A page number below one counts as the first page.
pub open spec fn clamped_page(page: u64) -> int {
    if page == 0 {
        1
    } else {
        page as int
    }
}

/// A page size is kept between one and the listing's cap.
pub open spec fn clamped_per_page(per_page: u64, cap: int) -> int {
    if per_page == 0 {
        1
    } else if per_page > cap {
        cap
    } else {
        per_page as int
    }
}

/// The sort key a request names, with `created_at` for anything
/// unrecognized.
pub open spec fn key_of(sort_by: Seq<char>) -> SortKey {
    if sort_by == "votes"@ {
        SortKey::Votes
    } else if sort_by == "created_at"@ {
        SortKey::CreatedAt
    } else if sort_by == "updated_at"@ {
        SortKey::UpdatedAt
    } else if sort_by == "title"@ {
        SortKey::Title
    } else {
        SortKey::CreatedAt
    }
}

/// Ascending for a non-negative order on a recognized key; an
/// unrecognized key always lists newest first.
pub open spec fn order_of(sort_by: Seq<char>, sort_order: i8) -> bool {
    if sort_by == "votes"@ || sort_by == "created_at"@ || sort_by == "updated_at"@ || sort_by
        == "title"@ {
        sort_order >= 0
    } else {
        false
    }
}

/// Text equality of two string slices.
pub fn str_eq(a: &str, b: &str) -> (r: bool)
    ensures
        r == (a@ == b@),
{
    let x = a.to_owned();
    let y = b.to_owned();
    x == y
}

/// Lexicographic comparison, character by character.
#[verifier::loop_isolation(false)]
pub fn lex_le_exec(a: &str, b: &str) -> (r: bool)
    ensures
        r == lex_le(a@, b@),
{
    let an = a.unicode_len();
    let bn = b.unicode_len();
    let mut i: usize = 0;
    proof {
        assert(a@.skip(0) =~= a@);
        assert(b@.skip(0) =~= b@);
    }
    while i < an && i < bn
        invariant
            i <= an,
            i <= bn,
            lex_le(a@, b@) == lex_le(a@.skip(i as int), b@.skip(i as int)),
            lex_le(b@, a@) == lex_le(b@.skip(i as int), a@.skip(i as int)),
        decreases an - i,
    {
        let ca = a.get_char(i) as u32;
        let cb = b.get_char(i) as u32;
        if ca < cb {
            return true;
        }
        if ca > cb {
            return false;
        }
        proof {
            assert(a@.skip(i as int).skip(1) =~= a@.skip(i as int + 1));
            assert(b@.skip(i as int).skip(1) =~= b@.skip(i as int + 1));
        }
        i = i + 1;
    }
    an <= bn
}

/// Whether `x` comes at or before `y` under the key and direction.
pub fn listing_cmp(key: SortKey, asc: bool, x: &GetPollResponse, y: &GetPollResponse) -> (r: bool)
    ensures
        r == listing_le(key, asc, x@, y@),
{
    let (a, b) = if asc {
        (x, y)
    } else {
        (y, x)
    };
    match key {
        SortKey::Votes => a.total_votes <= b.total_votes,
        SortKey::CreatedAt => a.created_at <= b.created_at,
        SortKey::UpdatedAt => a.updated_at <= b.updated_at,
        SortKey::Title => lex_le_exec(a.title.as_str(), b.title.as_str()),
    }
}

/// Sort a listing in place by insertion, matching `sort_spec` exactly.
#[verifier::loop_isolation(false)]
#[verifier::rlimit(60)]
fn sort_listings(v: &mut Vec<GetPollResponse>, key: SortKey, asc: bool)
    ensures
        listing_views(final(v)@) == sort_spec(key, asc, listing_views(old(v)@)),
{
    let ghost ovs = listing_views(v@);
    let n = v.len();
    proof {
        assert(ovs.take(0) =~= Seq::<GetPollState>::empty());
        assert(listing_views(v@).take(0) =~= sort_spec(key, asc, ovs.take(0)));
    }
    for i in 0..n
        invariant
            v@.len() == n,
            listing_views(v@).take(i as int) == sort_spec(key, asc, ovs.take(i as int)),
            forall|m: int| i <= m < n ==> (#[trigger] v@[m])@ == ovs[m],
    {
        let ghost before = listing_views(v@);
        let ghost sorted_prefix = before.take(i as int);
        let x = v.remove(i);
        proof {
            assert(x@ == ovs[i as int]);
            assert(forall|m: int| 0 <= m < i ==> listing_views(v@)[m] == before[m]);
        }
        // scan for the insertion position in the sorted prefix
        let mut p: usize = 0;
        while p < i && listing_cmp(key, asc, &v[p], &x)
            invariant
                p <= i,
                i < n,
                v@.len() == n - 1,
                forall|m: int| 0 <= m < i ==> (#[trigger] v@[m])@ == sorted_prefix[m],
                forall|m: int| 0 <= m < p ==> listing_le(key, asc, #[trigger] sorted_prefix[m], x@),
            decreases i - p,
        {
            p = p + 1;
        }
        proof {
            lemma_insert_pos_of(key, asc, sorted_prefix, x@, p as int);
        }
        let ghost shifted = listing_views(v@);
        v.insert(p, x);
        proof {
            assert(listing_views(v@) =~= shifted.insert(p as int, x@));
            assert(listing_views(v@).take(i as int + 1) =~= sorted_prefix.insert(p as int, x@));
            assert(ovs.take(i as int + 1).drop_last() =~= ovs.take(i as int));
            assert(ovs.take(i as int + 1).last() == ovs[i as int]);
            assert(listing_views(v@).take(i as int + 1) == sort_spec(key, asc, ovs.take(i as int + 1)));
            assert forall|m: int| i + 1 <= m < n implies (#[trigger] v@[m])@ == ovs[m] by {
                assert(shifted[m - 1] == before[m]);
            }
        }
    }
    proof {
        assert(ovs.take(n as int) =~= ovs);
        assert(listing_views(v@).take(n as int) =~= listing_views(v@));
    }
}

/// Cut the requested page out of a listing, consuming it.
#[verifier::loop_isolation(false)]
fn paginate(v: Vec<GetPollResponse>, page: u64, per_page: usize) -> (r: Vec<GetPollResponse>)
    requires
        page >= 1,
        per_page >= 1,
    ensures
        listing_views(r@) == page_slice(listing_views(v@), page as int, per_page as int),
{
    let ghost gs = listing_views(v@);
    let mut v = v;
    let total = v.len();
    let lo: usize = match (page - 1).checked_mul(per_page as u64) {
        None => total,
        Some(sk) => {
            if sk >= total as u64 {
                total
            } else {
                sk as usize
            }
        },
    };
    let remaining = total - lo;
    let take_n: usize = if per_page < remaining {
        per_page
    } else {
        remaining
    };
    for j in 0..lo
        invariant
            lo <= total,
            v@.len() == total - j,
            forall|m: int| 0 <= m < v@.len() ==> (#[trigger] v@[m])@ == gs[j + m],
    {
        let ghost prev = v@;
        let _ = v.remove(0);
        proof {
            assert(forall|m: int| 0 <= m < v@.len() ==> v@[m] == prev[m + 1]);
        }
    }
    v.truncate(take_n);
    proof {
        assert(listing_views(v@) =~= page_slice(gs, page as int, per_page as int));
    }
    v
}

impl PollRepo {
    /// The polls with the given open flag, expanded, in store order.
    #[verifier::loop_isolation(false)]
    fn collect_by_flag(&self, options: &OptionRepo, flag: bool) -> (r: Vec<GetPollResponse>)
        requires
            store_wf(store_of(self@, options@, options.next_id as int)),
        ensures
            listing_views(r@) == pool_by_flag(options@, self@, flag),
    {
        let ghost s = store_of(self@, options@, options.next_id as int);
        let mut r: Vec<GetPollResponse> = Vec::new();
        let n = self.collection.len();
        proof {
            assert(self@.take(0) =~= Seq::<PollState>::empty());
            assert(listing_views(r@) =~= pool_by_flag(options@, self@.take(0), flag));
        }
        for i in 0..n
            invariant
                listing_views(r@) == pool_by_flag(options@, self@.take(i as int), flag),
        {
            proof {
                assert(self@.take(i as int + 1).drop_last() =~= self@.take(i as int));
                assert(self@.take(i as int + 1).last() == self@[i as int]);
            }
            if self.collection[i].is_open == flag {
                proof {
                    assert(forall|k: int|
                        0 <= k < self@[i as int].options.len() ==> has_option(
                            options@,
                            #[trigger] s.polls[i as int].options[k],
                        ));
                }
                let ghost before = listing_views(r@);
                let rec = expand_poll(&self.collection[i], options);
                r.push(rec);
                proof {
                    assert(listing_views(r@) =~= before.push(rec@));
                }
            }
        }
        proof {
            assert(self@.take(n as int) =~= self@);
        }
        r
    }

    /// The polls of the given owner, expanded, in store order.
    #[verifier::loop_isolation(false)]
    fn collect_by_owner(&self, options: &OptionRepo, owner: &String) -> (r: Vec<GetPollResponse>)
        requires
            store_wf(store_of(self@, options@, options.next_id as int)),
        ensures
            listing_views(r@) == pool_by_owner(options@, self@, owner@),
    {
        let ghost s = store_of(self@, options@, options.next_id as int);
        let mut r: Vec<GetPollResponse> = Vec::new();
        let n = self.collection.len();
        proof {
            assert(self@.take(0) =~= Seq::<PollState>::empty());
            assert(listing_views(r@) =~= pool_by_owner(options@, self@.take(0), owner@));
        }
        for i in 0..n
            invariant
                listing_views(r@) == pool_by_owner(options@, self@.take(i as int), owner@),
        {
            proof {
                assert(self@.take(i as int + 1).drop_last() =~= self@.take(i as int));
                assert(self@.take(i as int + 1).last() == self@[i as int]);
            }
            if self.collection[i].owner_id == *owner {
                proof {
                    assert(forall|k: int|
                        0 <= k < self@[i as int].options.len() ==> has_option(
                            options@,
                            #[trigger] s.polls[i as int].options[k],
                        ));
                }
                let ghost before = listing_views(r@);
                let rec = expand_poll(&self.collection[i], options);
                r.push(rec);
                proof {
                    assert(listing_views(r@) =~= before.push(rec@));
                }
            }
        }
        proof {
            assert(self@.take(n as int) =~= self@);
        }
        r
    }

    /// The requested page of the open polls, most voted first.
    pub fn get_live_polls(&self, options: &OptionRepo, page: u64, per_page: u64) -> (r: Vec<
        GetPollResponse,
    >)
        requires
            store_wf(store_of(self@, options@, options.next_id as int)),
        ensures
            listing_views(r@) == page_slice(
                sort_spec(SortKey::Votes, false, pool_by_flag(options@, self@, true)),
                clamped_page(page),
                clamped_per_page(per_page, 10),
            ),
            sorted_by(
                listing_views(r@),
                (|a: GetPollState, b: GetPollState| listing_le(SortKey::Votes, false, a, b)),
            ),
    {
        let mut pool = self.collect_by_flag(options, true);
        sort_listings(&mut pool, SortKey::Votes, false);
        proof {
            lemma_sort_spec_sorted(SortKey::Votes, false, pool_by_flag(options@, self@, true));
            lemma_page_of_sorted(
                SortKey::Votes,
                false,
                sort_spec(SortKey::Votes, false, pool_by_flag(options@, self@, true)),
                clamped_page(page),
                clamped_per_page(per_page, 10),
            );
        }
        let page1: u64 = if page == 0 {
            1
        } else {
            page
        };
        let pp: usize = if per_page == 0 {
            1
        } else if per_page > 10 {
            10
        } else {
            per_page as usize
        };
        paginate(pool, page1, pp)
    }

    /// The requested page of the closed polls, most voted first.
    pub fn get_closed_polls(&self, options: &OptionRepo, page: u64, per_page: u64) -> (r: Vec<
        GetPollResponse,
    >)
        requires
            store_wf(store_of(self@, options@, options.next_id as int)),
        ensures
            listing_views(r@) == page_slice(
                sort_spec(SortKey::Votes, false, pool_by_flag(options@, self@, false)),
                clamped_page(page),
                clamped_per_page(per_page, 100),
            ),
            sorted_by(
                listing_views(r@),
                (|a: GetPollState, b: GetPollState| listing_le(SortKey::Votes, false, a, b)),
            ),
    {
        let mut pool = self.collect_by_flag(options, false);
        sort_listings(&mut pool, SortKey::Votes, false);
        proof {
            lemma_sort_spec_sorted(SortKey::Votes, false, pool_by_flag(options@, self@, false));
            lemma_page_of_sorted(
                SortKey::Votes,
                false,
                sort_spec(SortKey::Votes, false, pool_by_flag(options@, self@, false)),
                clamped_page(page),
                clamped_per_page(per_page, 100),
            );
        }
        let page1: u64 = if page == 0 {
            1
        } else {
            page
        };
        let pp: usize = if per_page == 0 {
            1
        } else if per_page > 100 {
            100
        } else {
            per_page as usize
        };
        paginate(pool, page1, pp)
    }

    /// The requested page of one owner's polls, ordered by the named
    /// key and direction; an unrecognized key lists newest first.
    pub fn get_polls_by_username(
        &self,
        options: &OptionRepo,
        username: &str,
        page: u64,
        per_page: u64,
        sort_by: &str,
        sort_order: i8,
    ) -> (r: Vec<GetPollResponse>)
        requires
            store_wf(store_of(self@, options@, options.next_id as int)),
        ensures
            listing_views(r@) == page_slice(
                sort_spec(
                    key_of(sort_by@),
                    order_of(sort_by@, sort_order),
                    pool_by_owner(options@, self@, username@),
                ),
                clamped_page(page),
                clamped_per_page(per_page, 100),
            ),
            sorted_by(
                listing_views(r@),
                (|a: GetPollState, b: GetPollState| listing_le(
                    key_of(sort_by@),
                    order_of(sort_by@, sort_order),
                    a,
                    b,
                )),
            ),
    {
        let owner = username.to_owned();
        let mut pool = self.collect_by_owner(options, &owner);
        let is_votes = str_eq(sort_by, "votes");
        let is_created = str_eq(sort_by, "created_at");
        let is_updated = str_eq(sort_by, "updated_at");
        let is_title = str_eq(sort_by, "title");
        let key = if is_votes {
            SortKey::Votes
        } else if is_created {
            SortKey::CreatedAt
        } else if is_updated {
            SortKey::UpdatedAt
        } else if is_title {
            SortKey::Title
        } else {
            SortKey::CreatedAt
        };
        let asc = if is_votes || is_created || is_updated || is_title {
            sort_order >= 0
        } else {
            false
        };
        sort_listings(&mut pool, key, asc);
        proof {
            lemma_sort_spec_sorted(key, asc, pool_by_owner(options@, self@, username@));
            lemma_page_of_sorted(
                key,
                asc,
                sort_spec(key, asc, pool_by_owner(options@, self@, username@)),
                clamped_page(page),
                clamped_per_page(per_page, 100),
            );
        }
        let page1: u64 = if page == 0 {
            1
        } else {
            page
        };
        let pp: usize = if per_page == 0 {
            1
        } else if per_page > 100 {
            100
        } else {
            per_page as usize
        };
        paginate(pool, page1, pp)
    }
}

/// One poll expanded with its option records, copied out of the store.
fn expand_poll(p: &Poll, options: &OptionRepo) -> (r: GetPollResponse)
    requires
        forall|k: int| 0 <= k < p@.options.len() ==> has_option(options@, #[trigger] p@.options[k]),
        forall|a: int, b: int| 0 <= a < b < options@.len() ==> options@[a].id != options@[b].id,
    ensures
        r@ == expand_spec(options@, p@),
{
    let expanded = expand_options(&p.options, options);
    let r = GetPollResponse {
        id: p.id.clone(),
        title: p.title.clone(),
        owner_id: p.owner_id.clone(),
        options: expanded,
        total_votes: p.voters.len() as u64,
        is_open: p.is_open,
        voters: copy_strings(&p.voters),
        created_at: p.created_at,
        updated_at: p.updated_at,
    };
    proof {
        assert(r@.options =~= expand_spec(options@, p@).options);
        assert(r@.voters =~= expand_spec(options@, p@).voters);
        assert(r@ == expand_spec(options@, p@));
    }
    r
}

} // verus!
