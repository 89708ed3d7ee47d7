//! The order in which accumulated totals appear in a report.

use crate::key::{key_at_or_before, key_le, lemma_key_le_total, lemma_key_le_transitive};
use crate::totals::{distinct_keys, entries_of, Totals};
use vstd::prelude::*;
use vstd::set_lib::{lemma_int_range, lemma_subset_equality, set_int_range};

verus! {

/// Possible printing orders of the accumulated totals.
#[derive(Copy, Clone, Debug, PartialEq, Eq, Structural)]
#[non_exhaustive]
pub enum PrintOrder {
    /// Order in which the activities were first started.
    Start,
    /// Reverse of the order in which the activities were first started.
    RevStart,
    /// Ascending activity name.
    Key,
    /// Descending activity name.
    RevKey,
    /// Increasing total duration.
    IncDuration,
    /// Decreasing total duration.
    DecDuration,
}

impl Default for PrintOrder {
    /// Totals are listed from the longest to the shortest by default.
    fn default() -> (order: Self)
        ensures
            order == PrintOrder::DecDuration,
    {
        PrintOrder::DecDuration
    }
}

/// As far as `order` compares two entries by what they hold, `a` may be
/// listed before `b`. The two orders by first start compare nothing, so every
/// pair of entries ties under them.
pub open spec fn ranks_le(order: PrintOrder, a: (Seq<char>, u128), b: (Seq<char>, u128)) -> bool {
    match order {
        PrintOrder::Start => true,
        PrintOrder::RevStart => true,
        PrintOrder::Key => key_le(a.0, b.0),
        PrintOrder::RevKey => key_le(b.0, a.0),
        PrintOrder::IncDuration => a.1 <= b.1,
        PrintOrder::DecDuration => b.1 <= a.1,
    }
}

/// The entry `a`, which stands at position `i` of the totals, is listed
/// before the entry `b`, which stands at position `j`. Entries that tie keep
/// the order of their positions, except under `RevStart`, which reverses it.
pub open spec fn precedes(
    order: PrintOrder,
    a: (Seq<char>, u128),
    i: int,
    b: (Seq<char>, u128),
    j: int,
) -> bool {
    if ranks_le(order, a, b) && ranks_le(order, b, a) {
        if order == PrintOrder::RevStart {
            j < i
        } else {
            i < j
        }
    } else {
        ranks_le(order, a, b)
    }
}

/// The entry at position `i` of `totals` is listed before the one at
/// position `j`.
pub open spec fn listed_before(order: PrintOrder, totals: Totals, i: int, j: int) -> bool {
    precedes(order, totals[i], i, totals[j], j)
}

/// `perm` holds each of the positions `0 .. n` once.
pub open spec fn is_permutation(perm: Seq<int>, n: int) -> bool {
    &&& perm.len() == n
    &&& forall|i: int| 0 <= i < n ==> 0 <= #[trigger] perm[i] < n
    &&& forall|i: int, j: int| 0 <= i < j < n ==> #[trigger] perm[i] != #[trigger] perm[j]
}

/// The positions that `perm` holds follow each other as `order` lists them.
pub open spec fn in_order(perm: Seq<int>, totals: Totals, order: PrintOrder) -> bool {
    forall|i: int, j: int|
        0 <= i < j < perm.len() ==> listed_before(order, totals, #[trigger] perm[i], #[trigger] perm[j])
}

/// `listing` holds the entries of `totals` in the order that `order` asks
/// for, and `perm` tells for each place of `listing` the position in `totals`
/// that its entry comes from.
pub open spec fn arranges(perm: Seq<int>, listing: Totals, totals: Totals, order: PrintOrder) -> bool {
    &&& is_permutation(perm, totals.len() as int)
    &&& listing.len() == totals.len()
    &&& forall|i: int| 0 <= i < listing.len() ==> #[trigger] listing[i] == totals[perm[i]]
    &&& in_order(perm, totals, order)
}

/// `listing` holds the entries of `totals`, each once, in the order that
/// `order` asks for.
pub open spec fn is_listing(listing: Totals, totals: Totals, order: PrintOrder) -> bool {
    exists|perm: Seq<int>| arranges(perm, listing, totals, order)
}

/// The entries of `totals` in the order that `order` asks for.
pub open spec fn listing_of(totals: Totals, order: PrintOrder) -> Totals {
    choose|listing: Totals| is_listing(listing, totals, order)
}

/// Every two entries are comparable under every order.
pub proof fn lemma_ranks_le_total(order: PrintOrder, a: (Seq<char>, u128), b: (Seq<char>, u128))
    ensures
        ranks_le(order, a, b) || ranks_le(order, b, a),
{
    lemma_key_le_total(a.0, b.0);
}

/// What an order compares, it compares transitively.
pub proof fn lemma_ranks_le_transitive(
    order: PrintOrder,
    a: (Seq<char>, u128),
    b: (Seq<char>, u128),
    c: (Seq<char>, u128),
)
    requires
        ranks_le(order, a, b),
        ranks_le(order, b, c),
    ensures
        ranks_le(order, a, c),
{
    if order == PrintOrder::Key {
        lemma_key_le_transitive(a.0, b.0, c.0);
    } else if order == PrintOrder::RevKey {
        lemma_key_le_transitive(c.0, b.0, a.0);
    }
}

/// Of two different positions one is listed before the other.
pub proof fn lemma_listed_before_connected(order: PrintOrder, totals: Totals, i: int, j: int)
    requires
        i != j,
    ensures
        listed_before(order, totals, i, j) || listed_before(order, totals, j, i),
{
    lemma_ranks_le_total(order, totals[i], totals[j]);
}

/// Being listed before is transitive.
pub proof fn lemma_listed_before_transitive(
    order: PrintOrder,
    totals: Totals,
    i: int,
    j: int,
    k: int,
)
    requires
        listed_before(order, totals, i, j),
        listed_before(order, totals, j, k),
    ensures
        listed_before(order, totals, i, k),
{
    let (a, b, c) = (totals[i], totals[j], totals[k]);
    lemma_ranks_le_transitive(order, a, b, c);
    if ranks_le(order, c, a) {
        lemma_ranks_le_transitive(order, c, a, b);
        lemma_ranks_le_transitive(order, b, c, a);
    }
}

/// A permutation of `0 .. n` holds each of these positions somewhere.
proof fn lemma_permutation_holds(perm: Seq<int>, n: int, x: int)
    requires
        is_permutation(perm, n),
        0 <= x < n,
    ensures
        exists|i: int| 0 <= i < n && perm[i] == x,
{
    let held = perm.to_set();
    let all = set_int_range(0, n);
    assert(perm.no_duplicates());
    perm.unique_seq_to_set();
    lemma_int_range(0, n);
    assert(held.subset_of(all)) by {
        assert forall|e: int| held.contains(e) implies all.contains(e) by {
            let i = choose|i: int| 0 <= i < perm.len() && perm[i] == e;
            assert(0 <= perm[i] < n);
        }
    }
    vstd::set_lib::lemma_set_subset_finite(all, held);
    lemma_subset_equality(held, all);
    assert(all.contains(x));
    assert(perm.contains(x));
}

/// The place in `q` of the position that `p` holds at place `i`.
spec fn place_in(p: Seq<int>, q: Seq<int>, i: int) -> int {
    choose|j: int| 0 <= j < q.len() && q[j] == p[i]
}

/// Two arrangements of the same totals under the same order hold, up to any
/// place, the same positions.
proof fn lemma_places_agree(
    p: Seq<int>,
    q: Seq<int>,
    a: Totals,
    b: Totals,
    totals: Totals,
    order: PrintOrder,
    i: int,
)
    requires
        arranges(p, a, totals, order),
        arranges(q, b, totals, order),
        0 <= i < totals.len(),
    ensures
        forall|k: int| 0 <= k <= i ==> k <= #[trigger] place_in(p, q, k),
        forall|k: int| 0 <= k <= i ==> #[trigger] place_in(q, p, k) >= k,
    decreases i,
{
    let n = totals.len() as int;
    if i > 0 {
        lemma_places_agree(p, q, a, b, totals, order, i - 1);
    }
    lemma_permutation_holds(q, n, p[i]);
    lemma_permutation_holds(p, n, q[i]);
    let j = place_in(p, q, i);
    let l = place_in(q, p, i);
    if i > 0 {
        lemma_permutation_holds(q, n, p[i - 1]);
        lemma_permutation_holds(p, n, q[i - 1]);
        let j0 = place_in(p, q, i - 1);
        let l0 = place_in(q, p, i - 1);
        // p[i - 1] is listed before p[i], so it stands before it in q too.
        assert(listed_before(order, totals, p[i - 1], p[i]));
        if j < j0 {
            assert(listed_before(order, totals, q[j], q[j0]));
        }
        assert(j != j0);
        assert(listed_before(order, totals, q[i - 1], q[i]));
        if l < l0 {
            assert(listed_before(order, totals, p[l], p[l0]));
        }
        assert(l != l0);
    }
}

/// The order of a listing leaves no choice: two listings of the same totals
/// under the same order are the same sequence.
pub proof fn lemma_listing_unique(a: Totals, b: Totals, totals: Totals, order: PrintOrder)
    requires
        is_listing(a, totals, order),
        is_listing(b, totals, order),
    ensures
        a == b,
{
    let p = choose|perm: Seq<int>| arranges(perm, a, totals, order);
    let q = choose|perm: Seq<int>| arranges(perm, b, totals, order);
    let n = totals.len() as int;
    assert forall|i: int| 0 <= i < n implies a[i] == b[i] by {
        lemma_places_agree(p, q, a, b, totals, order, n - 1);
        lemma_permutation_holds(q, n, p[i]);
        let j = place_in(p, q, i);
        assert(j >= i);
        if j > i {
            // q[i] stands in p at some place l >= i, and l != i since p[i] != q[i].
            lemma_permutation_holds(p, n, q[i]);
            let l = place_in(q, p, i);
            assert(l >= i);
            assert(l != i);
            assert(listed_before(order, totals, p[i], p[l]));
            assert(listed_before(order, totals, q[i], q[j]));
        }
        assert(p[i] == q[i]);
    }
    assert(a =~= b);
}

/// Putting position `next` behind the last position that is listed before it
/// keeps the positions in order.
proof fn lemma_insert_in_order(
    perm: Seq<int>,
    totals: Totals,
    order: PrintOrder,
    next: int,
    at: int,
)
    requires
        0 <= next,
        is_permutation(perm, next),
        in_order(perm, totals, order),
        0 <= at <= next,
        forall|j: int| at <= j < next ==> listed_before(order, totals, next, #[trigger] perm[j]),
        at > 0 ==> !listed_before(order, totals, next, perm[at - 1]),
    ensures
        is_permutation(perm.insert(at, next), next + 1),
        in_order(perm.insert(at, next), totals, order),
{
    let moved = perm.insert(at, next);
    assert forall|i: int, j: int| 0 <= i < j < next + 1 implies listed_before(
        order,
        totals,
        #[trigger] moved[i],
        #[trigger] moved[j],
    ) by {
        if j == at {
            let e = at - 1;
            assert(0 <= perm[e] < next);
            lemma_listed_before_connected(order, totals, perm[e], next);
            if i < e {
                lemma_listed_before_transitive(order, totals, perm[i], perm[e], next);
            }
        } else if i == at {
            assert(moved[j] == perm[j - 1]);
        } else {
            let i0 = if i < at { i } else { i - 1 };
            let j0 = if j < at { j } else { j - 1 };
            assert(moved[i] == perm[i0]);
            assert(moved[j] == perm[j0]);
        }
    }
    assert forall|i: int| 0 <= i < next + 1 implies 0 <= #[trigger] moved[i] < next + 1 by {
        if i < at {
            assert(moved[i] == perm[i]);
        } else if i > at {
            assert(moved[i] == perm[i - 1]);
        }
    }
    assert forall|i: int, j: int| 0 <= i < j < next + 1 implies #[trigger] moved[i]
        != #[trigger] moved[j] by {
        let i0 = if i < at { i } else { i - 1 };
        let j0 = if j < at { j } else { j - 1 };
        if i != at && j != at {
            assert(moved[i] == perm[i0]);
            assert(moved[j] == perm[j0]);
        } else if i == at {
            assert(moved[j] == perm[j0]);
        } else {
            assert(moved[i] == perm[i0]);
        }
    }
}

/// Position `next` has a place among the positions before it that keeps them
/// in order.
proof fn lemma_place_exists(
    perm: Seq<int>,
    totals: Totals,
    order: PrintOrder,
    next: int,
    at: int,
) -> (place: int)
    requires
        0 <= next,
        is_permutation(perm, next),
        in_order(perm, totals, order),
        0 <= at <= next,
        forall|j: int| at <= j < next ==> listed_before(order, totals, next, #[trigger] perm[j]),
    ensures
        0 <= place <= next,
        is_permutation(perm.insert(place, next), next + 1),
        in_order(perm.insert(place, next), totals, order),
    decreases at,
{
    if at > 0 && listed_before(order, totals, next, perm[at - 1]) {
        lemma_place_exists(perm, totals, order, next, at - 1)
    } else {
        lemma_insert_in_order(perm, totals, order, next, at);
        at
    }
}

/// The first `count` positions of `totals` can be put in order.
proof fn lemma_order_exists(totals: Totals, order: PrintOrder, count: int) -> (perm: Seq<int>)
    requires
        0 <= count <= totals.len(),
    ensures
        is_permutation(perm, count),
        in_order(perm, totals, order),
    decreases count,
{
    if count == 0 {
        Seq::empty()
    } else {
        let perm = lemma_order_exists(totals, order, count - 1);
        let place = lemma_place_exists(perm, totals, order, count - 1, count - 1);
        perm.insert(place, count - 1)
    }
}

/// Every sequence of totals has a listing under every order, and
/// `listing_of` is that listing.
pub proof fn lemma_listing_of(totals: Totals, order: PrintOrder)
    ensures
        is_listing(listing_of(totals, order), totals, order),
{
    let perm = lemma_order_exists(totals, order, totals.len() as int);
    let listing = Seq::new(totals.len(), |i: int| totals[perm[i]]);
    assert(arranges(perm, listing, totals, order));
    assert(is_listing(listing, totals, order));
}

/// A listing of the totals is the listing of the totals.
pub proof fn lemma_listing_is(listing: Totals, totals: Totals, order: PrintOrder)
    requires
        is_listing(listing, totals, order),
    ensures
        listing == listing_of(totals, order),
{
    lemma_listing_unique(listing, listing_of(totals, order), totals, order);
}

/// A listing has an entry for each of the totals.
pub proof fn lemma_listing_len(totals: Totals, order: PrintOrder)
    ensures
        listing_of(totals, order).len() == totals.len(),
{
    lemma_listing_of(totals, order);
}

/// Every one of the totals stands somewhere in the listing.
pub proof fn lemma_listing_holds_each_total(totals: Totals, order: PrintOrder, k: int)
    requires
        0 <= k < totals.len(),
    ensures
        exists|i: int| 0 <= i < totals.len() && listing_of(totals, order)[i] == totals[k],
{
    lemma_listing_of(totals, order);
    let listing = listing_of(totals, order);
    let perm = choose|perm: Seq<int>| arranges(perm, listing, totals, order);
    lemma_permutation_holds(perm, totals.len() as int, k);
    let i = choose|i: int| 0 <= i < totals.len() && perm[i] == k;
    assert(listing[i] == totals[perm[i]]);
}

/// A listing goes by its order: of two of its entries, the one that stands
/// first may be listed first as far as the order compares them.
pub proof fn lemma_listing_ranked(totals: Totals, order: PrintOrder, i: int, j: int)
    requires
        0 <= i < j < totals.len(),
    ensures
        ranks_le(order, listing_of(totals, order)[i], listing_of(totals, order)[j]),
{
    lemma_listing_of(totals, order);
    let listing = listing_of(totals, order);
    let perm = choose|perm: Seq<int>| arranges(perm, listing, totals, order);
    assert(listed_before(order, totals, perm[i], perm[j]));
    assert(listing[i] == totals[perm[i]]);
    assert(listing[j] == totals[perm[j]]);
}

/// Entries that an order does not tell apart keep the order in which their
/// activities were first started, except under `RevStart`: the one that
/// stands first in the totals stands first in the listing.
pub proof fn lemma_ties_keep_start_order(totals: Totals, order: PrintOrder, i: int, j: int)
    requires
        0 <= i < j < totals.len(),
        order != PrintOrder::RevStart,
        ranks_le(order, totals[i], totals[j]),
        ranks_le(order, totals[j], totals[i]),
    ensures
        exists|a: int, b: int|
            0 <= a < b < totals.len() && listing_of(totals, order)[a] == totals[i] && listing_of(
                totals,
                order,
            )[b] == totals[j],
{
    lemma_listing_of(totals, order);
    let listing = listing_of(totals, order);
    let n = totals.len() as int;
    let perm = choose|perm: Seq<int>| arranges(perm, listing, totals, order);
    lemma_permutation_holds(perm, n, i);
    lemma_permutation_holds(perm, n, j);
    let a = choose|a: int| 0 <= a < n && perm[a] == i;
    let b = choose|b: int| 0 <= b < n && perm[b] == j;
    if b < a {
        assert(listed_before(order, totals, perm[b], perm[a]));
    }
    assert(listing[a] == totals[perm[a]]);
    assert(listing[b] == totals[perm[b]]);
}

/// Listed by name, activities with different names stand in strictly
/// ascending order of their names.
pub proof fn lemma_listing_by_key_ascends(totals: Totals, i: int, j: int)
    requires
        distinct_keys(totals),
        0 <= i < j < totals.len(),
    ensures
        key_le(listing_of(totals, PrintOrder::Key)[i].0, listing_of(totals, PrintOrder::Key)[j].0),
        listing_of(totals, PrintOrder::Key)[i].0 != listing_of(totals, PrintOrder::Key)[j].0,
{
    let order = PrintOrder::Key;
    lemma_listing_of(totals, order);
    lemma_listing_ranked(totals, order, i, j);
    let listing = listing_of(totals, order);
    let perm = choose|perm: Seq<int>| arranges(perm, listing, totals, order);
    assert(listing[i] == totals[perm[i]]);
    assert(listing[j] == totals[perm[j]]);
    assert(perm[i] != perm[j]);
    if perm[i] < perm[j] {
        assert(totals[perm[i]].0 != totals[perm[j]].0);
    } else {
        assert(totals[perm[j]].0 != totals[perm[i]].0);
    }
}

/// Listed by first start, the totals stand as they are.
pub proof fn lemma_listing_by_start(totals: Totals)
    ensures
        listing_of(totals, PrintOrder::Start) == totals,
{
    let perm = Seq::new(totals.len(), |i: int| i);
    assert(arranges(perm, totals, totals, PrintOrder::Start));
    lemma_listing_is(totals, totals, PrintOrder::Start);
}

/// Listed by last start, the totals stand in reverse.
pub proof fn lemma_listing_by_rev_start(totals: Totals)
    ensures
        listing_of(totals, PrintOrder::RevStart) == totals.reverse(),
{
    let n = totals.len() as int;
    let perm = Seq::new(totals.len(), |i: int| n - 1 - i);
    assert(arranges(perm, totals.reverse(), totals, PrintOrder::RevStart));
    lemma_listing_is(totals.reverse(), totals, PrintOrder::RevStart);
}

/// Whether the entry `a` may be listed before the entry `b`, as far as
/// `order` compares the two.
fn ranks_at_or_before(order: PrintOrder, a: &(&'static str, u128), b: &(&'static str, u128)) -> (le:
    bool)
    ensures
        le == ranks_le(order, (a.0@, a.1), (b.0@, b.1)),
{
    match order {
        PrintOrder::Start => true,
        PrintOrder::RevStart => true,
        PrintOrder::Key => key_at_or_before(a.0, b.0),
        PrintOrder::RevKey => key_at_or_before(b.0, a.0),
        PrintOrder::IncDuration => a.1 <= b.1,
        PrintOrder::DecDuration => b.1 <= a.1,
    }
}

/// Whether `later` is listed before `earlier`, an entry that stands before it
/// in the totals.
fn later_goes_first(
    order: PrintOrder,
    later: &(&'static str, u128),
    earlier: &(&'static str, u128),
) -> (first: bool)
    ensures
        forall|i: int, j: int|
            j < i ==> first == #[trigger] precedes(
                order,
                (later.0@, later.1),
                i,
                (earlier.0@, earlier.1),
                j,
            ),
{
    let ahead = ranks_at_or_before(order, later, earlier);
    let behind = ranks_at_or_before(order, earlier, later);
    if ahead && behind {
        order == PrintOrder::RevStart
    } else {
        ahead
    }
}

/// Puts the totals in the order in which a report lists them. `totals` holds
/// them in the order in which the activities were first started; entries that
/// `order` does not tell apart keep that order.
pub fn arrange(totals: &Vec<(&'static str, u128)>, order: PrintOrder) -> (listing: Vec<
    (&'static str, u128),
>)
    ensures
        entries_of(listing@) == listing_of(entries_of(totals@), order),
{
    let ghost given = entries_of(totals@);
    let ghost mut perm: Seq<int> = Seq::empty();
    let mut listing: Vec<(&'static str, u128)> = Vec::new();
    let mut next: usize = 0;
    while next < totals.len()
        invariant
            given == entries_of(totals@),
            next <= totals.len(),
            listing.len() == next,
            is_permutation(perm, next as int),
            in_order(perm, given, order),
            forall|i: int| 0 <= i < next ==> #[trigger] entries_of(listing@)[i] == given[perm[i]],
        decreases totals.len() - next,
    {
        let entry = totals[next];
        let mut at: usize = listing.len();
        while at > 0 && later_goes_first(order, &entry, &listing[at - 1])
            invariant
                given == entries_of(totals@),
                next < totals.len(),
                entry == totals[next as int],
                listing.len() == next,
                at <= next,
                is_permutation(perm, next as int),
                forall|i: int|
                    0 <= i < next ==> #[trigger] entries_of(listing@)[i] == given[perm[i]],
                forall|j: int|
                    at <= j < next ==> listed_before(order, given, next as int, #[trigger] perm[j]),
            decreases at,
        {
            proof {
                let e = at - 1;
                assert(entries_of(listing@)[e] == given[perm[e]]);
                assert(perm[e] < next);
            }
            at -= 1;
        }
        let ghost before = entries_of(listing@);
        listing.insert(at, entry);
        proof {
            if at > 0 {
                let e = at - 1;
                assert(before[e] == given[perm[e]]);
                assert(perm[e] < next);
            }
            lemma_insert_in_order(perm, given, order, next as int, at as int);
            perm = perm.insert(at as int, next as int);
            assert forall|i: int| 0 <= i < next + 1 implies #[trigger] entries_of(listing@)[i]
                == given[perm[i]] by {
                if i < at {
                    assert(before[i] == given[perm[i]]);
                } else if i > at {
                    assert(before[i - 1] == given[perm[i]]);
                }
            }
        }
        next += 1;
    }
    proof {
        assert(arranges(perm, entries_of(listing@), given, order));
        lemma_listing_is(entries_of(listing@), given, order);
    }
    listing
}

} // verus!
