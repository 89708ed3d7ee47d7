//! The mathematical model of the accumulated totals: a sequence of activity
//! names with their totals in nanoseconds, in the order in which the
//! activities first got a total.

use vstd::prelude::*;

verus! {

/// Accumulated totals: each activity name with its nanoseconds.
pub type Totals = Seq<(Seq<char>, u128)>;

/// The totals that a vector of pairs stands for.
pub open spec fn entries_of(pairs: Seq<(&'static str, u128)>) -> Totals {
    Seq::new(pairs.len(), |i: int| (pairs[i].0@, pairs[i].1))
}

/// Some entry of `totals` is for `key`.
pub open spec fn has_key(totals: Totals, key: Seq<char>) -> bool {
    exists|i: int| 0 <= i < totals.len() && (#[trigger] totals[i]).0 == key
}

/// `i` is the position of the first entry of `totals` for `key`.
pub open spec fn is_first_index(totals: Totals, key: Seq<char>, i: int) -> bool {
    &&& 0 <= i < totals.len()
    &&& totals[i].0 == key
    &&& forall|j: int| 0 <= j < i ==> (#[trigger] totals[j]).0 != key
}

/// The position of the first entry of `totals` for `key`, where there is one.
pub open spec fn first_index(totals: Totals, key: Seq<char>) -> int {
    choose|i: int| is_first_index(totals, key, i)
}

/// No two entries of `totals` are for the same activity.
pub open spec fn distinct_keys(totals: Totals) -> bool {
    forall|i: int, j: int|
        0 <= i < j < totals.len() ==> (#[trigger] totals[i]).0 != (#[trigger] totals[j]).0
}

/// The total that `totals` holds for `key`, if it holds one.
pub open spec fn stored(totals: Totals, key: Seq<char>) -> Option<u128> {
    if has_key(totals, key) {
        Some(totals[first_index(totals, key)].1)
    } else {
        None
    }
}

/// The time accumulated for `key`: zero for an activity without an entry.
pub open spec fn total_of(totals: Totals, key: Seq<char>) -> nat {
    match stored(totals, key) {
        Some(total) => total as nat,
        None => 0,
    }
}

/// `totals` with `value` as the total for `key`: the entry for `key` keeps
/// its place, and a new activity goes last.
pub open spec fn with_total(totals: Totals, key: Seq<char>, value: u128) -> Totals {
    if has_key(totals, key) {
        totals.update(first_index(totals, key), (key, value))
    } else {
        totals.push((key, value))
    }
}

/// `amount` capped at the largest total that an entry can hold.
pub open spec fn capped(amount: nat) -> u128 {
    if amount <= u128::MAX {
        amount as u128
    } else {
        u128::MAX
    }
}

/// `totals` after `elapsed` more nanoseconds were spent on `key`.
pub open spec fn credited(totals: Totals, key: Seq<char>, elapsed: nat) -> Totals {
    with_total(totals, key, capped(total_of(totals, key) + elapsed))
}

/// Among the entries for `key` up to position `i` one is the first.
proof fn lemma_first_index_from(totals: Totals, key: Seq<char>, i: int)
    requires
        0 <= i < totals.len(),
        totals[i].0 == key,
    ensures
        exists|k: int| is_first_index(totals, key, k),
    decreases i,
{
    if exists|j: int| 0 <= j < i && (#[trigger] totals[j]).0 == key {
        let j = choose|j: int| 0 <= j < i && (#[trigger] totals[j]).0 == key;
        lemma_first_index_from(totals, key, j);
    } else {
        assert(is_first_index(totals, key, i));
    }
}

/// Where `totals` has an entry for `key`, `first_index` is the position of
/// the first one.
pub proof fn lemma_first_index(totals: Totals, key: Seq<char>)
    requires
        has_key(totals, key),
    ensures
        is_first_index(totals, key, first_index(totals, key)),
{
    let i = choose|i: int| 0 <= i < totals.len() && (#[trigger] totals[i]).0 == key;
    lemma_first_index_from(totals, key, i);
}

/// Only one position is the first for a key.
pub proof fn lemma_first_index_is(totals: Totals, key: Seq<char>, i: int)
    requires
        is_first_index(totals, key, i),
    ensures
        has_key(totals, key),
        first_index(totals, key) == i,
{
    let k = first_index(totals, key);
    assert(is_first_index(totals, key, k));
    if k < i {
        assert(totals[k].0 != key);
    } else if i < k {
        assert(totals[i].0 != key);
    }
}

/// Setting the total of one activity sets it, and leaves the totals of the
/// others as they were.
pub proof fn lemma_with_total(totals: Totals, key: Seq<char>, value: u128, other: Seq<char>)
    ensures
        stored(with_total(totals, key, value), other) == if other == key {
            Some(value)
        } else {
            stored(totals, other)
        },
{
    let after = with_total(totals, key, value);
    // The entry for `key` stands at `at`, before and after.
    let at = if has_key(totals, key) {
        lemma_first_index(totals, key);
        first_index(totals, key)
    } else {
        totals.len() as int
    };
    if other == key {
        assert(is_first_index(after, key, at)) by {
            assert forall|j: int| 0 <= j < at implies (#[trigger] after[j]).0 != key by {
                assert(totals[j].0 != key);
            }
        }
        lemma_first_index_is(after, key, at);
    } else if has_key(totals, other) {
        lemma_first_index(totals, other);
        let first = first_index(totals, other);
        assert(is_first_index(after, other, first)) by {
            assert forall|j: int| 0 <= j < first implies (#[trigger] after[j]).0 != other by {
                assert(totals[j].0 != other);
            }
        }
        lemma_first_index_is(after, other, first);
    } else if has_key(after, other) {
        let i = choose|i: int| 0 <= i < after.len() && (#[trigger] after[i]).0 == other;
        assert(totals[i].0 == other);
    }
}

/// Setting a total keeps the activities apart: no name comes to occur twice.
pub proof fn lemma_with_total_distinct(totals: Totals, key: Seq<char>, value: u128)
    requires
        distinct_keys(totals),
    ensures
        distinct_keys(with_total(totals, key, value)),
{
    let after = with_total(totals, key, value);
    if has_key(totals, key) {
        lemma_first_index(totals, key);
        let at = first_index(totals, key);
        assert forall|i: int, j: int| 0 <= i < j < after.len() implies (#[trigger] after[i]).0 != (
        #[trigger] after[j]).0 by {
            assert(after[i].0 == totals[i].0);
            assert(after[j].0 == totals[j].0);
        }
    } else {
        assert forall|i: int, j: int| 0 <= i < j < after.len() implies (#[trigger] after[i]).0 != (
        #[trigger] after[j]).0 by {
            if j < totals.len() {
                assert(after[i].0 == totals[i].0);
                assert(after[j].0 == totals[j].0);
            } else {
                assert(after[i] == totals[i]);
            }
        }
    }
}

/// Time spent on an activity is added to its total, up to the cap, and to no
/// other total.
pub proof fn lemma_credited(totals: Totals, key: Seq<char>, elapsed: nat, other: Seq<char>)
    ensures
        total_of(credited(totals, key, elapsed), other) == if other == key {
            capped(total_of(totals, key) + elapsed) as nat
        } else {
            total_of(totals, other)
        },
{
    lemma_with_total(totals, key, capped(total_of(totals, key) + elapsed), other);
}

} // verus!
