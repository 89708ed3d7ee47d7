//! The table of accumulated totals: an `indexmap::IndexMap` from activity
//! name to nanoseconds, which keeps its entries in the order in which the
//! names were first inserted.
//!
//! Verus does not look inside an `IndexMap`. What a table holds has a name,
//! `table_entries`, and each call into the map has a wrapper here whose
//! contract says, over that name, what the map's documentation promises of
//! the call. These contracts are believed, not proved.

use crate::totals::{credited, entries_of, stored, with_total, Totals};
use indexmap::IndexMap;
use vstd::prelude::*;

verus! {

/// `indexmap::IndexMap`, which Verus takes as a type that it cannot look
/// into.
#[verifier::external_type_specification]
#[verifier::external_body]
#[verifier::reject_recursive_types(K)]
#[verifier::reject_recursive_types(V)]
#[verifier::reject_recursive_types(S)]
pub struct ExIndexMap<K, V, S>(IndexMap<K, V, S>);

/// The entries that a table holds, in the table's order. An `IndexMap` holds
/// each key once: where a contract below speaks of the first entry for a
/// name, that entry is the only one.
pub uninterp spec fn table_entries(table: IndexMap<&'static str, u128>) -> Totals;

/// `IndexMap::new`: a table without entries.
#[verifier::external_body]
pub(crate) fn table_new() -> (table: IndexMap<&'static str, u128>)
    ensures
        table_entries(table) == Totals::empty(),
{
    IndexMap::new()
}

/// `IndexMap::get`: the total stored for `key`, or `None` where the table has
/// no entry for it. Names are the same where their characters are.
#[verifier::external_body]
pub(crate) fn table_get(table: &IndexMap<&'static str, u128>, key: &'static str) -> (total: Option<
    u128,
>)
    ensures
        total == stored(table_entries(*table), key@),
{
    table.get(key).copied()
}

/// `IndexMap::insert`: where the table has an entry for `key`, the entry keeps
/// its place and gets `value`; where it has none, the new entry goes last.
#[verifier::external_body]
pub(crate) fn table_insert(table: &mut IndexMap<&'static str, u128>, key: &'static str, value: u128)
    ensures
        table_entries(*final(table)) == with_total(table_entries(*old(table)), key@, value),
{
    table.insert(key, value);
}

/// `IndexMap::iter`: the entries in the table's order, each name with its
/// total.
#[verifier::external_body]
pub(crate) fn get_times(table: &IndexMap<&'static str, u128>) -> (times: Vec<
    (&'static str, u128),
>)
    ensures
        entries_of(times@) == table_entries(*table),
{
    table.iter().map(|(&key, &total)| (key, total)).collect()
}

/// Adds `elapsed` nanoseconds to the total of `key`, which starts from zero
/// where the table has no entry for it. A total stays at the largest value
/// that it can hold once it has reached it.
pub(crate) fn credit(table: &mut IndexMap<&'static str, u128>, key: &'static str, elapsed: u64)
    ensures
        table_entries(*final(table)) == credited(table_entries(*old(table)), key@, elapsed as nat),
{
    let so_far = match table_get(table, key) {
        Some(total) => total,
        None => 0,
    };
    table_insert(table, key, so_far.saturating_add(elapsed as u128));
}

} // verus!
