use tracing_perf::key::key_at_or_before;
use tracing_perf::order::{arrange, PrintOrder};

fn names(listing: &[(&'static str, u128)]) -> Vec<&'static str> {
    listing.iter().map(|entry| entry.0).collect()
}

fn fixed_totals() -> Vec<(&'static str, u128)> {
    vec![("a", 2_000_000_000), ("b", 5_000_000_000), ("c", 1_000_000_000)]
}

#[test]
fn decreasing_duration_lists_longest_first() {
    assert_eq!(names(&arrange(&fixed_totals(), PrintOrder::DecDuration)), vec!["b", "a", "c"]);
}

#[test]
fn key_order_lists_names_ascending() {
    assert_eq!(names(&arrange(&fixed_totals(), PrintOrder::Key)), vec!["a", "b", "c"]);
}

#[test]
fn reverse_key_order_lists_names_descending() {
    assert_eq!(names(&arrange(&fixed_totals(), PrintOrder::RevKey)), vec!["c", "b", "a"]);
}

#[test]
fn increasing_duration_lists_shortest_first() {
    assert_eq!(names(&arrange(&fixed_totals(), PrintOrder::IncDuration)), vec!["c", "a", "b"]);
}

#[test]
fn start_order_keeps_the_totals_as_they_are() {
    let totals = vec![("z", 1u128), ("m", 3), ("a", 2)];
    assert_eq!(arrange(&totals, PrintOrder::Start), totals);
}

#[test]
fn reverse_start_order_reverses_the_totals() {
    let totals = vec![("z", 1u128), ("m", 3), ("a", 2)];
    assert_eq!(arrange(&totals, PrintOrder::RevStart), vec![("a", 2), ("m", 3), ("z", 1)]);
}

#[test]
fn arranging_keeps_every_entry() {
    let totals = vec![("d", 4u128), ("b", 9), ("a", 9), ("c", 0)];
    for order in [
        PrintOrder::Start,
        PrintOrder::RevStart,
        PrintOrder::Key,
        PrintOrder::RevKey,
        PrintOrder::IncDuration,
        PrintOrder::DecDuration,
    ] {
        let mut listing = arrange(&totals, order);
        assert_eq!(listing.len(), totals.len());
        listing.sort();
        assert_eq!(listing, vec![("a", 9), ("b", 9), ("c", 0), ("d", 4)]);
    }
}

#[test]
fn equal_durations_keep_their_start_order() {
    let totals = vec![("x", 5u128), ("y", 7), ("z", 5), ("w", 7)];
    assert_eq!(
        arrange(&totals, PrintOrder::DecDuration),
        vec![("y", 7), ("w", 7), ("x", 5), ("z", 5)]
    );
    assert_eq!(
        arrange(&totals, PrintOrder::IncDuration),
        vec![("x", 5), ("z", 5), ("y", 7), ("w", 7)]
    );
}

#[test]
fn arranging_nothing_gives_nothing() {
    let totals: Vec<(&'static str, u128)> = Vec::new();
    assert_eq!(arrange(&totals, PrintOrder::DecDuration), totals);
    assert_eq!(arrange(&totals, PrintOrder::RevStart), totals);
}

#[test]
fn arranging_sorted_and_reversed_input() {
    let ascending = vec![("a", 1u128), ("b", 2), ("c", 3), ("d", 4)];
    let descending = vec![("d", 4u128), ("c", 3), ("b", 2), ("a", 1)];
    assert_eq!(arrange(&ascending, PrintOrder::Key), ascending);
    assert_eq!(arrange(&descending, PrintOrder::Key), ascending);
    assert_eq!(arrange(&ascending, PrintOrder::RevKey), descending);
    assert_eq!(arrange(&ascending, PrintOrder::DecDuration), descending);
    assert_eq!(arrange(&descending, PrintOrder::IncDuration), ascending);
}

#[test]
fn a_prefix_sorts_before_the_longer_name() {
    assert!(key_at_or_before("parse", "parser"));
    assert!(!key_at_or_before("parser", "parse"));
    assert!(key_at_or_before("", "a"));
    assert!(!key_at_or_before("a", ""));
    assert!(key_at_or_before("", ""));
}

#[test]
fn a_name_sorts_at_or_before_itself() {
    assert!(key_at_or_before("validate", "validate"));
}

#[test]
fn names_sort_by_their_first_difference() {
    assert!(key_at_or_before("load", "lock"));
    assert!(!key_at_or_before("lock", "load"));
    assert!(key_at_or_before("Zeta", "alpha"));
    assert!(!key_at_or_before("alpha", "Zeta"));
}

#[test]
fn names_sort_as_str_does() {
    let samples = ["", "a", "ab", "b", "B", "é", "z", "日本", "日", "\u{10000}", "\u{ffff}", "~"];
    for a in samples {
        for b in samples {
            assert_eq!(key_at_or_before(a, b), a <= b);
        }
    }
}

#[test]
fn key_order_uses_the_same_order_as_str() {
    let totals = vec![("é", 1u128), ("z", 2), ("B", 3), ("b", 4), ("日", 5)];
    let mut expected = totals.clone();
    expected.sort_by_key(|entry| entry.0);
    assert_eq!(arrange(&totals, PrintOrder::Key), expected);
    expected.reverse();
    assert_eq!(arrange(&totals, PrintOrder::RevKey), expected);
}
