use tracing_perf::order::PrintOrder;
use tracing_perf::report::render_message;
use tracing_perf::seconds::format_seconds;

#[test]
fn one_and_a_half_seconds_with_three_digits() {
    assert_eq!(format_seconds(1_500_000_000, 0, 3), "1.500");
}

#[test]
fn default_width_and_precision_show_nanoseconds() {
    assert_eq!(format_seconds(10_123_456, 11, 9), "0.010123456");
    assert_eq!(format_seconds(0, 11, 9), "0.000000000");
    assert_eq!(format_seconds(12_000_000_001, 11, 9), "12.000000001");
}

#[test]
fn narrow_total_is_padded_on_the_right() {
    assert_eq!(format_seconds(1_500_000_000, 8, 3), "1.500   ");
    assert_eq!(format_seconds(2_000_000_000, 4, 0), "2   ");
}

#[test]
fn width_below_the_text_changes_nothing() {
    assert_eq!(format_seconds(1_500_000_000, 5, 3), "1.500");
    assert_eq!(format_seconds(1_500_000_000, 4, 3), "1.500");
    assert_eq!(format_seconds(1_500_000_000, 0, 9), "1.500000000");
}

#[test]
fn precision_zero_has_no_decimal_point() {
    assert_eq!(format_seconds(3_200_000_000, 0, 0), "3");
    assert_eq!(format_seconds(3_700_000_000, 0, 0), "4");
    assert_eq!(format_seconds(0, 0, 0), "0");
}

#[test]
fn a_tie_rounds_to_the_even_digit() {
    assert_eq!(format_seconds(500_000_000, 0, 0), "0");
    assert_eq!(format_seconds(1_500_000_000, 0, 0), "2");
    assert_eq!(format_seconds(2_500_000_000, 0, 0), "2");
    assert_eq!(format_seconds(250_000_000, 0, 1), "0.2");
    assert_eq!(format_seconds(750_000_000, 0, 1), "0.8");
    assert_eq!(format_seconds(125_000_000, 0, 2), "0.12");
}

#[test]
fn rounding_goes_to_the_nearest_value() {
    assert_eq!(format_seconds(1_234_567_891, 0, 3), "1.235");
    assert_eq!(format_seconds(1_234_499_999, 0, 3), "1.234");
    assert_eq!(format_seconds(999_999_999, 0, 3), "1.000");
    assert_eq!(format_seconds(9_999_999_999, 0, 8), "10.00000000");
    assert_eq!(format_seconds(999_999_999, 0, 8), "1.00000000");
    assert_eq!(format_seconds(123_456_789, 0, 8), "0.12345679");
}

#[test]
fn precision_beyond_nanoseconds_adds_zeros() {
    assert_eq!(format_seconds(1_500_000_000, 0, 12), "1.500000000000");
    assert_eq!(format_seconds(1, 0, 10), "0.0000000010");
    assert_eq!(format_seconds(1, 15, 10), "0.0000000010   ");
}

#[test]
fn largest_total_is_rendered() {
    assert_eq!(
        format_seconds(u128::MAX, 0, 9),
        "340282366920938463463374607431.768211455"
    );
    assert_eq!(format_seconds(u128::MAX, 0, 0), "340282366920938463463374607432");
}

#[test]
fn message_lists_name_then_totals() {
    let totals = vec![("parse", 10_000_000u128), ("validate", 5_000_000)];
    assert_eq!(
        render_message("ingest", &totals, PrintOrder::DecDuration, 11, 9),
        "name: ingest, parse: 0.010000000, validate: 0.005000000"
    );
    assert_eq!(
        render_message("ingest", &totals, PrintOrder::IncDuration, 11, 9),
        "name: ingest, validate: 0.005000000, parse: 0.010000000"
    );
}

#[test]
fn message_without_totals_is_the_name() {
    let totals: Vec<(&'static str, u128)> = Vec::new();
    assert_eq!(render_message("idle", &totals, PrintOrder::Key, 11, 9), "name: idle");
    assert_eq!(render_message("", &totals, PrintOrder::Key, 11, 9), "name: ");
}

#[test]
fn message_pads_each_total_to_the_width() {
    let totals = vec![("a", 1_500_000_000u128), ("b", 250_000_000)];
    assert_eq!(
        render_message("w", &totals, PrintOrder::Start, 7, 2),
        "name: w, a: 1.50   , b: 0.25   "
    );
    assert_eq!(
        render_message("w", &totals, PrintOrder::Start, 2, 2),
        "name: w, a: 1.50, b: 0.25"
    );
}

#[test]
fn message_keeps_names_that_are_not_ascii() {
    let totals = vec![("größe", 1_000_000_000u128)];
    assert_eq!(
        render_message("prüfung", &totals, PrintOrder::Start, 0, 1),
        "name: prüfung, größe: 1.0"
    );
}

#[test]
fn agrees_with_floating_point_formatting_away_from_ties() {
    let mut state: u64 = 0x2545_f491_4f6c_dd1d;
    for round in 0..2_000u32 {
        state ^= state << 13;
        state ^= state >> 7;
        state ^= state << 17;
        let nanos = (state % 100_000_000_000_000) as u128;
        let precision = (round % 10) as usize;
        let width = ((state >> 50) % 16) as usize;
        let unit = 10u128.pow(9 - precision as u32);
        if 2 * (nanos % unit) == unit {
            continue;
        }
        let seconds = (nanos / 1_000_000_000) as f64 + (nanos % 1_000_000_000) as f64 / 1e9;
        assert_eq!(
            format_seconds(nanos, width, precision),
            format!("{:<width$.precision$}", seconds),
            "{nanos} ns, width {width}, precision {precision}"
        );
    }
}

#[test]
fn agrees_with_floating_point_formatting_on_ties_that_are_binary_fractions() {
    let ties: [(u128, usize); 12] = [
        (500_000_000, 0),
        (1_500_000_000, 0),
        (2_500_000_000, 0),
        (3_500_000_000, 0),
        (250_000_000, 1),
        (750_000_000, 1),
        (7_250_000_000, 1),
        (125_000_000, 2),
        (375_000_000, 2),
        (625_000_000, 2),
        (62_500_000, 3),
        (9_187_500_000, 3),
    ];
    for (nanos, precision) in ties {
        let seconds = (nanos / 1_000_000_000) as f64 + (nanos % 1_000_000_000) as f64 / 1e9;
        assert_eq!(
            format_seconds(nanos, 0, precision),
            format!("{:.precision$}", seconds),
            "{nanos} ns, precision {precision}"
        );
    }
}
