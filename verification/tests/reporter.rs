use tracing_perf::{Level, PrintOrder, TimeReporter, TimeReporterBuilder};

const MS: u64 = 1_000_000;

#[test]
fn new_reporter_has_accumulated_nothing() {
    let reporter = TimeReporter::new("work");
    assert!(reporter.times().is_empty());
    assert_eq!(reporter.render(), "name: work");
}

#[test]
fn starts_and_a_stop_accumulate_each_interval() {
    let mut reporter = TimeReporter::new("work");
    reporter.start_at("a", 100);
    reporter.start_at("b", 350);
    reporter.start_at("c", 400);
    reporter.stop_at(1_000);
    assert_eq!(reporter.times(), vec![("a", 250), ("b", 50), ("c", 600)]);
}

#[test]
fn an_activity_started_again_adds_to_its_total() {
    let mut reporter = TimeReporter::new("work");
    reporter.start_at("a", 0);
    reporter.start_at("b", 10);
    reporter.start_at("a", 30);
    reporter.stop_at(100);
    reporter.start_at("a", 500);
    reporter.stop_at(501);
    assert_eq!(reporter.times(), vec![("a", 81), ("b", 20)]);
}

#[test]
fn starting_the_same_activity_twice_keeps_counting() {
    let mut reporter = TimeReporter::new("work");
    reporter.start_at("a", 5);
    reporter.start_at("a", 8);
    reporter.stop_at(20);
    assert_eq!(reporter.times(), vec![("a", 15)]);
}

#[test]
fn an_open_measurement_is_not_in_the_totals() {
    let mut reporter = TimeReporter::new("work");
    reporter.start_at("a", 5);
    assert!(reporter.times().is_empty());
    reporter.start_at("b", 8);
    assert_eq!(reporter.times(), vec![("a", 3)]);
}

#[test]
fn stop_without_a_measurement_changes_nothing() {
    let mut reporter = TimeReporter::new("work");
    reporter.stop_at(77);
    assert!(reporter.times().is_empty());
    reporter.start_at("a", 100);
    reporter.stop_at(150);
    let before = reporter.clone();
    reporter.stop_at(900);
    assert_eq!(reporter, before);
    assert_eq!(reporter.times(), vec![("a", 50)]);
}

#[test]
fn an_instant_that_is_not_later_counts_nothing() {
    let mut reporter = TimeReporter::new("work");
    reporter.start_at("a", 1_000);
    reporter.start_at("b", 400);
    reporter.stop_at(400);
    assert_eq!(reporter.times(), vec![("a", 0), ("b", 0)]);
}

#[test]
fn the_widest_interval_is_counted() {
    let mut reporter = TimeReporter::new("work");
    reporter.start_at("a", 0);
    reporter.stop_at(u64::MAX);
    reporter.start_at("a", 0);
    reporter.stop_at(u64::MAX);
    assert_eq!(reporter.times(), vec![("a", 2 * (u64::MAX as u128))]);
}

#[test]
fn finalize_without_stop_counts_the_open_measurement() {
    let mut reporter = TimeReporter::new("work");
    reporter.start_at("a", 2 * MS);
    let report = reporter.finalize_at(5 * MS).unwrap();
    assert_eq!(report.message, "name: work, a: 0.003000000");
    assert_eq!(reporter.times(), vec![("a", 3 * MS as u128)]);
}

#[test]
fn report_carries_scope_target_and_level() {
    let mut reporter = TimeReporter::new_with_level("work", Level::Debug);
    let report = reporter.finalize_at(0).unwrap();
    assert_eq!(report.scope, "time-report");
    assert_eq!(report.target, "tracing-perf");
    assert_eq!(report.level, Level::Debug);
    assert_eq!(report.message, "name: work");
}

#[test]
fn report_is_handed_out_once() {
    let mut reporter = TimeReporter::new("work");
    reporter.start_at("a", 0);
    assert!(reporter.finalize_at(10).is_some());
    assert!(reporter.finalize_at(20).is_none());
    reporter.start_at("b", 30);
    reporter.stop_at(40);
    assert!(reporter.finalize_at(50).is_none());
    assert!(reporter.finalize().is_none());
    assert!(reporter.finish().is_none());
}

#[test]
fn a_second_finalize_changes_nothing() {
    let mut reporter = TimeReporter::new("work");
    reporter.start_at("a", 0);
    reporter.finalize_at(10);
    reporter.start_at("b", 30);
    let before = reporter.clone();
    assert!(reporter.finalize_at(50).is_none());
    assert_eq!(reporter, before);
}

#[test]
fn report_of_two_activities_with_default_configuration() {
    let mut reporter = TimeReporter::new("ingest");
    reporter.start_at("parse", 1_000);
    reporter.start_at("validate", 1_000 + 10 * MS);
    let report = reporter.finalize_at(1_000 + 15 * MS).unwrap();
    assert_eq!(report.message, "name: ingest, parse: 0.010000000, validate: 0.005000000");
    assert_eq!(report.level, Level::Info);
}

#[test]
fn report_follows_the_configured_order() {
    let orders = [
        (PrintOrder::Start, "name: w, b: 5.0, a: 2.0, c: 1.0"),
        (PrintOrder::RevStart, "name: w, c: 1.0, a: 2.0, b: 5.0"),
        (PrintOrder::Key, "name: w, a: 2.0, b: 5.0, c: 1.0"),
        (PrintOrder::RevKey, "name: w, c: 1.0, b: 5.0, a: 2.0"),
        (PrintOrder::IncDuration, "name: w, c: 1.0, a: 2.0, b: 5.0"),
        (PrintOrder::DecDuration, "name: w, b: 5.0, a: 2.0, c: 1.0"),
    ];
    for (order, expected) in orders {
        let mut reporter = TimeReporterBuilder::new("w").print_order(order).width(0).precision(1).build();
        reporter.start_at("b", 0);
        reporter.start_at("a", 5_000 * MS);
        reporter.start_at("c", 7_000 * MS);
        reporter.stop_at(8_000 * MS);
        assert_eq!(reporter.render(), expected);
    }
}

#[test]
fn render_shows_the_totals_so_far() {
    let mut reporter = TimeReporter::new("work");
    reporter.start_at("a", 0);
    reporter.start_at("b", 1_500 * MS);
    assert_eq!(reporter.render(), "name: work, a: 1.500000000");
    reporter.stop_at(1_750 * MS);
    assert_eq!(reporter.render(), "name: work, a: 1.500000000, b: 0.250000000");
}

#[test]
fn clone_is_equal_and_separate() {
    let mut reporter = TimeReporterBuilder::new("work").print_order(PrintOrder::Start).build();
    reporter.start_at("a", 0);
    reporter.start_at("b", 10);
    reporter.start_at("c", 30);
    let mut copy = reporter.clone();
    assert_eq!(copy, reporter);
    assert_eq!(copy.times(), vec![("a", 10), ("b", 20)]);
    copy.stop_at(100);
    assert_eq!(copy.times(), vec![("a", 10), ("b", 20), ("c", 70)]);
    assert_eq!(reporter.times(), vec![("a", 10), ("b", 20)]);
    assert!(copy.finalize_at(100).is_some());
    assert!(reporter.finalize_at(100).is_some());
}
