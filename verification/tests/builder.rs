use tracing_perf::{Level, PrintOrder, TimeReporter, TimeReporterBuilder};

fn sample(reporter: &mut TimeReporter) -> String {
    reporter.start_at("short", 0);
    reporter.start_at("long", 1_000_000);
    reporter.stop_at(1_003_000_000);
    reporter.render()
}

#[test]
fn builder_defaults() {
    let mut reporter = TimeReporterBuilder::new("job").build();
    assert_eq!(sample(&mut reporter), "name: job, long: 1.002000000, short: 0.001000000");
    assert_eq!(reporter.finalize_at(0).unwrap().level, Level::Info);
}

#[test]
fn new_uses_the_builder_defaults() {
    assert_eq!(TimeReporter::new("job"), TimeReporterBuilder::new("job").build());
}

#[test]
fn new_with_level_sets_only_the_level() {
    let mut reporter = TimeReporter::new_with_level("job", Level::Trace);
    assert_eq!(reporter, TimeReporterBuilder::new("job").level(Level::Trace).build());
    assert_eq!(sample(&mut reporter), "name: job, long: 1.002000000, short: 0.001000000");
    assert_eq!(reporter.finalize_at(0).unwrap().level, Level::Trace);
}

#[test]
fn builder_sets_each_level() {
    for level in [Level::Error, Level::Warn, Level::Info, Level::Debug, Level::Trace] {
        let mut reporter = TimeReporterBuilder::new("job").level(level).build();
        assert_eq!(reporter.finalize_at(0).unwrap().level, level);
    }
}

#[test]
fn builder_sets_the_print_order() {
    let mut reporter = TimeReporterBuilder::new("job").print_order(PrintOrder::Start).build();
    assert_eq!(sample(&mut reporter), "name: job, short: 0.001000000, long: 1.002000000");
}

#[test]
fn builder_sets_the_width() {
    let mut reporter = TimeReporterBuilder::new("job").width(13).build();
    assert_eq!(sample(&mut reporter), "name: job, long: 1.002000000  , short: 0.001000000  ");
}

#[test]
fn builder_sets_the_precision() {
    let mut reporter = TimeReporterBuilder::new("job").precision(3).build();
    assert_eq!(sample(&mut reporter), "name: job, long: 1.002      , short: 0.001      ");
}

#[test]
fn builder_setters_chain_and_the_last_one_wins() {
    let mut builder = TimeReporterBuilder::new("job");
    builder.width(20).precision(2).width(1);
    builder.print_order(PrintOrder::Key).level(Level::Warn);
    let mut reporter = builder.build();
    assert_eq!(sample(&mut reporter), "name: job, long: 1.00, short: 0.00");
    assert_eq!(reporter.finalize_at(0).unwrap().level, Level::Warn);
}

#[test]
fn builder_builds_more_than_one_reporter() {
    let builder = TimeReporterBuilder::new("job");
    let mut first = builder.build();
    let second = builder.build();
    first.start_at("a", 0);
    first.stop_at(10);
    assert_eq!(first.times(), vec![("a", 10)]);
    assert!(second.times().is_empty());
    assert_eq!(builder.clone(), builder);
}

#[test]
fn default_print_order_is_decreasing_duration() {
    assert_eq!(PrintOrder::default(), PrintOrder::DecDuration);
}

#[test]
fn levels_are_ordered_from_error_to_trace() {
    assert!(Level::Error < Level::Warn);
    assert!(Level::Warn < Level::Info);
    assert!(Level::Info < Level::Debug);
    assert!(Level::Debug < Level::Trace);
}
