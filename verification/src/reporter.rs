//! The reporter: accumulates the time spent on named activities and hands
//! out one report.

use crate::builder::{Config, TimeReporterBuilder};
use crate::clock::{elapsed, elapsed_nanos, now_nanos};
use crate::level::Level;
use crate::order::PrintOrder;
use crate::report::{
    message_text, render_message, Report, ReportView, REPORT_SCOPE, REPORT_TARGET,
};
use crate::table::{credit, get_times, table_entries, table_insert, table_new};
use crate::totals::{
    capped, credited, distinct_keys, entries_of, has_key, lemma_with_total_distinct, total_of,
    Totals,
};
use indexmap::IndexMap;
use vstd::prelude::*;

verus! {

/// What a reporter holds.
pub struct ReporterView {
    /// What the reporter was configured with.
    pub config: Config,
    /// The accumulated nanoseconds of each activity, in the order in which
    /// the activities were first started.
    pub totals: Totals,
    /// The activity that is being measured, with the instant at which its
    /// measurement started.
    pub open: Option<(Seq<char>, u64)>,
    /// Whether the report has been handed out.
    pub reported: bool,
}

impl ReporterView {
    /// A reporter that was just built: it has accumulated nothing, measures
    /// nothing, and has not reported.
    pub open spec fn fresh(config: Config) -> ReporterView {
        ReporterView { config, totals: Totals::empty(), open: None, reported: false }
    }

    /// The reporter after the measurement that is under way, if any, ended
    /// at `now`: its time went to its activity's total.
    pub open spec fn stopped(self, now: u64) -> ReporterView {
        match self.open {
            Some((key, since)) => ReporterView {
                totals: credited(self.totals, key, elapsed(since, now)),
                open: None,
                ..self
            },
            None => self,
        }
    }

    /// The reporter after a measurement of `key` started at `now`, which
    /// ends the measurement that was under way.
    pub open spec fn started(self, key: Seq<char>, now: u64) -> ReporterView {
        ReporterView { open: Some((key, now)), ..self.stopped(now) }
    }

    /// The reporter after it handed out its report at `now`.
    pub open spec fn finalized(self, now: u64) -> ReporterView {
        ReporterView { reported: true, ..self.stopped(now) }
    }

    /// The message of a report on what the reporter has accumulated.
    pub open spec fn message(self) -> Seq<char> {
        message_text(
            self.config.name,
            self.totals,
            self.config.print_order,
            self.config.width,
            self.config.precision,
        )
    }

    /// The report on what the reporter has accumulated.
    pub open spec fn report(self) -> ReportView {
        ReportView {
            scope: REPORT_SCOPE@,
            target: REPORT_TARGET@,
            level: self.config.level,
            message: self.message(),
        }
    }
}

/// Collects and reports the total time spent on a set of activities.
///
/// At most one activity is measured at a time. The report is handed out
/// once, by `finish` or by `finalize`, whichever comes first.
#[derive(Debug, PartialEq, Eq)]
pub struct TimeReporter {
    times: IndexMap<&'static str, u128>,
    cur_state_time: Option<(&'static str, u64)>,
    name: String,
    level: Level,
    print_order: PrintOrder,
    width: usize,
    precision: usize,
    reported: bool,
}

impl View for TimeReporter {
    type V = ReporterView;

    closed spec fn view(&self) -> ReporterView {
        ReporterView {
            config: Config {
                name: self.name@,
                level: self.level,
                print_order: self.print_order,
                width: self.width as nat,
                precision: self.precision as nat,
            },
            totals: table_entries(self.times),
            open: match self.cur_state_time {
                Some((key, since)) => Some((key@, since)),
                None => None,
            },
            reported: self.reported,
        }
    }
}

impl Clone for TimeReporter {
    /// A reporter with the same configuration, totals and measurement under
    /// way, which hands out a report of its own unless this one has.
    fn clone(&self) -> (copy: Self)
        ensures
            copy@ == self@,
    {
        proof {
            use_type_invariant(self);
        }
        let entries = get_times(&self.times);
        let ghost totals = entries_of(entries@);
        let mut times = table_new();
        let mut done: usize = 0;
        while done < entries.len()
            invariant
                done <= entries.len(),
                totals == entries_of(entries@),
                distinct_keys(totals),
                table_entries(times) == totals.take(done as int),
            decreases entries.len() - done,
        {
            let (key, total) = entries[done];
            proof {
                let copied = totals.take(done as int);
                assert(totals[done as int] == (key@, total));
                assert(!has_key(copied, key@)) by {
                    if has_key(copied, key@) {
                        let i = choose|i: int| 0 <= i < copied.len() && (#[trigger] copied[i]).0 == key@;
                        assert(totals[i].0 == totals[done as int].0);
                    }
                }
                assert(copied.push((key@, total)) =~= totals.take(done + 1));
            }
            table_insert(&mut times, key, total);
            done += 1;
        }
        assert(totals.take(done as int) =~= totals);
        TimeReporter {
            times,
            cur_state_time: self.cur_state_time,
            name: self.name.clone(),
            level: self.level,
            print_order: self.print_order,
            width: self.width,
            precision: self.precision,
            reported: self.reported,
        }
    }
}

impl TimeReporter {
    /// No activity has two totals.
    #[verifier::type_invariant]
    spec fn keys_are_unique(self) -> bool {
        distinct_keys(table_entries(self.times))
    }

    /// A reporter that has accumulated nothing, with the given configuration.
    pub(crate) fn with_config(
        name: String,
        level: Level,
        print_order: PrintOrder,
        width: usize,
        precision: usize,
    ) -> (reporter: Self)
        ensures
            reporter@ == ReporterView::fresh(
                Config {
                    name: name@,
                    level,
                    print_order,
                    width: width as nat,
                    precision: precision as nat,
                },
            ),
    {
        TimeReporter {
            times: table_new(),
            cur_state_time: None,
            name,
            level,
            print_order,
            width,
            precision,
            reported: false,
        }
    }

    /// Creates a reporter on the unit of work `name` with the default
    /// configuration.
    pub fn new(name: &str) -> (reporter: Self)
        ensures
            reporter@ == ReporterView::fresh(Config::new(name@)),
    {
        TimeReporterBuilder::new(name).build()
    }

    /// Creates a reporter on the unit of work `name` whose report has the
    /// severity `level`.
    pub fn new_with_level(name: &str, level: Level) -> (reporter: Self)
        ensures
            reporter@ == ReporterView::fresh(Config { level, ..Config::new(name@) }),
    {
        let mut builder = TimeReporterBuilder::new(name);
        builder.level(level);
        builder.build()
    }

    /// Ends the measurement that is under way, if any, at `now`.
    fn save_current(&mut self, now: u64)
        ensures
            final(self)@ == old(self)@.stopped(now),
    {
        proof {
            use_type_invariant(&*self);
        }
        match self.cur_state_time {
            Some((key, since)) => {
                let spent = elapsed_nanos(since, now);
                let mut times = table_new();
                std::mem::swap(&mut times, &mut self.times);
                proof {
                    let totals = table_entries(times);
                    lemma_with_total_distinct(
                        totals,
                        key@,
                        capped(total_of(totals, key@) + spent as nat),
                    );
                }
                credit(&mut times, key, spent);
                self.times = times;
                self.cur_state_time = None;
            },
            None => {},
        }
    }

    /// Starts measuring the activity `key` at the instant `now`. The
    /// measurement that was under way ends at that instant.
    pub fn start_at(&mut self, key: &'static str, now: u64)
        ensures
            final(self)@ == old(self)@.started(key@, now),
    {
        self.save_current(now);
        proof {
            use_type_invariant(&*self);
        }
        self.cur_state_time = Some((key, now));
    }

    /// Ends the measurement that is under way at the instant `now`. A
    /// reporter that measures nothing stays as it is.
    pub fn stop_at(&mut self, now: u64)
        ensures
            final(self)@ == old(self)@.stopped(now),
            old(self)@.open is None ==> final(self)@ == old(self)@,
    {
        self.save_current(now);
    }

    /// Hands out the report, unless it has been handed out: the measurement
    /// that is under way ends at the instant `now`, and the report is on the
    /// totals after that.
    pub fn finalize_at(&mut self, now: u64) -> (report: Option<Report>)
        ensures
            match report {
                Some(r) => !old(self)@.reported && final(self)@ == old(self)@.finalized(now) && r@
                    == final(self)@.report(),
                None => old(self)@.reported && final(self)@ == old(self)@,
            },
    {
        if self.reported {
            None
        } else {
            self.save_current(now);
            proof {
                use_type_invariant(&*self);
            }
            self.reported = true;
            let message = self.render();
            Some(
                Report {
                    scope: REPORT_SCOPE,
                    target: REPORT_TARGET,
                    level: self.level,
                    message,
                },
            )
        }
    }

    /// The totals accumulated so far, as nanoseconds for each activity, in
    /// the order in which the activities were first started. No activity
    /// occurs twice. The time of a measurement that is under way is not in
    /// them.
    pub fn times(&self) -> (times: Vec<(&'static str, u128)>)
        ensures
            entries_of(times@) == self@.totals,
            distinct_keys(self@.totals),
    {
        proof {
            use_type_invariant(self);
        }
        get_times(&self.times)
    }

    /// The message of a report on the totals accumulated so far. The time of
    /// a measurement that is under way is not in them.
    pub fn render(&self) -> (message: String)
        ensures
            message@ == self@.message(),
    {
        let times = get_times(&self.times);
        render_message(self.name.as_str(), &times, self.print_order, self.width, self.precision)
    }

    /// Starts measuring the activity `key` now. The measurement that was
    /// under way ends.
    pub fn start(&mut self, key: &'static str)
        ensures
            exists|now: u64| final(self)@ == old(self)@.started(key@, now),
    {
        let now = now_nanos();
        self.start_at(key, now);
    }

    /// Starts measuring the activity `key` and runs `f`.
    pub fn start_with<F: FnOnce() -> R, R>(&mut self, key: &'static str, f: F) -> (result: R)
        requires
            f.requires(()),
        ensures
            exists|now: u64| final(self)@ == old(self)@.started(key@, now),
            f.ensures((), result),
    {
        self.start(key);
        f()
    }

    /// Ends the measurement that is under way. A reporter that measures
    /// nothing stays as it is.
    pub fn stop(&mut self)
        ensures
            exists|now: u64| final(self)@ == old(self)@.stopped(now),
            old(self)@.open is None ==> final(self)@ == old(self)@,
    {
        let now = now_nanos();
        self.stop_at(now);
    }

    /// Hands out the report, unless it has been handed out: the measurement
    /// that is under way ends now, and the report is on the totals after
    /// that.
    pub fn finalize(&mut self) -> (report: Option<Report>)
        ensures
            match report {
                Some(r) => !old(self)@.reported && r@ == final(self)@.report() && exists|now: u64|
                    final(self)@ == old(self)@.finalized(now),
                None => old(self)@.reported && final(self)@ == old(self)@,
            },
    {
        let now = now_nanos();
        self.finalize_at(now)
    }

    /// Finishes the work: ends the measurement that is under way and hands
    /// out the report, unless it has been handed out.
    pub fn finish(self) -> (report: Option<Report>)
        ensures
            match report {
                Some(r) => !self@.reported && exists|now: u64| r@ == self@.finalized(now).report(),
                None => self@.reported,
            },
    {
        let mut reporter = self;
        reporter.finalize()
    }
}

} // verus!
