//! What holds of a reporter over a whole unit of work.

use crate::builder::Config;
use crate::clock::elapsed;
use crate::reporter::ReporterView;
use crate::totals::{capped, lemma_credited, total_of};
use vstd::prelude::*;

verus! {

/// The reporter after the measurements `starts` were started one after the
/// other, each given by its activity and the instant at which it started.
pub open spec fn after_starts(view: ReporterView, starts: Seq<(Seq<char>, u64)>) -> ReporterView
    decreases starts.len(),
{
    if starts.len() == 0 {
        view
    } else {
        after_starts(view, starts.drop_last()).started(starts.last().0, starts.last().1)
    }
}

/// The nanoseconds during which `key` was the activity measured, where each
/// measurement of `starts` lasted until the next one started and the last one
/// until `end`.
pub open spec fn time_on(starts: Seq<(Seq<char>, u64)>, end: u64, key: Seq<char>) -> nat
    decreases starts.len(),
{
    if starts.len() == 0 {
        0
    } else {
        let last = starts.last();
        let before = time_on(starts.drop_last(), last.1, key);
        if last.0 == key {
            before + elapsed(last.1, end)
        } else {
            before
        }
    }
}

/// What one call does to a reporter.
pub enum Step {
    /// A measurement of an activity starts at an instant.
    Start(Seq<char>, u64),
    /// The measurement that is under way ends at an instant.
    Stop(u64),
    /// The report is asked for at an instant, by `finish` or when the
    /// reporter's scope ends.
    Finalize(u64),
}

/// The reporter after `step`.
pub open spec fn after_step(view: ReporterView, step: Step) -> ReporterView {
    match step {
        Step::Start(key, now) => view.started(key, now),
        Step::Stop(now) => view.stopped(now),
        Step::Finalize(now) => if view.reported {
            view
        } else {
            view.finalized(now)
        },
    }
}

/// Whether `step` hands out the report.
pub open spec fn hands_out(view: ReporterView, step: Step) -> bool {
    step is Finalize && !view.reported
}

/// The number of reports that `steps` hand out, one after the other.
pub open spec fn reports(view: ReporterView, steps: Seq<Step>) -> nat
    decreases steps.len(),
{
    if steps.len() == 0 {
        0
    } else {
        let first: nat = if hands_out(view, steps.first()) {
            1
        } else {
            0
        };
        first + reports(after_step(view, steps.first()), steps.drop_first())
    }
}

/// Some step of `steps` asks for the report.
pub open spec fn asks_for_report(steps: Seq<Step>) -> bool {
    exists|i: int| 0 <= i < steps.len() && #[trigger] steps[i] is Finalize
}

/// Capping a sum in two steps is capping it once.
proof fn lemma_capped_twice(so_far: nat, more: nat)
    ensures
        capped(capped(so_far) as nat + more) == capped(so_far + more),
{
}

/// Accumulation, from any reporter that measures nothing: after the
/// measurements `starts` and a stop at `end`, the total of every activity has
/// grown by the time during which it was measured, up to the cap.
pub proof fn lemma_accumulation_from(
    view: ReporterView,
    starts: Seq<(Seq<char>, u64)>,
    end: u64,
    key: Seq<char>,
)
    requires
        view.open is None,
    ensures
        after_starts(view, starts).stopped(end).open is None,
        total_of(after_starts(view, starts).stopped(end).totals, key) == capped(
            total_of(view.totals, key) + time_on(starts, end, key),
        ),
    decreases starts.len(),
{
    if starts.len() > 0 {
        let last = starts.last();
        let before = after_starts(view, starts.drop_last());
        lemma_accumulation_from(view, starts.drop_last(), last.1, key);
        lemma_credited(before.stopped(last.1).totals, last.0, elapsed(last.1, end), key);
        lemma_capped_twice(
            total_of(view.totals, key) + time_on(starts.drop_last(), last.1, key),
            elapsed(last.1, end),
        );
    }
}

/// Accumulation: after a fresh reporter was told to start the measurements
/// `starts`, one after the other, and then to stop at `end`, the total of
/// every activity is the time during which it was the activity measured (up
/// to the cap of a total), and nothing is being measured.
pub proof fn lemma_accumulation(
    config: Config,
    starts: Seq<(Seq<char>, u64)>,
    end: u64,
    key: Seq<char>,
)
    ensures
        after_starts(ReporterView::fresh(config), starts).stopped(end).open is None,
        total_of(after_starts(ReporterView::fresh(config), starts).stopped(end).totals, key) == capped(
            time_on(starts, end, key),
        ),
{
    lemma_accumulation_from(ReporterView::fresh(config), starts, end, key);
}

/// The instants of `starts` never go back, and `end` is not before the last
/// of them: what a monotonic clock gives.
pub open spec fn never_goes_back(starts: Seq<(Seq<char>, u64)>, end: u64) -> bool {
    &&& forall|i: int, j: int|
        0 <= i <= j < starts.len() ==> (#[trigger] starts[i]).1 <= (#[trigger] starts[j]).1
    &&& starts.len() > 0 ==> starts.last().1 <= end
}

/// On a clock that never goes back, the time on an activity is at most the
/// time from the first start to the end.
pub proof fn lemma_time_on_bounded(starts: Seq<(Seq<char>, u64)>, end: u64, key: Seq<char>)
    requires
        never_goes_back(starts, end),
    ensures
        starts.len() == 0 ==> time_on(starts, end, key) == 0,
        starts.len() > 0 ==> time_on(starts, end, key) <= end - starts.first().1,
    decreases starts.len(),
{
    if starts.len() > 0 {
        let earlier = starts.drop_last();
        let last = starts.last();
        assert(never_goes_back(earlier, last.1)) by {
            assert forall|i: int, j: int| 0 <= i <= j < earlier.len() implies (
            #[trigger] earlier[i]).1 <= (#[trigger] earlier[j]).1 by {
                assert(starts[i].1 <= starts[j].1);
            }
            if earlier.len() > 0 {
                assert(starts[earlier.len() - 1].1 <= starts[starts.len() - 1].1);
            }
        }
        lemma_time_on_bounded(earlier, last.1, key);
        if earlier.len() > 0 {
            assert(earlier.first() == starts.first());
        }
    }
}

/// Accumulation on a monotonic clock: where the instants never go back, no
/// total reaches the cap, and the total of every activity is exactly the
/// time during which it was the activity measured.
pub proof fn lemma_accumulation_on_monotonic_clock(
    config: Config,
    starts: Seq<(Seq<char>, u64)>,
    end: u64,
    key: Seq<char>,
)
    requires
        never_goes_back(starts, end),
    ensures
        total_of(after_starts(ReporterView::fresh(config), starts).stopped(end).totals, key)
            == time_on(starts, end, key),
{
    lemma_accumulation(config, starts, end, key);
    lemma_time_on_bounded(starts, end, key);
}

/// No time is lost at the end: a report that is asked for at `now` while
/// `key` is measured since `since` is on totals that count the time from
/// `since` to `now` for `key`, and leaves no measurement under way.
pub proof fn lemma_finalize_folds_open_interval(
    view: ReporterView,
    key: Seq<char>,
    since: u64,
    now: u64,
)
    ensures
        view.started(key, since).finalized(now).open is None,
        total_of(view.started(key, since).finalized(now).totals, key) == capped(
            total_of(view.started(key, since).totals, key) + elapsed(since, now),
        ),
{
    lemma_credited(view.started(key, since).totals, key, elapsed(since, now), key);
}

/// A total never shrinks, whatever is done with the reporter.
pub proof fn lemma_totals_never_shrink(view: ReporterView, step: Step, key: Seq<char>)
    ensures
        total_of(after_step(view, step).totals, key) >= total_of(view.totals, key),
{
    match view.open {
        Some((measured, since)) => {
            let end = match step {
                Step::Start(_, now) => now,
                Step::Stop(now) => now,
                Step::Finalize(now) => now,
            };
            lemma_credited(view.totals, measured, elapsed(since, end), key);
        },
        None => {},
    }
}

/// A reporter that has handed out its report hands out no other.
pub proof fn lemma_no_second_report(view: ReporterView, steps: Seq<Step>)
    requires
        view.reported,
    ensures
        reports(view, steps) == 0,
    decreases steps.len(),
{
    if steps.len() > 0 {
        lemma_no_second_report(after_step(view, steps.first()), steps.drop_first());
    }
}

/// Exactly one report: whatever is done with a reporter that has not
/// reported, it hands out one report if it is ever asked for one, at the
/// first time of asking, and none otherwise.
pub proof fn lemma_exactly_one_report(view: ReporterView, steps: Seq<Step>)
    requires
        !view.reported,
    ensures
        reports(view, steps) == if asks_for_report(steps) {
            1nat
        } else {
            0nat
        },
    decreases steps.len(),
{
    if steps.len() > 0 {
        let rest = steps.drop_first();
        let next = after_step(view, steps.first());
        if steps.first() is Finalize {
            lemma_no_second_report(next, rest);
            assert(steps[0] is Finalize);
        } else {
            lemma_exactly_one_report(next, rest);
            if asks_for_report(rest) {
                let i = choose|i: int| 0 <= i < rest.len() && #[trigger] rest[i] is Finalize;
                assert(steps[i + 1] is Finalize);
            }
            if asks_for_report(steps) {
                let i = choose|i: int| 0 <= i < steps.len() && #[trigger] steps[i] is Finalize;
                assert(rest[i - 1] is Finalize);
            }
        }
    }
}

} // verus!
