//! The summary record of a unit of work, and its text.

use crate::level::Level;
use crate::order::{arrange, listing_of, PrintOrder};
use crate::seconds::{format_seconds, seconds_field};
use crate::totals::{entries_of, Totals};
use vstd::prelude::*;
use vstd::string::StringExecFns;

verus! {

/// The label of the scope in which a report is emitted.
pub const REPORT_SCOPE: &'static str = "time-report";

/// The target that tells reports from other events.
pub const REPORT_TARGET: &'static str = "tracing-perf";

/// The one record that a unit of work hands to the event sink.
#[derive(Debug, PartialEq, Eq)]
pub struct Report {
    /// Label of the scope that wraps the emission.
    pub scope: &'static str,
    /// Target of the event.
    pub target: &'static str,
    /// Severity of the event.
    pub level: Level,
    /// The event's message: the name of the work and its totals.
    pub message: String,
}

/// What a `Report` holds.
pub struct ReportView {
    pub scope: Seq<char>,
    pub target: Seq<char>,
    pub level: Level,
    pub message: Seq<char>,
}

impl View for Report {
    type V = ReportView;

    open spec fn view(&self) -> ReportView {
        ReportView {
            scope: self.scope@,
            target: self.target@,
            level: self.level,
            message: self.message@,
        }
    }
}

/// The segment of a report for one entry: a comma, the activity's name, and
/// its total in seconds.
pub open spec fn entry_text(entry: (Seq<char>, u128), width: nat, precision: nat) -> Seq<char> {
    ", "@ + entry.0 + ": "@ + seconds_field(entry.1 as nat, width, precision)
}

/// The segments of the entries of `listing`, one after the other.
pub open spec fn entries_text(listing: Totals, width: nat, precision: nat) -> Seq<char>
    decreases listing.len(),
{
    if listing.len() == 0 {
        Seq::empty()
    } else {
        entries_text(listing.drop_last(), width, precision) + entry_text(
            listing.last(),
            width,
            precision,
        )
    }
}

/// The text of a report: the name of the work, then the entries of `listing`
/// in their order.
pub open spec fn report_text(name: Seq<char>, listing: Totals, width: nat, precision: nat) -> Seq<
    char,
> {
    "name: "@ + name + entries_text(listing, width, precision)
}

/// The message of the report on the totals `totals` of the work `name`, which
/// lists them as `order` asks and shows each in seconds, left-aligned in at
/// least `width` characters with `precision` digits after the decimal point.
pub open spec fn message_text(
    name: Seq<char>,
    totals: Totals,
    order: PrintOrder,
    width: nat,
    precision: nat,
) -> Seq<char> {
    report_text(name, listing_of(totals, order), width, precision)
}

/// Renders the message of a report. `totals` holds the accumulated
/// nanoseconds of each activity, in the order in which the activities were
/// first started.
pub fn render_message(
    name: &str,
    totals: &Vec<(&'static str, u128)>,
    order: PrintOrder,
    width: usize,
    precision: usize,
) -> (message: String)
    ensures
        message@ == message_text(
            name@,
            entries_of(totals@),
            order,
            width as nat,
            precision as nat,
        ),
{
    let listing = arrange(totals, order);
    let ghost listed = entries_of(listing@);
    let mut message = String::from_str("name: ");
    message.append(name);
    let mut done: usize = 0;
    while done < listing.len()
        invariant
            done <= listing.len(),
            listed == entries_of(listing@),
            message@ == report_text(
                name@,
                listed.take(done as int),
                width as nat,
                precision as nat,
            ),
        decreases listing.len() - done,
    {
        let (key, total) = listing[done];
        let field = format_seconds(total, width, precision);
        message.append(", ");
        message.append(key);
        message.append(": ");
        message.append(field.as_str());
        proof {
            let shown = listed.take(done + 1);
            assert(shown.drop_last() =~= listed.take(done as int));
            assert(shown.last() == (key@, total));
            assert(message@ =~= report_text(name@, shown, width as nat, precision as nat));
        }
        done += 1;
    }
    assert(listed.take(done as int) =~= listed);
    message
}

} // verus!
