//! A lightweight timer for one unit of work: it accumulates the time spent
//! on named activities and hands out one summary report when the work
//! finishes.
//!
//! A [`TimeReporter`] measures at most one activity at a time. Starting an
//! activity ends the one before it, whose time goes to its total. The report
//! lists the totals, in seconds, in a configurable order; it is handed out
//! once, and it counts the activity that is still measured when it is asked
//! for.
//!
//! The modules:
//!
//! - [`reporter`]: the reporter, and the model that its contracts speak of;
//! - [`builder`]: its configuration;
//! - [`report`]: the report and the text of its message;
//! - [`order`]: the order in which a report lists the totals;
//! - [`seconds`]: how a total is shown in seconds;
//! - [`key`]: the order of activity names;
//! - [`totals`]: the model of the accumulated totals;
//! - [`table`]: the table that holds them;
//! - [`clock`]: instants, and the clock that a reporter reads;
//! - [`level`]: the severity of a report;
//! - [`laws`]: what holds of a reporter over a whole unit of work.
//!
//! The library computes the report and leaves its emission to the caller.

pub mod builder;
pub mod clock;
pub mod key;
pub mod laws;
pub mod level;
pub mod order;
pub mod report;
pub mod reporter;
pub mod seconds;
pub mod table;
pub mod totals;

pub use builder::TimeReporterBuilder;
pub use level::Level;
pub use order::PrintOrder;
pub use report::Report;
pub use reporter::TimeReporter;
