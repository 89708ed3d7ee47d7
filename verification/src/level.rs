//! Severity attached to a finished report.

use vstd::prelude::*;

verus! {

/// Severity of a report, from the most severe (`Error`) to the most verbose
/// (`Trace`).
#[derive(Copy, Clone, Debug, PartialEq, Eq, Structural, PartialOrd, Ord, Hash)]
pub enum Level {
    Error,
    Warn,
    Info,
    Debug,
    Trace,
}

} // verus!
