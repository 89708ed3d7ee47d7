//! Configuration of a reporter.

use crate::level::Level;
use crate::order::PrintOrder;
use crate::reporter::{ReporterView, TimeReporter};
use vstd::prelude::*;

verus! {

/// Width of a total in a report, unless configured otherwise.
pub const DEFAULT_WIDTH: usize = 11;

/// Digits after the decimal point of a total, unless configured otherwise.
pub const DEFAULT_PRECISION: usize = 9;

/// What a reporter is configured with.
pub struct Config {
    /// Name of the unit of work.
    pub name: Seq<char>,
    /// Severity of the report.
    pub level: Level,
    /// Order in which the report lists the totals.
    pub print_order: PrintOrder,
    /// Least number of characters that a total takes in the report.
    pub width: nat,
    /// Digits after the decimal point of a total.
    pub precision: nat,
}

impl Config {
    /// The configuration that a builder starts from: the report is
    /// informational, lists the longest total first, and shows each total in
    /// at least 11 characters with 9 digits after the decimal point.
    pub open spec fn new(name: Seq<char>) -> Config {
        Config {
            name,
            level: Level::Info,
            print_order: PrintOrder::DecDuration,
            width: DEFAULT_WIDTH as nat,
            precision: DEFAULT_PRECISION as nat,
        }
    }
}

/// A configurable builder for a `TimeReporter`.
#[derive(Debug, PartialEq, Eq)]
pub struct TimeReporterBuilder {
    name: String,
    level: Level,
    print_order: PrintOrder,
    width: usize,
    precision: usize,
}

impl View for TimeReporterBuilder {
    type V = Config;

    closed spec fn view(&self) -> Config {
        Config {
            name: self.name@,
            level: self.level,
            print_order: self.print_order,
            width: self.width as nat,
            precision: self.precision as nat,
        }
    }
}

impl Clone for TimeReporterBuilder {
    /// A builder with the same configuration.
    fn clone(&self) -> (copy: Self)
        ensures
            copy@ == self@,
    {
        Self {
            name: self.name.clone(),
            level: self.level,
            print_order: self.print_order,
            width: self.width,
            precision: self.precision,
        }
    }
}

impl TimeReporterBuilder {
    /// Creates a builder for a reporter on the unit of work `name`, with the
    /// configuration that `Config::new` describes.
    pub fn new(name: &str) -> (builder: Self)
        ensures
            builder@ == Config::new(name@),
    {
        Self {
            name: name.to_owned(),
            level: Level::Info,
            print_order: PrintOrder::default(),
            width: DEFAULT_WIDTH,
            precision: DEFAULT_PRECISION,
        }
    }

    /// Creates a reporter with this configuration: it has accumulated
    /// nothing, measures nothing, and has not reported.
    #[must_use]
    pub fn build(&self) -> (reporter: TimeReporter)
        ensures
            reporter@ == ReporterView::fresh(self@),
    {
        TimeReporter::with_config(
            self.name.clone(),
            self.level,
            self.print_order,
            self.width,
            self.precision,
        )
    }

    /// Sets the severity of the report.
    pub fn level(&mut self, level: Level) -> (builder: &mut Self)
        ensures
            builder@ == (Config { level, ..old(self)@ }),
            *final(self) == *final(builder),
    {
        self.level = level;
        self
    }

    /// Sets the order in which the report lists the totals.
    pub fn print_order(&mut self, print_order: PrintOrder) -> (builder: &mut Self)
        ensures
            builder@ == (Config { print_order, ..old(self)@ }),
            *final(self) == *final(builder),
    {
        self.print_order = print_order;
        self
    }

    /// Sets the least number of characters that a total takes in the report.
    /// A total is left-aligned and padded with spaces. A width below
    /// `precision + 2`, which every total fills, changes nothing.
    pub fn width(&mut self, width: usize) -> (builder: &mut Self)
        ensures
            builder@ == (Config { width: width as nat, ..old(self)@ }),
            *final(self) == *final(builder),
    {
        self.width = width;
        self
    }

    /// Sets the number of digits after the decimal point of a total.
    pub fn precision(&mut self, precision: usize) -> (builder: &mut Self)
        ensures
            builder@ == (Config { precision: precision as nat, ..old(self)@ }),
            *final(self) == *final(builder),
    {
        self.precision = precision;
        self
    }
}

} // verus!
