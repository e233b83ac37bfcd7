//! The error taxonomy of the engine.

use vstd::prelude::*;

verus! {

/// How building or combining a schedule can fail, and what the
/// orchestration reports when a request cannot be served.
#[derive(Debug, Clone, Copy, PartialEq, Eq, Structural)]
pub enum TaxError {
    /// The number of rates is not one more than the number of separators.
    WrongRateCount,
    /// A marginal rate lies outside the permitted `[0, 1)` range.
    RateOutOfRange,
    /// The separators are not strictly increasing.
    SeparatorsOutOfOrder,
    /// No tax data is on file for the requested place.
    UnsupportedLocation,
    /// Recurring expenses exceed the net income that must cover them.
    ExpensesExceedIncome,
}

/// How parsing a command-line word into a library value can fail.
#[derive(Debug, Clone, Copy, PartialEq, Eq, Structural)]
pub enum ParseError {
    /// The filing status is not one of the known names.
    UnknownStatus,
    /// The analysis mode is not one of the known names.
    UnknownMode,
    /// The state is not one of the known names.
    UnknownState,
    /// The country is not one of the known names.
    UnknownCountry,
}

} // verus!
