//! A verified progressive tax bracket engine.
//!
//! The core is the piecewise-linear marginal tax schedule: its
//! construction, the forward transforms from gross income to tax and
//! net income, the exact algebraic inverse from net back to gross, and
//! the bracket merge that combines independently specified schedules
//! into one without double counting.  All amounts are exact rationals
//! over arbitrary-precision integers, so every contract states exact
//! equality of values.
//!
//! Around the core: per-filing-status profiles, the static tables of
//! the supported jurisdictions, and the equivalent-income estimator
//! that nets an income at one place and inverts another place's
//! schedule.  The laws module states the engine's global properties —
//! round trip, monotonicity, bounds, and merge additivity — as proved
//! lemmas.

pub mod bignat;
pub mod ratspec;
pub mod rational;
pub mod sched_spec;
pub mod errors;
pub mod bounds;
pub mod brackets;
pub mod laws;
pub mod text;
pub mod system;
pub mod cfg;
pub mod loc;
pub mod citizen;
