//! Week-bucketed ledger of counseling supervision hours.
//!
//! The crate records hour values per fixed tracking week (a seven-day
//! window pinned to a Tuesday start), validates and sorts the ledger
//! before it is serialized, parses the persisted form back, and derives
//! progress statistics against licensure targets.
//!
//! Hour values are held in thousandths of an hour, so that sums,
//! comparisons and the rounding of displayed figures are exact integer
//! arithmetic. Dates are plain year/month/day triples in the proleptic
//! Gregorian calendar with verified arithmetic over a day index.

pub mod cli;
pub mod config;
pub mod date;
pub mod error;
pub mod json;
pub mod model;
pub mod parse;
pub mod progress;
pub mod store;
pub mod text;
pub mod ui;
pub mod week;
