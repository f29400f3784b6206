//! The error taxonomy of the ledger.

use vstd::prelude::*;

use crate::date::Date;

verus! {

/// Everything that can go wrong in the core: reading or writing the
/// ledger file (reported by the surrounding application), structurally
/// invalid persisted text, the validation failures caught before every
/// save, an unrecognized category token, and an invalid date.
#[derive(Clone, Copy, Debug, PartialEq, Eq, Structural)]
pub enum HoursError {
    /// The ledger file could not be read or written.
    IoError,
    /// The persisted text is structurally invalid; holds the byte
    /// offset at which parsing failed.
    ParseError(usize),
    /// A week entry whose `start` is not on the fixed week-start
    /// weekday; holds that start date.
    InvalidWeekStart(Date),
    /// A week entry whose `end` is not `start` plus six days; holds
    /// the entry's start date.
    InvalidWeekEnd(Date),
    /// A week entry with a negative hour value; holds the entry's
    /// start date.
    NegativeHours(Date),
    /// Two week entries share a start date; holds that date.
    DuplicateWeek(Date),
    /// A string that names none of the four category tokens.
    InvalidCategory,
    /// A date that does not exist in the calendar, or a date supplied
    /// where a week-start date was required.
    InvalidDate,
}

impl HoursError {
    /// A short machine-readable name of the error kind.
    pub fn kind(&self) -> (r: &'static str)
        ensures
            r@ == match *self {
                HoursError::IoError => "io"@,
                HoursError::ParseError(_) => "parse"@,
                HoursError::InvalidWeekStart(_) => "invalid_week_start"@,
                HoursError::InvalidWeekEnd(_) => "invalid_week_end"@,
                HoursError::NegativeHours(_) => "negative_hours"@,
                HoursError::DuplicateWeek(_) => "duplicate_week"@,
                HoursError::InvalidCategory => "invalid_category"@,
                HoursError::InvalidDate => "invalid_date"@,
            },
    {
        match *self {
            HoursError::IoError => "io",
            HoursError::ParseError(_) => "parse",
            HoursError::InvalidWeekStart(_) => "invalid_week_start",
            HoursError::InvalidWeekEnd(_) => "invalid_week_end",
            HoursError::NegativeHours(_) => "negative_hours",
            HoursError::DuplicateWeek(_) => "duplicate_week",
            HoursError::InvalidCategory => "invalid_category",
            HoursError::InvalidDate => "invalid_date",
        }
    }
}

} // verus!
