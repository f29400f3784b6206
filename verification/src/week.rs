//! The week calculator: pure arithmetic over tracking weeks.
//!
//! A tracking week is the seven-day window that starts on a Tuesday.
//! Day index 0 (0001-01-01) is a Monday, so a date is a Tuesday exactly
//! when its day index is 1 modulo 7.

use vstd::arithmetic::div_mod::{
    lemma_fundamental_div_mod, lemma_fundamental_div_mod_converse, lemma_mod_multiples_vanish,
};
use vstd::prelude::*;

use crate::date::{lemma_index_injective, max_date, Date};

verus! {

pub open spec fn spec_is_tuesday(d: Date) -> bool {
    d.index() % 7 == 1
}

/// `s` is the start of the tracking week that contains `d`: the most
/// recent Tuesday on or before `d`.
pub open spec fn week_start_of(d: Date, s: Date) -> bool {
    s.valid() && spec_is_tuesday(s) && s.index() <= d.index() < s.index() + 7
}

/// The start of the tracking week containing `d` (meaningful whenever
/// some valid Tuesday lies in the six days before `d`, which
/// [`week_containing`] guarantees through its precondition).
pub open spec fn spec_week_start(d: Date) -> Date {
    choose|s: Date| week_start_of(d, s)
}

/// No two distinct Tuesdays lie within one seven-day window, so the
/// week start of a date is unique.
pub proof fn lemma_week_start_unique(d: Date, s1: Date, s2: Date)
    requires
        week_start_of(d, s1),
        week_start_of(d, s2),
    ensures
        s1 == s2,
{
    let i1 = s1.index();
    let i2 = s2.index();
    lemma_fundamental_div_mod(i1, 7);
    lemma_fundamental_div_mod(i2, 7);
    assert(i1 - i2 == 7 * (i1 / 7 - i2 / 7)) by (nonlinear_arith)
        requires
            i1 == 7 * (i1 / 7) + 1,
            i2 == 7 * (i2 / 7) + 1,
    ;
    assert(i1 == i2) by (nonlinear_arith)
        requires
            i1 - i2 == 7 * (i1 / 7 - i2 / 7),
            -7 < i1 - i2 < 7,
    ;
    lemma_index_injective(s1, s2);
}

/// All dates of one seven-day window that starts on a Tuesday belong
/// to the same tracking week: if the window starting at `w` contains
/// both `d1` and `d2`, they share their week start (and with it the
/// whole `(start, end)` pair, since the end is start plus six days).
pub proof fn lemma_same_window_same_week(w: Date, d1: Date, d2: Date)
    requires
        week_start_of(d1, w),
        week_start_of(d2, w),
    ensures
        spec_week_start(d1) == spec_week_start(d2),
        spec_week_start(d1) == w,
{
    let s1 = choose|s: Date| week_start_of(d1, s);
    assert(week_start_of(d1, s1)) by {
        assert(week_start_of(d1, w));
    }
    lemma_week_start_unique(d1, s1, w);
    let s2 = choose|s: Date| week_start_of(d2, s);
    assert(week_start_of(d2, s2)) by {
        assert(week_start_of(d2, w));
    }
    lemma_week_start_unique(d2, s2, w);
}

/// A valid week-start date is the start of its own tracking week, whose
/// end is the date six days later.
pub proof fn lemma_week_of_week_start(s: Date)
    requires
        s.valid(),
        spec_is_tuesday(s),
    ensures
        spec_week_start(s) == s,
{
    assert(week_start_of(s, s));
    lemma_week_start_unique(s, choose|c: Date| week_start_of(s, c), s);
}

/// Whether `date` falls on the fixed week-start weekday.
pub fn is_tuesday(date: Date) -> (r: bool)
    requires
        date.valid(),
    ensures
        r == spec_is_tuesday(date),
{
    date.day_index() % 7 == 1
}

/// The tracking week containing `date`: its start is the most recent
/// Tuesday on or before `date`, its end is six days after the start.
/// Every date of one window maps to the same pair.
pub fn week_containing(date: Date) -> (r: (Date, Date))
    requires
        date.valid(),
        date.index() >= 6,
        date.index() + 6 <= max_date().index(),
    ensures
        week_start_of(date, r.0),
        r.0 == spec_week_start(date),
        r.1.valid(),
        r.1.index() == r.0.index() + 6,
{
    proof {
        crate::date::lemma_index_bounds(date);
    }
    let idx = date.day_index();
    let days_since_tuesday = (idx + 6) % 7;
    proof {
        let i = date.index();
        lemma_fundamental_div_mod(i + 6, 7);
        // start index is i - ((i + 6) % 7) == 7*((i + 6)/7) - 6, a Tuesday
        lemma_mod_multiples_vanish((i + 6) / 7, -6, 7);
    }
    let start = date.minus_days(days_since_tuesday);
    let end = start.plus_days(6);
    proof {
        assert(week_start_of(date, start));
        lemma_week_start_unique(date, start, spec_week_start(date));
    }
    (start, end)
}

/// The tracking week containing `today`.
pub fn current_week(today: Date) -> (r: (Date, Date))
    requires
        today.valid(),
        today.index() >= 6,
        today.index() + 6 <= max_date().index(),
    ensures
        week_start_of(today, r.0),
        r.0 == spec_week_start(today),
        r.1.valid(),
        r.1.index() == r.0.index() + 6,
{
    week_containing(today)
}

/// How many windows `all_weeks` yields: one per seven-day step from
/// `start` up to and including the week start `cs`.
pub open spec fn spec_week_count(start: Date, cs: Date) -> int {
    if cs.index() < start.index() {
        0
    } else {
        (cs.index() - start.index()) / 7 + 1
    }
}

/// Every seven-day window starting at `start_date`, stepping by seven
/// days, up to and including the window of `today`. `start_date` is
/// meant to be a valid week-start date; for any other date the windows
/// are still generated by fixed-step addition, without correction.
pub fn all_weeks(start_date: Date, today: Date) -> (r: Vec<(Date, Date)>)
    requires
        start_date.valid(),
        today.valid(),
        today.index() >= 6,
        today.index() + 6 <= max_date().index(),
    ensures
        r@.len() == spec_week_count(start_date, spec_week_start(today)),
        forall|i: int|
            0 <= i < r@.len() ==> {
                &&& (#[trigger] r@[i]).0.valid()
                &&& r@[i].1.valid()
                &&& r@[i].0.index() == start_date.index() + 7 * i
                &&& r@[i].1.index() == r@[i].0.index() + 6
            },
{
    let (cs, _) = week_containing(today);
    proof {
        crate::date::lemma_index_bounds(cs);
    }
    let cs_idx = cs.day_index();
    let mut weeks: Vec<(Date, Date)> = Vec::new();
    let mut ws = start_date;
    let mut ws_idx = start_date.day_index();
    while ws_idx <= cs_idx
        invariant
            cs == spec_week_start(today),
            cs.valid(),
            cs.index() <= today.index(),
            today.index() + 6 <= max_date().index(),
            cs_idx == cs.index(),
            cs_idx < 3_660_000,
            start_date.valid(),
            ws_idx == start_date.index() + 7 * weeks@.len(),
            weeks@.len() > 0 ==> start_date.index() + 7 * (weeks@.len() - 1) <= cs_idx,
            ws_idx <= cs_idx ==> ws.valid() && ws.index() == ws_idx,
            forall|i: int|
                0 <= i < weeks@.len() ==> {
                    &&& (#[trigger] weeks@[i]).0.valid()
                    &&& weeks@[i].1.valid()
                    &&& weeks@[i].0.index() == start_date.index() + 7 * i
                    &&& weeks@[i].1.index() == weeks@[i].0.index() + 6
                },
        decreases cs_idx + 7 - ws_idx,
    {
        let week_end = ws.plus_days(6);
        weeks.push((ws, week_end));
        ws_idx = ws_idx + 7;
        if ws_idx <= cs_idx {
            ws = ws.plus_days(7);
        }
    }
    proof {
        let s = start_date.index();
        let c = cs.index();
        let n = weeks@.len() as int;
        if s <= c {
            // s + 7*(n-1) <= c < s + 7*n pins (c - s) / 7 == n - 1
            lemma_fundamental_div_mod_converse(c - s, 7, n - 1, c - s - 7 * (n - 1));
        }
    }
    weeks
}

} // verus!
