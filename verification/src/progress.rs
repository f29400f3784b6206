//! The progress calculator: aggregate statistics of a ledger against
//! the licensure targets.
//!
//! Hour figures stay in thousandths of an hour; every displayed figure
//! (weekly average, the four percentages) is returned in tenths of its
//! unit, rounded half away from zero, so the rounding itself is exact
//! integer arithmetic.

use vstd::prelude::*;

use crate::date::{max_date, Date};
use crate::model::{Category, HoursData, WeekEntry};
use crate::week::{spec_week_start, week_containing};

verus! {

/// The licensure targets: period start (meant to fall on the fixed
/// week-start weekday), hour targets, minimum months, and the minimum
/// weekly average in thousandths of an hour.
#[derive(Clone, Copy, Debug, PartialEq, Eq, Structural)]
pub struct LicensureConfig {
    pub start_date: Date,
    pub total_hours_target: u32,
    pub direct_hours_target: u32,
    pub min_months: u32,
    pub min_weekly_average: i64,
}

/// Whole calendar months from `s` to `e`: the month difference,
/// reduced by one when `e`'s day of month has not yet reached `s`'s,
/// and never negative.
pub open spec fn spec_months_between(s: Date, e: Date) -> int {
    if e.index() < s.index() {
        0
    } else {
        let m = (e.year - s.year) * 12 + e.month - s.month - (if e.day < s.day {
            1int
        } else {
            0int
        });
        if m < 0 {
            0
        } else {
            m
        }
    }
}

/// Sum of the four hour values over all entries.
pub open spec fn spec_total_hours(s: Seq<WeekEntry>) -> int
    decreases s.len(),
{
    if s.len() == 0 {
        0
    } else {
        spec_total_hours(s.drop_last()) + s.last().spec_total()
    }
}

/// Sum of one category's values over all entries.
pub open spec fn spec_category_hours(s: Seq<WeekEntry>, c: Category) -> int
    decreases s.len(),
{
    if s.len() == 0 {
        0
    } else {
        spec_category_hours(s.drop_last(), c) + s.last().spec_get(c)
    }
}

/// How many entries record any hours at all.
pub open spec fn spec_weeks_logged(s: Seq<WeekEntry>) -> int
    decreases s.len(),
{
    if s.len() == 0 {
        0
    } else {
        spec_weeks_logged(s.drop_last()) + if s.last().spec_total() > 0 {
            1int
        } else {
            0int
        }
    }
}

/// Elapsed tracking weeks: the number of seven-day steps from the
/// period start to the current week start, plus one; at least one even
/// when the period start lies in the future.
pub open spec fn spec_weeks_elapsed(current_week_start: Date, start_date: Date) -> int {
    if current_week_start.index() >= start_date.index() {
        (current_week_start.index() - start_date.index()) / 7 + 1
    } else {
        1
    }
}

/// `n / d` rounded to the nearest integer, halves away from zero
/// (`d > 0`).
pub open spec fn spec_round_div(n: int, d: int) -> int {
    if n >= 0 {
        (2 * n + d) / (2 * d)
    } else {
        -((2 * (-n) + d) / (2 * d))
    }
}

/// The ratio `numer/denom` as tenths of a percent, rounded half away
/// from zero; exactly 0 when `denom` is not positive, whatever the
/// numerator.
pub open spec fn spec_pct_tenths(numer: int, denom: int) -> int {
    if denom <= 0 {
        0
    } else {
        spec_round_div(numer * 1000, denom)
    }
}

/// The derived statistics of §4.4: totals in thousandths of an hour,
/// whole months and weeks, and the displayed figures in tenths.
#[derive(Clone, Copy, Debug, PartialEq, Eq, Structural)]
pub struct Progress {
    /// Sum of all hour values, thousandths of an hour.
    pub total_hours: i128,
    /// Sum of the direct-category values, thousandths of an hour.
    pub direct_hours: i128,
    /// Whole calendar months elapsed since the period start.
    pub months_elapsed: u32,
    /// Elapsed tracking weeks, at least 1.
    pub weeks_elapsed: u32,
    /// Weekly average in tenths of an hour, rounded half away from zero.
    pub weekly_average_tenths: i128,
    /// Total hours against the total target, tenths of a percent.
    pub total_pct_tenths: i128,
    /// Direct hours against the direct target, tenths of a percent.
    pub direct_pct_tenths: i128,
    /// Months against the minimum months, tenths of a percent.
    pub months_pct_tenths: i128,
    /// Weekly average against the minimum average, tenths of a percent.
    pub avg_pct_tenths: i128,
    /// How many entries record any hours at all.
    pub weeks_logged: u64,
}

/// Bound used to keep the i128 sums far from overflow.
pub open spec fn entries_len_small(s: Seq<WeekEntry>) -> bool {
    s.len() <= 0x1000_0000
}

/// Whole calendar months from `start` to `end`; 0 when `end` precedes
/// `start`, and a partial final month does not count.
pub fn months_between(start: Date, end: Date) -> (r: u32)
    requires
        start.valid(),
        end.valid(),
    ensures
        r == spec_months_between(start, end),
{
    if end.day_index() < start.day_index() {
        return 0;
    }
    let years: i64 = end.year as i64 - start.year as i64;
    let mut months: i64 = years * 12 + end.month as i64 - start.month as i64;
    if end.day < start.day {
        months = months - 1;
    }
    if months < 0 {
        0
    } else {
        months as u32
    }
}

/// Sum of the four hour values over the whole ledger, exact.
pub fn total_hours(data: &HoursData) -> (r: i128)
    requires
        entries_len_small(data.weeks@),
    ensures
        r == spec_total_hours(data.weeks@),
{
    let mut acc: i128 = 0;
    let mut i: usize = 0;
    while i < data.weeks.len()
        invariant
            i <= data.weeks@.len(),
            entries_len_small(data.weeks@),
            acc == spec_total_hours(data.weeks@.subrange(0, i as int)),
            -0x40000000_00000000_00000000 <= acc <= 0x40000000_00000000_00000000,
        decreases data.weeks@.len() - i,
    {
        let e = &data.weeks[i];
        let t: i128 = e.individual_supervision as i128 + e.group_supervision as i128 + e.direct
            as i128 + e.indirect as i128;
        proof {
            lemma_sum_bound(data.weeks@.subrange(0, i as int));
            let pre = data.weeks@.subrange(0, i as int);
            let post = data.weeks@.subrange(0, i + 1);
            assert(post.drop_last() =~= pre);
        }
        acc = acc + t;
        i = i + 1;
    }
    proof {
        assert(data.weeks@.subrange(0, data.weeks@.len() as int) =~= data.weeks@);
    }
    acc
}

/// The total is at most `2^65` per entry.
proof fn lemma_sum_bound(s: Seq<WeekEntry>)
    ensures
        -(0x2_0000_0000_0000_0000) * s.len() <= spec_total_hours(s) <= 0x2_0000_0000_0000_0000
            * s.len(),
    decreases s.len(),
{
    if s.len() > 0 {
        lemma_sum_bound(s.drop_last());
        assert(0x2_0000_0000_0000_0000 * s.len() == 0x2_0000_0000_0000_0000 * (s.len() - 1)
            + 0x2_0000_0000_0000_0000) by (nonlinear_arith);
    }
}

/// Sum of one category's values over the whole ledger, exact.
pub fn category_hours(data: &HoursData, c: Category) -> (r: i128)
    requires
        entries_len_small(data.weeks@),
    ensures
        r == spec_category_hours(data.weeks@, c),
{
    let mut acc: i128 = 0;
    let mut i: usize = 0;
    while i < data.weeks.len()
        invariant
            i <= data.weeks@.len(),
            entries_len_small(data.weeks@),
            acc == spec_category_hours(data.weeks@.subrange(0, i as int), c),
            -0x40000000_00000000_00000000 <= acc <= 0x40000000_00000000_00000000,
        decreases data.weeks@.len() - i,
    {
        proof {
            lemma_category_sum_bound(data.weeks@.subrange(0, i as int), c);
            let pre = data.weeks@.subrange(0, i as int);
            let post = data.weeks@.subrange(0, i + 1);
            assert(post.drop_last() =~= pre);
        }
        acc = acc + data.weeks[i].get(c) as i128;
        i = i + 1;
    }
    proof {
        assert(data.weeks@.subrange(0, data.weeks@.len() as int) =~= data.weeks@);
    }
    acc
}

proof fn lemma_category_sum_bound(s: Seq<WeekEntry>, c: Category)
    ensures
        -(0x8000_0000_0000_0000) * s.len() <= spec_category_hours(s, c) <= 0x8000_0000_0000_0000
            * s.len(),
    decreases s.len(),
{
    if s.len() > 0 {
        lemma_category_sum_bound(s.drop_last(), c);
        assert(0x8000_0000_0000_0000 * s.len() == 0x8000_0000_0000_0000 * (s.len() - 1)
            + 0x8000_0000_0000_0000) by (nonlinear_arith);
    }
}

/// How many entries record any hours at all.
pub fn weeks_logged(data: &HoursData) -> (r: u64)
    requires
        entries_len_small(data.weeks@),
    ensures
        r == spec_weeks_logged(data.weeks@),
{
    let mut count: u64 = 0;
    let mut i: usize = 0;
    while i < data.weeks.len()
        invariant
            i <= data.weeks@.len(),
            entries_len_small(data.weeks@),
            count == spec_weeks_logged(data.weeks@.subrange(0, i as int)),
            count <= i,
        decreases data.weeks@.len() - i,
    {
        let e = &data.weeks[i];
        let t: i128 = e.individual_supervision as i128 + e.group_supervision as i128 + e.direct
            as i128 + e.indirect as i128;
        proof {
            let pre = data.weeks@.subrange(0, i as int);
            let post = data.weeks@.subrange(0, i + 1);
            assert(post.drop_last() =~= pre);
            lemma_weeks_logged_bound(pre);
        }
        if t > 0 {
            count = count + 1;
        }
        i = i + 1;
    }
    proof {
        assert(data.weeks@.subrange(0, data.weeks@.len() as int) =~= data.weeks@);
    }
    count
}

proof fn lemma_weeks_logged_bound(s: Seq<WeekEntry>)
    ensures
        0 <= spec_weeks_logged(s) <= s.len(),
    decreases s.len(),
{
    if s.len() > 0 {
        lemma_weeks_logged_bound(s.drop_last());
    }
}

/// `n / d` rounded to the nearest integer, halves away from zero.
pub fn round_div(n: i128, d: i128) -> (r: i128)
    requires
        0 < d < 0x8000_00000000_00000000_00000000,
        -0x8000_00000000_00000000_00000000 < n < 0x8000_00000000_00000000_00000000,
    ensures
        r == spec_round_div(n as int, d as int),
{
    if n >= 0 {
        (2 * n + d) / (2 * d)
    } else {
        -((2 * (-n) + d) / (2 * d))
    }
}

/// The ratio `numer/denom` in tenths of a percent, rounded half away
/// from zero. Exactly 0 whenever `denom <= 0`, whatever `numer`.
pub fn percentage_tenths(numer: i128, denom: i128) -> (r: i128)
    requires
        -0x10_00000000_00000000_00000000 < numer < 0x10_00000000_00000000_00000000,
        denom < 0x10_00000000_00000000_00000000,
    ensures
        r == spec_pct_tenths(numer as int, denom as int),
        denom <= 0 ==> r == 0,
{
    if denom <= 0 {
        0
    } else {
        round_div(numer * 1000, denom)
    }
}

/// Elapsed tracking weeks as of `today`, against the period start.
pub fn weeks_elapsed(today: Date, start_date: Date) -> (r: u32)
    requires
        today.valid(),
        start_date.valid(),
        today.index() >= 6,
        today.index() + 6 <= max_date().index(),
    ensures
        r == spec_weeks_elapsed(spec_week_start(today), start_date),
        r >= 1,
{
    let (cws, _) = week_containing(today);
    proof {
        crate::date::lemma_index_bounds(cws);
        crate::date::lemma_index_bounds(start_date);
    }
    let cws_idx = cws.day_index();
    let sd_idx = start_date.day_index();
    if cws_idx >= sd_idx {
        (cws_idx - sd_idx) / 7 + 1
    } else {
        1
    }
}

/// Derives every statistic of the summary from the ledger, the
/// targets, and today's date, in one pass.
pub fn compute_progress(data: &HoursData, config: &LicensureConfig, today: Date) -> (p: Progress)
    requires
        entries_len_small(data.weeks@),
        config.start_date.valid(),
        today.valid(),
        today.index() >= 6,
        today.index() + 6 <= max_date().index(),
    ensures
        p.total_hours == spec_total_hours(data.weeks@),
        p.direct_hours == spec_category_hours(data.weeks@, Category::Direct),
        p.months_elapsed == spec_months_between(config.start_date, today),
        p.weeks_elapsed == spec_weeks_elapsed(spec_week_start(today), config.start_date),
        p.weekly_average_tenths == spec_round_div(
            spec_total_hours(data.weeks@),
            100 * spec_weeks_elapsed(spec_week_start(today), config.start_date),
        ),
        p.total_pct_tenths == spec_pct_tenths(
            spec_total_hours(data.weeks@),
            config.total_hours_target * 1000,
        ),
        p.direct_pct_tenths == spec_pct_tenths(
            spec_category_hours(data.weeks@, Category::Direct),
            config.direct_hours_target * 1000,
        ),
        p.months_pct_tenths == spec_pct_tenths(
            spec_months_between(config.start_date, today),
            config.min_months as int,
        ),
        p.avg_pct_tenths == spec_pct_tenths(
            spec_total_hours(data.weeks@),
            spec_weeks_elapsed(spec_week_start(today), config.start_date)
                * config.min_weekly_average,
        ),
        p.weeks_logged == spec_weeks_logged(data.weeks@),
{
    let th = total_hours(data);
    let dh = category_hours(data, Category::Direct);
    let months = months_between(config.start_date, today);
    let weeks = weeks_elapsed(today, config.start_date);
    proof {
        lemma_sum_bound(data.weeks@);
        lemma_category_sum_bound(data.weeks@, Category::Direct);
    }
    let weekly_average_tenths = round_div(th, 100 * weeks as i128);
    let total_pct_tenths = percentage_tenths(th, config.total_hours_target as i128 * 1000);
    let direct_pct_tenths = percentage_tenths(dh, config.direct_hours_target as i128 * 1000);
    let months_pct_tenths = percentage_tenths(months as i128, config.min_months as i128);
    let wk = weeks as i128;
    let avg = config.min_weekly_average as i128;
    proof {
        assert(-0x10_00000000_00000000_00000000 < wk * avg
            < 0x10_00000000_00000000_00000000) by (nonlinear_arith)
            requires
                0 <= wk < 0x1_0000_0000,
                -0x8000_0000_0000_0000 <= avg < 0x8000_0000_0000_0000,
        ;
    }
    let avg_pct_tenths = percentage_tenths(th, wk * avg);
    let wl = weeks_logged(data);
    Progress {
        total_hours: th,
        direct_hours: dh,
        months_elapsed: months,
        weeks_elapsed: weeks,
        weekly_average_tenths,
        total_pct_tenths,
        direct_pct_tenths,
        months_pct_tenths,
        avg_pct_tenths,
        weeks_logged: wl,
    }
}

} // verus!
