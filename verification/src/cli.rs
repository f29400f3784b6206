//! The command model: which command was asked for, with which
//! arguments, and the pure decisions each command rests on.
//!
//! The surrounding application parses the command line and hands the
//! values over pre-parsed: dates as [`Date`], hour values in
//! thousandths. The decisions — which week a value lands in, whether
//! the arguments are acceptable, how the ledger changes — are made
//! here and verified; the application only loads, saves and prints.

use vstd::prelude::*;

use crate::date::{max_date, Date};
use crate::error::HoursError;
use crate::model::{Category, HoursData, WeekEntry};
use crate::week::{spec_is_tuesday, spec_week_start, week_containing};

verus! {

/// Arguments of `init`.
#[derive(Clone, Debug)]
pub struct InitArgs {
    pub data_dir: Option<String>,
    pub remote: Option<String>,
    pub start_date: Option<Date>,
    pub non_interactive: bool,
}

/// Arguments of `add`: the target week, the category, and the hours
/// to add in thousandths.
#[derive(Clone, Debug)]
pub struct AddArgs {
    pub week: Option<Date>,
    pub category: Option<Category>,
    pub hours: Option<i64>,
    pub non_interactive: bool,
}

/// Arguments of `edit`: the target week and the values to overwrite,
/// in thousandths.
#[derive(Clone, Debug)]
pub struct EditArgs {
    pub week: Option<Date>,
    pub individual_supervision: Option<i64>,
    pub group_supervision: Option<i64>,
    pub direct: Option<i64>,
    pub indirect: Option<i64>,
    pub non_interactive: bool,
}

/// Arguments of `list`.
#[derive(Clone, Debug)]
pub struct ListArgs {
    pub json: bool,
    pub last: Option<usize>,
}

/// Arguments of `summary`.
#[derive(Clone, Debug)]
pub struct SummaryArgs {
    pub json: bool,
}

/// Arguments of `export`.
#[derive(Clone, Debug)]
pub struct ExportArgs {
    pub output: Option<String>,
    pub open: bool,
}

/// One invocation's command.
#[derive(Clone, Debug)]
pub enum Command {
    Init(InitArgs),
    Add(AddArgs),
    Edit(EditArgs),
    List(ListArgs),
    Summary(SummaryArgs),
    Export(ExportArgs),
}

/// One invocation: the command and the global git switch.
#[derive(Clone, Debug)]
pub struct Cli {
    pub command: Command,
    pub no_git: bool,
}

/// Dispatches an invocation: the command to perform, and whether git
/// syncing is disabled for it.
pub fn run(cli: Cli) -> (r: (Command, bool))
    ensures
        r.0 == cli.command,
        r.1 == cli.no_git,
{
    (cli.command, cli.no_git)
}

/// The week a command addresses: the given date, which must be a
/// valid week-start date, or the current week when none is given.
pub fn resolve_week(week: Option<Date>, today: Date) -> (r: Result<Date, HoursError>)
    requires
        today.valid(),
        today.index() >= 6,
        today.index() + 6 <= max_date().index(),
    ensures
        match r {
            Ok(d) => {
                &&& match week {
                    Some(w) => d == w && w.valid() && spec_is_tuesday(w),
                    None => d == spec_week_start(today),
                }
                &&& d.valid()
                &&& spec_is_tuesday(d)
            },
            Err(e) => {
                &&& e == HoursError::InvalidDate
                &&& match week {
                    Some(w) => !(w.valid() && spec_is_tuesday(w)),
                    None => false,
                }
            },
        },
{
    match week {
        Some(w) => {
            if w.check_valid() && crate::week::is_tuesday(w) {
                Ok(w)
            } else {
                Err(HoursError::InvalidDate)
            }
        },
        None => Ok(week_containing(today).0),
    }
}

/// The first position of the entry for `week_start`, or -1.
pub open spec fn spec_find_week(s: Seq<WeekEntry>, week_start: Date) -> int
    decreases s.len(),
{
    if s.len() == 0 {
        -1
    } else if s[0].start == week_start {
        0
    } else {
        let r = spec_find_week(s.drop_first(), week_start);
        if r == -1 {
            -1
        } else {
            r + 1
        }
    }
}

proof fn lemma_find_week(s: Seq<WeekEntry>, week_start: Date)
    ensures
        -1 <= spec_find_week(s, week_start) < s.len(),
        spec_find_week(s, week_start) >= 0 ==> s[spec_find_week(s, week_start)].start == week_start,
        spec_find_week(s, week_start) == -1 ==> forall|i: int|
            0 <= i < s.len() ==> (#[trigger] s[i]).start != week_start,
        forall|i: int|
            0 <= i < spec_find_week(s, week_start) ==> (#[trigger] s[i]).start != week_start,
    decreases s.len(),
{
    if s.len() > 0 && s[0].start != week_start {
        lemma_find_week(s.drop_first(), week_start);
        assert forall|i: int| 1 <= i < s.len() implies s.drop_first()[i - 1] == (
        #[trigger] s[i]) by {}
    }
}

/// Finds the entry for `week_start`, or appends a fresh one for the
/// window `(week_start, week_end)`; returns its position.
fn find_or_insert(data: &mut HoursData, week_start: Date, week_end: Date) -> (idx: usize)
    ensures
        ({
            let found = spec_find_week(old(data).weeks@, week_start);
            if found >= 0 {
                final(data).weeks@ == old(data).weeks@ && idx == found
            } else {
                final(data).weeks@ == old(data).weeks@.push(
                    WeekEntry {
                        start: week_start,
                        end: week_end,
                        individual_supervision: 0,
                        group_supervision: 0,
                        direct: 0,
                        indirect: 0,
                    },
                ) && idx == old(data).weeks@.len()
            }
        }),
        idx < final(data).weeks@.len(),
        final(data).weeks@[idx as int].start == week_start,
{
    proof {
        lemma_find_week(data.weeks@, week_start);
    }
    let n = data.weeks.len();
    let mut i: usize = 0;
    while i < n
        invariant
            i <= n,
            n == data.weeks@.len(),
            forall|j: int| 0 <= j < i ==> (#[trigger] data.weeks@[j]).start != week_start,
            spec_find_week(data.weeks@, week_start) >= 0 ==> spec_find_week(
                data.weeks@,
                week_start,
            ) >= i || data.weeks@[spec_find_week(data.weeks@, week_start)].start != week_start,
        decreases n - i,
    {
        let same = {
            let a = &data.weeks[i].start;
            a.year == week_start.year && a.month == week_start.month && a.day == week_start.day
        };
        if same {
            proof {
                lemma_find_week(data.weeks@, week_start);
            }
            return i;
        }
        i = i + 1;
    }
    proof {
        lemma_find_week(data.weeks@, week_start);
    }
    data.weeks.push(WeekEntry::new(week_start, week_end));
    n
}

/// Adds `value` to the entry of `week_start`, creating the entry with
/// the window `(week_start, week_end)` when the week is new: exactly
/// the entry addressed changes, by exactly an add of `value`.
pub fn apply_add(
    data: &mut HoursData,
    week_start: Date,
    week_end: Date,
    category: Category,
    value: i64,
)
    requires
        ({
            let found = spec_find_week(old(data).weeks@, week_start);
            found >= 0 ==> i64::MIN <= old(data).weeks@[found].spec_get(category) + value
                <= i64::MAX
        }),
    ensures
        ({
            let found = spec_find_week(old(data).weeks@, week_start);
            if found >= 0 {
                final(data).weeks@ == old(data).weeks@.update(
                    found,
                    old(data).weeks@[found].spec_set(
                        category,
                        (old(data).weeks@[found].spec_get(category) + value) as i64,
                    ),
                )
            } else {
                final(data).weeks@ == old(data).weeks@.push(
                    WeekEntry {
                        start: week_start,
                        end: week_end,
                        individual_supervision: 0,
                        group_supervision: 0,
                        direct: 0,
                        indirect: 0,
                    }.spec_set(category, value),
                )
            }
        }),
{
    let idx = find_or_insert(data, week_start, week_end);
    let entry = &mut data.weeks[idx];
    entry.add(category, value);
    proof {
        let found = spec_find_week(old(data).weeks@, week_start);
        if found < 0 {
            assert(final(data).weeks@ =~= old(data).weeks@.push(
                WeekEntry {
                    start: week_start,
                    end: week_end,
                    individual_supervision: 0,
                    group_supervision: 0,
                    direct: 0,
                    indirect: 0,
                }.spec_set(category, value),
            ));
        }
    }
}

/// Overwrites one category of the entry of `week_start`, creating the
/// entry when the week is new.
pub fn apply_set(
    data: &mut HoursData,
    week_start: Date,
    week_end: Date,
    category: Category,
    value: i64,
)
    ensures
        ({
            let found = spec_find_week(old(data).weeks@, week_start);
            if found >= 0 {
                final(data).weeks@ == old(data).weeks@.update(
                    found,
                    old(data).weeks@[found].spec_set(category, value),
                )
            } else {
                final(data).weeks@ == old(data).weeks@.push(
                    WeekEntry {
                        start: week_start,
                        end: week_end,
                        individual_supervision: 0,
                        group_supervision: 0,
                        direct: 0,
                        indirect: 0,
                    }.spec_set(category, value),
                )
            }
        }),
{
    let idx = find_or_insert(data, week_start, week_end);
    let entry = &mut data.weeks[idx];
    entry.set(category, value);
    proof {
        let found = spec_find_week(old(data).weeks@, week_start);
        if found < 0 {
            assert(final(data).weeks@ =~= old(data).weeks@.push(
                WeekEntry {
                    start: week_start,
                    end: week_end,
                    individual_supervision: 0,
                    group_supervision: 0,
                    direct: 0,
                    indirect: 0,
                }.spec_set(category, value),
            ));
        }
    }
}

/// The last `n` entries (all of them when `n` covers the ledger):
/// what `list --last` shows.
pub fn last_weeks(data: &HoursData, n: usize) -> (r: Vec<WeekEntry>)
    ensures
        r@ == if n >= data.weeks@.len() {
            data.weeks@
        } else {
            data.weeks@.subrange(data.weeks@.len() - n, data.weeks@.len() as int)
        },
{
    let len = data.weeks.len();
    let lo = if n >= len {
        0
    } else {
        len - n
    };
    let mut out: Vec<WeekEntry> = Vec::new();
    let mut i = lo;
    while i < len
        invariant
            lo <= i <= len,
            len == data.weeks@.len(),
            out@ =~= data.weeks@.subrange(lo as int, i as int),
        decreases len - i,
    {
        out.push(data.weeks[i]);
        proof {
            assert(out@ =~= data.weeks@.subrange(lo as int, i + 1));
        }
        i = i + 1;
    }
    proof {
        if n >= len {
            assert(data.weeks@.subrange(0, len as int) =~= data.weeks@);
        }
    }
    out
}

} // verus!
