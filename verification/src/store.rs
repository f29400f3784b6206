//! The ledger store: validation, ordering and the persisted byte form.
//!
//! Loading is permissive: any structurally well-formed text is
//! accepted. Saving is strict: every entry must start on the fixed
//! week-start weekday, end six days later and hold no negative value,
//! and no two entries may share a start date. The checks run in full
//! before a single byte of output exists, so a failed save never
//! produces partial text.

use vstd::prelude::*;
use vstd::seq_lib::{lemma_multiset_commutative, to_multiset_update};

use crate::date::{lemma_index_injective, Date};
use crate::error::HoursError;
use crate::model::{HoursData, WeekEntry};
use crate::week::spec_is_tuesday;

verus! {

/// What save-time validation finds wrong with a single entry, if
/// anything: a start off the week-start weekday (or no calendar date
/// at all), an end other than start plus six days, or a negative hour
/// value — the first of these, in that order.
pub open spec fn spec_entry_error(e: WeekEntry) -> Option<HoursError> {
    if !(e.start.valid() && spec_is_tuesday(e.start)) {
        Some(HoursError::InvalidWeekStart(e.start))
    } else if !(e.end.valid() && e.end.index() == e.start.index() + 6) {
        Some(HoursError::InvalidWeekEnd(e.start))
    } else if e.individual_supervision < 0 || e.group_supervision < 0 || e.direct < 0
        || e.indirect < 0 {
        Some(HoursError::NegativeHours(e.start))
    } else {
        None
    }
}

pub open spec fn spec_entry_valid(e: WeekEntry) -> bool {
    spec_entry_error(e) is None
}

pub open spec fn spec_entries_valid(s: Seq<WeekEntry>) -> bool {
    forall|i: int| 0 <= i < s.len() ==> spec_entry_valid(#[trigger] s[i])
}

/// The error of the first invalid entry, in entry order.
pub open spec fn spec_first_entry_error(s: Seq<WeekEntry>) -> Option<HoursError>
    decreases s.len(),
{
    if s.len() == 0 {
        None
    } else if spec_entry_error(s[0]) is Some {
        spec_entry_error(s[0])
    } else {
        spec_first_entry_error(s.drop_first())
    }
}

/// Entries in ascending order of their start dates.
pub open spec fn spec_sorted(s: Seq<WeekEntry>) -> bool {
    forall|i: int, j: int|
        0 <= i < j < s.len() ==> (#[trigger] s[i]).start.index() <= (#[trigger] s[j]).start.index()
}

/// No two entries share a start date.
pub open spec fn spec_unique_starts(s: Seq<WeekEntry>) -> bool {
    forall|i: int, j: int|
        0 <= i < j < s.len() ==> (#[trigger] s[i]).start != (#[trigger] s[j]).start
}

proof fn lemma_first_entry_error_none(s: Seq<WeekEntry>)
    ensures
        (spec_first_entry_error(s) is None) == spec_entries_valid(s),
    decreases s.len(),
{
    if s.len() > 0 {
        lemma_first_entry_error_none(s.drop_first());
        if spec_entry_error(s[0]) is None && spec_entries_valid(s.drop_first()) {
            assert forall|i: int| 0 <= i < s.len() implies spec_entry_valid(#[trigger] s[i]) by {
                if i > 0 {
                    assert(s.drop_first()[i - 1] == s[i]);
                }
            }
        }
        if spec_entries_valid(s) {
            assert forall|i: int| 0 <= i < s.drop_first().len() implies spec_entry_valid(
                #[trigger] s.drop_first()[i],
            ) by {
                assert(s.drop_first()[i] == s[i + 1]);
            }
        }
    }
}

/// Checks one entry, reporting the first violation in the fixed order.
fn check_entry(e: &WeekEntry) -> (r: Option<HoursError>)
    ensures
        r == spec_entry_error(*e),
{
    if !(e.start.check_valid() && e.start.day_index() % 7 == 1) {
        return Some(HoursError::InvalidWeekStart(e.start));
    }
    proof {
        crate::date::lemma_index_bounds(e.start);
    }
    if !(e.end.check_valid() && e.end.day_index() == e.start.day_index() + 6) {
        Some(HoursError::InvalidWeekEnd(e.start))
    } else if e.individual_supervision < 0 || e.group_supervision < 0 || e.direct < 0
        || e.indirect < 0 {
        Some(HoursError::NegativeHours(e.start))
    } else {
        None
    }
}

/// Checks every entry, reporting the first invalid one.
fn validate_entries(weeks: &Vec<WeekEntry>) -> (r: Option<HoursError>)
    ensures
        r == spec_first_entry_error(weeks@),
        (r is None) == spec_entries_valid(weeks@),
{
    proof {
        lemma_first_entry_error_none(weeks@);
        assert(weeks@.subrange(0, weeks@.len() as int) =~= weeks@);
    }
    let mut i: usize = 0;
    while i < weeks.len()
        invariant
            i <= weeks@.len(),
            forall|j: int| 0 <= j < i ==> spec_entry_valid(#[trigger] weeks@[j]),
            spec_first_entry_error(weeks@) == spec_first_entry_error(weeks@.subrange(
                i as int,
                weeks@.len() as int,
            )),
        decreases weeks@.len() - i,
    {
        let r = check_entry(&weeks[i]);
        proof {
            let tail = weeks@.subrange(i as int, weeks@.len() as int);
            assert(tail[0] == weeks@[i as int]);
            assert(tail.drop_first() =~= weeks@.subrange(i + 1, weeks@.len() as int));
        }
        if let Some(e) = r {
            return Some(e);
        }
        i = i + 1;
    }
    proof {
        assert(weeks@.subrange(i as int, weeks@.len() as int).len() == 0);
        lemma_first_entry_error_none(weeks@);
    }
    None
}

/// Sorts entries ascending by start date, by insertion sort; the
/// collection of entries is unchanged.
fn sort_entries(weeks: &mut Vec<WeekEntry>)
    requires
        forall|i: int| 0 <= i < old(weeks)@.len() ==> (#[trigger] old(weeks)@[i]).start.valid(),
    ensures
        final(weeks)@.to_multiset() == old(weeks)@.to_multiset(),
        final(weeks)@.len() == old(weeks)@.len(),
        spec_sorted(final(weeks)@),
        forall|i: int| 0 <= i < final(weeks)@.len() ==> (#[trigger] final(weeks)@[i]).start.valid(),
{
    let n = weeks.len();
    let mut i: usize = 1;
    if n < 2 {
        return ;
    }
    while i < n
        invariant
            1 <= i <= n,
            n == weeks@.len(),
            weeks@.to_multiset() == old(weeks)@.to_multiset(),
            forall|p: int, q: int|
                0 <= p < q < i ==> (#[trigger] weeks@[p]).start.index() <= (
                #[trigger] weeks@[q]).start.index(),
            forall|k: int| 0 <= k < n ==> (#[trigger] weeks@[k]).start.valid(),
        decreases n - i,
    {
        let mut j: usize = i;
        while j > 0 && weeks[j].start.day_index() < weeks[j - 1].start.day_index()
            invariant
                0 <= j <= i < n,
                n == weeks@.len(),
                weeks@.to_multiset() == old(weeks)@.to_multiset(),
                forall|k: int| 0 <= k < n ==> (#[trigger] weeks@[k]).start.valid(),
                // sorted on 0..=i except at position j
                forall|p: int, q: int|
                    0 <= p < q <= i && q != j ==> (#[trigger] weeks@[p]).start.index() <= (
                    #[trigger] weeks@[q]).start.index(),
                forall|q: int|
                    j + 1 < q <= i ==> (#[trigger] weeks@[j as int]).start.index()
                        <= weeks@[q].start.index(),
            decreases j,
        {
            let ghost pre = weeks@;
            let a = weeks[j - 1];
            let b = weeks[j];
            weeks[j - 1] = b;
            let ghost mid = weeks@;
            weeks[j] = a;
            proof {
                broadcast use to_multiset_update;

                assert(mid == pre.update(j - 1, b));
                assert(mid[j as int] == b);
                assert(weeks@.to_multiset() == mid.to_multiset().insert(a).remove(b));
                assert(mid.to_multiset() == pre.to_multiset().insert(b).remove(a));
                assert(pre.to_multiset().contains(a)) by {
                    broadcast use vstd::seq_lib::group_to_multiset_ensures;

                    assert(pre.contains(a));
                }
                assert(weeks@.to_multiset() =~= pre.to_multiset());
            }
            j = j - 1;
        }
        i = i + 1;
    }
}

/// Validates and sorts a snapshot of the ledger. Returns the sorted
/// copy exactly when every entry is valid and no start date repeats;
/// the caller's ledger is never changed.
pub fn prepare_for_save(data: &HoursData) -> (r: Result<HoursData, HoursError>)
    ensures
        r is Ok <==> spec_entries_valid(data.weeks@) && spec_unique_starts(data.weeks@),
        match r {
            Ok(out) => {
                &&& out.weeks@.to_multiset() == data.weeks@.to_multiset()
                &&& out.weeks@.len() == data.weeks@.len()
                &&& spec_sorted(out.weeks@)
                &&& spec_entries_valid(out.weeks@)
                &&& spec_unique_starts(out.weeks@)
            },
            Err(e) => {
                if spec_first_entry_error(data.weeks@) is Some {
                    Some(e) == spec_first_entry_error(data.weeks@)
                } else {
                    exists|i: int, j: int|
                        0 <= i < j < data.weeks@.len() && (#[trigger] data.weeks@[i]).start == (
                        #[trigger] data.weeks@[j]).start && e == HoursError::DuplicateWeek(
                            data.weeks@[j].start,
                        )
                }
            },
        },
{
    if let Some(e) = validate_entries(&data.weeks) {
        return Err(e);
    }
    let mut weeks: Vec<WeekEntry> = Vec::new();
    let mut i: usize = 0;
    while i < data.weeks.len()
        invariant
            i <= data.weeks@.len(),
            weeks@ =~= data.weeks@.subrange(0, i as int),
        decreases data.weeks@.len() - i,
    {
        weeks.push(data.weeks[i]);
        i = i + 1;
    }
    proof {
        assert(weeks@ =~= data.weeks@);
        assert(spec_entries_valid(weeks@));
        assert forall|k: int| 0 <= k < weeks@.len() implies (#[trigger] weeks@[k]).start.valid() by {
            assert(spec_entry_valid(weeks@[k]));
        }
    }
    sort_entries(&mut weeks);
    proof {
        broadcast use vstd::seq_lib::group_to_multiset_ensures;

        assert forall|k: int| 0 <= k < weeks@.len() implies spec_entry_valid(
            #[trigger] weeks@[k],
        ) by {
            assert(weeks@.to_multiset().count(weeks@[k]) > 0);
            assert(data.weeks@.contains(weeks@[k]));
        }
    }
    // adjacent duplicate scan over the sorted copy
    let mut k: usize = 1;
    while k < weeks.len()
        invariant
            1 <= k <= weeks@.len() || weeks@.len() == 0,
            weeks@.to_multiset() == data.weeks@.to_multiset(),
            weeks@.len() == data.weeks@.len(),
            spec_first_entry_error(data.weeks@) is None,
            spec_sorted(weeks@),
            spec_entries_valid(weeks@),
            forall|p: int|
                0 < p < k ==> (#[trigger] weeks@[p]).start.index() != weeks@[p - 1].start.index(),
        decreases weeks@.len() - k,
    {
        if weeks[k].start.day_index() == weeks[k - 1].start.day_index() {
            proof {
                lemma_index_injective(weeks@[k as int].start, weeks@[k - 1].start);
                broadcast use vstd::seq_lib::group_to_multiset_ensures;

                // the duplicated start also occurs twice in the input
                lemma_dup_in_permutation(weeks@, data.weeks@, k - 1, k as int);
                let (p, q): (int, int) = choose|p: int, q: int|
                    0 <= p < q < data.weeks@.len() && (#[trigger] data.weeks@[p]).start == (
                    #[trigger] data.weeks@[q]).start && data.weeks@[q].start == weeks@[
                        k - 1
                    ].start;
                assert(data.weeks@[p].start == data.weeks@[q].start);
                assert(weeks@[k as int].start == data.weeks@[q].start);
            }
            return Err(HoursError::DuplicateWeek(weeks[k].start));
        }
        k = k + 1;
    }
    proof {
        assert forall|p: int, q: int|
            0 <= p < q < weeks@.len() implies (#[trigger] weeks@[p]).start != (
        #[trigger] weeks@[q]).start by {
            if weeks@[p].start == weeks@[q].start {
                // in sorted order a repeated start forces an adjacent repeat
                assert(weeks@[p].start.index() <= weeks@[q - 1].start.index());
                assert(weeks@[q - 1].start.index() <= weeks@[q].start.index());
            }
        }
        lemma_unique_in_permutation(weeks@, data.weeks@);
    }
    Ok(HoursData { weeks })
}

/// Validates, sorts and serializes the ledger: the persisted bytes of
/// the sorted snapshot, exactly when every entry is valid and no start
/// date repeats. Nothing is produced on failure, so a failed save can
/// leave no partial text behind.
pub fn save(data: &HoursData) -> (r: Result<Vec<u8>, HoursError>)
    ensures
        r is Ok <==> spec_entries_valid(data.weeks@) && spec_unique_starts(data.weeks@),
        match r {
            Ok(b) => exists|w: Seq<WeekEntry>|
                {
                    &&& #[trigger] crate::json::spec_ledger_text(w) == b@
                    &&& w.to_multiset() == data.weeks@.to_multiset()
                    &&& w.len() == data.weeks@.len()
                    &&& spec_sorted(w)
                    &&& spec_entries_valid(w)
                    &&& spec_unique_starts(w)
                },
            Err(e) => {
                if spec_first_entry_error(data.weeks@) is Some {
                    Some(e) == spec_first_entry_error(data.weeks@)
                } else {
                    exists|i: int, j: int|
                        0 <= i < j < data.weeks@.len() && (#[trigger] data.weeks@[i]).start == (
                        #[trigger] data.weeks@[j]).start && e == HoursError::DuplicateWeek(
                            data.weeks@[j].start,
                        )
                }
            },
        },
{
    match prepare_for_save(data) {
        Err(e) => Err(e),
        Ok(sorted) => {
            proof {
                assert forall|i: int|
                    0 <= i < sorted.weeks@.len() implies crate::json::spec_entry_printable(
                    #[trigger] sorted.weeks@[i],
                ) by {
                    assert(spec_entry_valid(sorted.weeks@[i]));
                }
            }
            let b = crate::json::to_bytes(&sorted);
            proof {
                assert(crate::json::spec_ledger_text(sorted.weeks@) == b@);
            }
            Ok(b)
        },
    }
}

/// Deserializes persisted bytes into a ledger, permissively: only the
/// structure is checked, no ledger invariant.
pub fn load(bytes: &[u8]) -> (r: Result<HoursData, HoursError>)
    ensures
        match r {
            Ok(d) => crate::parse::spec_parse_ledger(bytes@) == Some(d.weeks@),
            Err(e) => crate::parse::spec_parse_ledger(bytes@) is None && e is ParseError,
        },
{
    crate::parse::from_bytes(bytes)
}

/// Saving then loading preserves every field exactly and yields the
/// weeks in the saved order: the text that [`save`] writes for a
/// ledger of valid entries (by its contract, the sorted snapshot of
/// the caller's entries) parses back, and [`load`] hands back exactly
/// those entries.
pub proof fn lemma_save_load_round_trip(w: Seq<WeekEntry>)
    requires
        spec_entries_valid(w),
    ensures
        crate::parse::spec_parse_ledger(crate::json::spec_ledger_text(w)) == Some(w),
{
    assert forall|i: int|
        0 <= i < w.len() implies crate::json::spec_entry_printable(#[trigger] w[i]) by {
        assert(spec_entry_valid(w[i]));
    }
    crate::parse::lemma_parse_ledger_print(w);
}

/// Two positions of one start date in `s` yield two positions of it in
/// any sequence with the same entries.
proof fn lemma_dup_in_permutation(s: Seq<WeekEntry>, t: Seq<WeekEntry>, i: int, j: int)
    requires
        s.to_multiset() == t.to_multiset(),
        0 <= i < j < s.len(),
        s[i].start == s[j].start,
    ensures
        exists|p: int, q: int|
            0 <= p < q < t.len() && (#[trigger] t[p]).start == (#[trigger] t[q]).start
                && t[q].start == s[i].start,
{
    broadcast use vstd::seq_lib::group_to_multiset_ensures;

    if s[i] == s[j] {
        // the very entry occurs at least twice, hence twice in t
        let x = s[i];
        assert(s.remove(j).to_multiset() == s.to_multiset().remove(x));
        assert(s.remove(j)[i] == x);
        assert(s.remove(j).contains(x));
        assert(s.to_multiset().remove(x).count(x) > 0);
        assert(t.to_multiset().count(x) >= 2);
        assert(t.contains(x));
        let p = choose|p: int| 0 <= p < t.len() && t[p] == x;
        assert(t.remove(p).to_multiset() == t.to_multiset().remove(x));
        assert(t.remove(p).to_multiset().count(x) > 0);
        assert(t.remove(p).contains(x));
        let q0 = choose|q: int| 0 <= q < t.remove(p).len() && t.remove(p)[q] == x;
        if q0 < p {
            assert(t[q0] == x);
            assert(t[q0].start == t[p].start);
        } else {
            assert(t[q0 + 1] == x);
            assert(t[p].start == t[q0 + 1].start);
        }
    } else {
        let x = s[i];
        let y = s[j];
        assert(s.remove(j).to_multiset() == s.to_multiset().remove(y));
        assert(s.remove(j)[i] == x);
        assert(s.remove(j).contains(x));
        assert(t.to_multiset().remove(y).count(x) > 0);
        assert(t.to_multiset().count(y) > 0);
        assert(t.contains(y));
        let p = choose|p: int| 0 <= p < t.len() && t[p] == y;
        assert(t.remove(p).to_multiset() == t.to_multiset().remove(y));
        assert(t.remove(p).to_multiset().count(x) > 0);
        assert(t.remove(p).contains(x));
        let q0 = choose|q: int| 0 <= q < t.remove(p).len() && t.remove(p)[q] == x;
        if q0 < p {
            assert(t[q0] == x);
            assert(t[q0].start == t[p].start);
        } else {
            assert(t[q0 + 1] == x);
            assert(t[p].start == t[q0 + 1].start);
        }
    }
}

/// If no start repeats in `s`, none repeats in any sequence with the
/// same entries.
proof fn lemma_unique_in_permutation(s: Seq<WeekEntry>, t: Seq<WeekEntry>)
    requires
        s.to_multiset() == t.to_multiset(),
        spec_unique_starts(s),
    ensures
        spec_unique_starts(t),
{
    if !spec_unique_starts(t) {
        let (p, q): (int, int) = choose|p: int, q: int|
            0 <= p < q < t.len() && (#[trigger] t[p]).start == (#[trigger] t[q]).start;
        lemma_dup_in_permutation(t, s, p, q);
    }
}

} // verus!
