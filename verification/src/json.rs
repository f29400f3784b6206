//! The persisted byte form of the ledger.
//!
//! A ledger is written as one object with a `weeks` array; each entry
//! holds its two dates as `YYYY-MM-DD` strings and the four hour
//! values as plain decimal numbers, laid out with two-space
//! indentation. [`spec_ledger_text`] is the exact byte sequence the
//! printer produces; the parser accepts that form (with free
//! whitespace between tokens) and hands back the entries.

use vstd::prelude::*;

use crate::date::Date;
use crate::model::{HoursData, WeekEntry};
use crate::text::{
    ascii_seq, is_digit, push_date, push_milli, push_str, spec_date_text, spec_milli_text,
};

verus! {

/// An entry can be written when its dates are real calendar dates and
/// its values are non-negative; every entry that passes save-time
/// validation can.
pub open spec fn spec_entry_printable(e: WeekEntry) -> bool {
    e.start.valid() && e.end.valid() && e.individual_supervision >= 0 && e.group_supervision >= 0
        && e.direct >= 0 && e.indirect >= 0
}

pub open spec fn spec_entries_printable(s: Seq<WeekEntry>) -> bool {
    forall|i: int| 0 <= i < s.len() ==> spec_entry_printable(#[trigger] s[i])
}

/// One entry object.
#[verifier::opaque]
pub open spec fn spec_entry_text(e: WeekEntry) -> Seq<u8> {
    ascii_seq("{\n      \"start\": \""@) + spec_date_text(e.start) + ascii_seq(
        "\",\n      \"end\": \""@,
    ) + spec_date_text(e.end) + ascii_seq("\",\n      \"individual_supervision\": "@)
        + spec_milli_text(e.individual_supervision as int) + ascii_seq(
        ",\n      \"group_supervision\": "@,
    ) + spec_milli_text(e.group_supervision as int) + ascii_seq(",\n      \"direct\": "@)
        + spec_milli_text(e.direct as int) + ascii_seq(",\n      \"indirect\": "@)
        + spec_milli_text(e.indirect as int) + ascii_seq("\n    }"@)
}

/// Second and later entries, each preceded by the separator.
pub open spec fn spec_entries_tail(s: Seq<WeekEntry>) -> Seq<u8>
    decreases s.len(),
{
    if s.len() == 0 {
        Seq::empty()
    } else {
        ascii_seq(",\n    "@) + spec_entry_text(s[0]) + spec_entries_tail(s.drop_first())
    }
}

/// The whole persisted text.
#[verifier::opaque]
pub open spec fn spec_ledger_text(s: Seq<WeekEntry>) -> Seq<u8> {
    if s.len() == 0 {
        ascii_seq("{\n  \"weeks\": []\n}"@)
    } else {
        ascii_seq("{\n  \"weeks\": ["@) + ascii_seq("\n    "@) + spec_entry_text(s[0])
            + spec_entries_tail(s.drop_first()) + ascii_seq("\n  ]\n}"@)
    }
}

proof fn lemma_entries_tail_snoc(s: Seq<WeekEntry>, e: WeekEntry)
    ensures
        spec_entries_tail(s.push(e)) == spec_entries_tail(s) + (ascii_seq(",\n    "@)
            + spec_entry_text(e)),
    decreases s.len(),
{
    if s.len() == 0 {
        reveal_with_fuel(spec_entries_tail, 3);
        assert(s.push(e).drop_first() =~= Seq::<WeekEntry>::empty());
        assert(s.push(e)[0] == e);
        assert(spec_entries_tail(s.push(e)) =~= spec_entries_tail(s) + (ascii_seq(",\n    "@)
            + spec_entry_text(e)));
    } else {
        assert(s.push(e).drop_first() =~= s.drop_first().push(e));
        lemma_entries_tail_snoc(s.drop_first(), e);
        assert(spec_entries_tail(s.push(e)) =~= spec_entries_tail(s) + (ascii_seq(",\n    "@)
            + spec_entry_text(e)));
    }
}

/// Appends one entry object.
fn push_entry(out: &mut Vec<u8>, e: &WeekEntry)
    requires
        spec_entry_printable(*e),
    ensures
        final(out)@ == old(out)@ + spec_entry_text(*e),
{
    proof {
        reveal_strlit("{\n      \"start\": \"");
        reveal_strlit("\",\n      \"end\": \"");
        reveal_strlit("\",\n      \"individual_supervision\": ");
        reveal_strlit(",\n      \"group_supervision\": ");
        reveal_strlit(",\n      \"direct\": ");
        reveal_strlit(",\n      \"indirect\": ");
        reveal_strlit("\n    }");
    }
    push_str(out, "{\n      \"start\": \"");
    push_date(out, &e.start);
    push_str(out, "\",\n      \"end\": \"");
    push_date(out, &e.end);
    push_str(out, "\",\n      \"individual_supervision\": ");
    push_milli(out, e.individual_supervision);
    push_str(out, ",\n      \"group_supervision\": ");
    push_milli(out, e.group_supervision);
    push_str(out, ",\n      \"direct\": ");
    push_milli(out, e.direct);
    push_str(out, ",\n      \"indirect\": ");
    push_milli(out, e.indirect);
    push_str(out, "\n    }");
    proof {
        reveal(spec_entry_text);
        assert(final(out)@ =~= old(out)@ + spec_entry_text(*e));
    }
}

/// Serializes the ledger to its persisted byte form.
pub fn to_bytes(data: &HoursData) -> (r: Vec<u8>)
    requires
        spec_entries_printable(data.weeks@),
    ensures
        r@ == spec_ledger_text(data.weeks@),
{
    let mut out: Vec<u8> = Vec::new();
    if data.weeks.len() == 0 {
        proof {
            reveal_strlit("{\n  \"weeks\": []\n}");
        }
        push_str(&mut out, "{\n  \"weeks\": []\n}");
        proof {
            reveal(spec_ledger_text);
            assert(out@ =~= spec_ledger_text(data.weeks@));
        }
        return out;
    }
    proof {
        reveal_strlit("{\n  \"weeks\": [");
        reveal_strlit("\n    ");
        reveal_strlit(",\n    ");
        reveal_strlit("\n  ]\n}");
    }
    push_str(&mut out, "{\n  \"weeks\": [");
    let mut i: usize = 0;
    while i < data.weeks.len()
        invariant
            0 <= i <= data.weeks@.len(),
            data.weeks@.len() > 0,
            spec_entries_printable(data.weeks@),
            i == 0 ==> out@ == ascii_seq("{\n  \"weeks\": ["@),
            i > 0 ==> out@ == ascii_seq("{\n  \"weeks\": ["@) + ascii_seq("\n    "@)
                + spec_entry_text(data.weeks@[0]) + spec_entries_tail(
                data.weeks@.subrange(1, i as int),
            ),
        decreases data.weeks@.len() - i,
    {
        proof {
            reveal_strlit("\n    ");
            reveal_strlit(",\n    ");
        }
        if i == 0 {
            push_str(&mut out, "\n    ");
            push_entry(&mut out, &data.weeks[0]);
            proof {
                assert(data.weeks@.subrange(1, 1) =~= Seq::<WeekEntry>::empty());
                assert(out@ =~= ascii_seq("{\n  \"weeks\": ["@) + ascii_seq("\n    "@)
                    + spec_entry_text(data.weeks@[0]) + spec_entries_tail(
                    data.weeks@.subrange(1, 1),
                ));
            }
        } else {
            push_str(&mut out, ",\n    ");
            push_entry(&mut out, &data.weeks[i]);
            proof {
                lemma_entries_tail_snoc(data.weeks@.subrange(1, i as int), data.weeks@[i as int]);
                assert(data.weeks@.subrange(1, i + 1) =~= data.weeks@.subrange(1, i as int).push(
                    data.weeks@[i as int],
                ));
                assert(out@ =~= ascii_seq("{\n  \"weeks\": ["@) + ascii_seq("\n    "@)
                    + spec_entry_text(data.weeks@[0]) + spec_entries_tail(
                    data.weeks@.subrange(1, i + 1),
                ));
            }
        }
        i = i + 1;
    }
    push_str(&mut out, "\n  ]\n}");
    proof {
        reveal(spec_ledger_text);
        assert(data.weeks@.subrange(1, data.weeks@.len() as int) =~= data.weeks@.drop_first());
        assert(out@ =~= spec_ledger_text(data.weeks@));
    }
    out
}

// ------------------------------------------------------------------
// Parsing. The spec functions below define exactly which byte
// sequences are structurally valid and what they denote; the exec
// parser returns precisely what they say. Positions index into the
// whole input.
// ------------------------------------------------------------------

pub open spec fn is_ws(b: u8) -> bool {
    b == 32 || b == 9 || b == 10 || b == 13
}

/// The first position at or after `i` that holds no whitespace.
pub open spec fn spec_skip_ws(s: Seq<u8>, i: int) -> int
    decreases s.len() - i,
{
    if 0 <= i < s.len() && is_ws(s[i]) {
        spec_skip_ws(s, i + 1)
    } else {
        i
    }
}

/// The first position at or after `i` that holds no decimal digit.
pub open spec fn spec_run_end(s: Seq<u8>, i: int) -> int
    decreases s.len() - i,
{
    if 0 <= i < s.len() && is_digit(s[i]) {
        spec_run_end(s, i + 1)
    } else {
        i
    }
}

/// The value of the decimal digits `s[i .. j)`.
pub open spec fn spec_digits_val(s: Seq<u8>, i: int, j: int) -> int
    decreases j - i,
{
    if j <= i {
        0
    } else {
        spec_digits_val(s, i, j - 1) * 10 + (s[j - 1] - 48)
    }
}

pub open spec fn pow10(k: int) -> int
    decreases k,
{
    if k <= 0 {
        1
    } else {
        10 * pow10(k - 1)
    }
}

pub(crate) proof fn lemma_skip_ws_bounds(s: Seq<u8>, i: int)
    requires
        0 <= i <= s.len(),
    ensures
        i <= spec_skip_ws(s, i) <= s.len(),
    decreases s.len() - i,
{
    if i < s.len() && is_ws(s[i]) {
        lemma_skip_ws_bounds(s, i + 1);
    }
}

pub(crate) proof fn lemma_run_end_bounds(s: Seq<u8>, i: int)
    requires
        0 <= i <= s.len(),
    ensures
        i <= spec_run_end(s, i) <= s.len(),
        forall|k: int| i <= k < spec_run_end(s, i) ==> is_digit(s[k]),
        spec_run_end(s, i) < s.len() ==> !is_digit(s[spec_run_end(s, i)]),
    decreases s.len() - i,
{
    if i < s.len() && is_digit(s[i]) {
        lemma_run_end_bounds(s, i + 1);
    }
}

pub(crate) proof fn lemma_digits_val_bound(s: Seq<u8>, i: int, j: int)
    requires
        i <= j,
        forall|k: int| i <= k < j ==> is_digit(#[trigger] s[k]),
    ensures
        0 <= spec_digits_val(s, i, j) < pow10(j - i),
    decreases j - i,
{
    if j > i {
        lemma_digits_val_bound(s, i, j - 1);
        assert(spec_digits_val(s, i, j - 1) * 10 + 9 < pow10(j - i - 1) * 10) by (nonlinear_arith)
            requires
                spec_digits_val(s, i, j - 1) < pow10(j - i - 1),
        ;
    }
}

pub(crate) proof fn lemma_pow10_16()
    ensures
        pow10(15) == 0x38d7ea4c68000,
        pow10(16) == 0x2386f26fc10000,
{
    reveal_with_fuel(pow10, 17);
}

pub(crate) proof fn lemma_pow10_small()
    ensures
        pow10(0) == 1,
        pow10(1) == 10,
        pow10(2) == 100,
        pow10(3) == 1000,
        pow10(4) == 10000,
{
    reveal_with_fuel(pow10, 6);
}

/// Skips whitespace.
pub(crate) fn skip_ws(s: &[u8], i: usize) -> (r: usize)
    requires
        i <= s@.len(),
    ensures
        r == spec_skip_ws(s@, i as int),
        i <= r <= s@.len(),
{
    let mut j = i;
    while j < s.len() && (s[j] == 32 || s[j] == 9 || s[j] == 10 || s[j] == 13)
        invariant
            i <= j <= s@.len(),
            spec_skip_ws(s@, i as int) == spec_skip_ws(s@, j as int),
        decreases s@.len() - j,
    {
        j = j + 1;
    }
    proof {
        lemma_skip_ws_bounds(s@, j as int);
    }
    j
}

/// Finds the end of a digit run.
pub(crate) fn run_end(s: &[u8], i: usize) -> (r: usize)
    requires
        i <= s@.len(),
    ensures
        r == spec_run_end(s@, i as int),
        i <= r <= s@.len(),
{
    let mut j = i;
    while j < s.len() && 48 <= s[j] && s[j] <= 57
        invariant
            i <= j <= s@.len(),
            spec_run_end(s@, i as int) == spec_run_end(s@, j as int),
        decreases s@.len() - j,
    {
        j = j + 1;
    }
    proof {
        lemma_run_end_bounds(s@, j as int);
    }
    j
}

/// The value of the digit run `s[i .. j)`, for runs of at most 16
/// digits.
pub(crate) fn digits_val(s: &[u8], i: usize, j: usize) -> (r: i64)
    requires
        i <= j <= s@.len(),
        j - i <= 16,
        forall|k: int| i <= k < j ==> is_digit(#[trigger] s@[k]),
    ensures
        r == spec_digits_val(s@, i as int, j as int),
        0 <= r < 0x2386f26fc10000,
        r < pow10(j - i),
{
    proof {
        lemma_pow10_16();
    }
    let mut acc: i64 = 0;
    let mut k = i;
    while k < j
        invariant
            i <= k <= j <= s@.len(),
            j - i <= 16,
            forall|t: int| i <= t < j ==> is_digit(#[trigger] s@[t]),
            acc == spec_digits_val(s@, i as int, k as int),
            0 <= acc < pow10(k - i),
            pow10(16) == 0x2386f26fc10000,
        decreases j - k,
    {
        proof {
            lemma_digits_val_bound(s@, i as int, k as int);
            lemma_digits_val_bound(s@, i as int, k + 1);
            assert(pow10(k + 1 - i) <= pow10(16)) by {
                lemma_pow10_mono(k + 1 - i, 16);
            }
        }
        acc = acc * 10 + (s[k] - 48) as i64;
        k = k + 1;
    }
    proof {
        lemma_digits_val_bound(s@, i as int, j as int);
        lemma_pow10_mono(j - i, 16);
    }
    acc
}

proof fn lemma_pow10_mono(a: int, b: int)
    requires
        a <= b,
    ensures
        pow10(a) <= pow10(b),
    decreases b - a,
{
    if a < b {
        lemma_pow10_mono(a, b - 1);
        lemma_pow10_nonneg(b - 1);
        assert(pow10(b - 1) <= 10 * pow10(b - 1)) by (nonlinear_arith)
            requires
                pow10(b - 1) >= 0,
        ;
    }
}

proof fn lemma_pow10_nonneg(k: int)
    ensures
        pow10(k) >= 1,
    decreases k,
{
    if k > 0 {
        lemma_pow10_nonneg(k - 1);
    }
}

} // verus!
