//! Parsing the persisted byte form back into a ledger.
//!
//! Parsing is permissive where saving is strict: any amount of
//! whitespace may stand between tokens, hour values may be negative,
//! bare integers, or carry one to three fraction digits, and no
//! ledger invariant is checked — a structurally well-formed text
//! loads even when a later save would reject it. The spec functions
//! here say exactly which texts parse and to what; the exec parser
//! returns precisely that.

use vstd::prelude::*;

use crate::date::Date;
use crate::error::HoursError;
use crate::json::{pow10, spec_digits_val, spec_run_end, spec_skip_ws};
use crate::model::{HoursData, WeekEntry};
use crate::text::{ascii_seq, bytes_eq, is_digit, str_bytes};

verus! {

/// The exec parser's positions are `usize`, the spec's are `int`;
/// results agree up to that.
pub open spec fn pos_opt<T>(r: Option<(T, usize)>, m: Option<(T, int)>) -> bool {
    match r {
        Option::None => m is None,
        Option::Some((a, p)) => m == Some((a, p as int)),
    }
}

/// `t` stands at position `i` of `s`.
pub open spec fn spec_expect(s: Seq<u8>, i: int, t: Seq<u8>) -> Option<int> {
    if 0 <= i && i + t.len() <= s.len() && s.subrange(i, i + t.len() as int) == t {
        Some(i + t.len() as int)
    } else {
        None
    }
}

/// Whitespace, a quoted key, whitespace, a colon, whitespace.
pub open spec fn spec_key_colon(s: Seq<u8>, i: int, key: Seq<u8>) -> Option<int> {
    let i1 = spec_skip_ws(s, i);
    if !(i1 < s.len() && s[i1] == 34) {
        None
    } else {
        match spec_expect(s, i1 + 1, key) {
            None => None,
            Some(i2) => {
                if !(i2 < s.len() && s[i2] == 34) {
                    None
                } else {
                    let i3 = spec_skip_ws(s, i2 + 1);
                    if !(i3 < s.len() && s[i3] == 58) {
                        None
                    } else {
                        Some(spec_skip_ws(s, i3 + 1))
                    }
                }
            },
        }
    }
}

/// Whitespace, then a comma.
pub open spec fn spec_comma(s: Seq<u8>, i: int) -> Option<int> {
    let j = spec_skip_ws(s, i);
    if j < s.len() && s[j] == 44 {
        Some(j + 1)
    } else {
        None
    }
}

/// A magnitude in thousandths with its sign, when it fits an `i64`.
pub open spec fn spec_make_val(neg: bool, mag: int, pos: int) -> Option<(i64, int)> {
    if neg {
        if mag > 0x8000_0000_0000_0000 {
            None
        } else {
            Some(((-mag) as i64, pos))
        }
    } else {
        if mag > 0x7fff_ffff_ffff_ffff {
            None
        } else {
            Some((mag as i64, pos))
        }
    }
}

/// A decimal number as a value in thousandths: optional minus,
/// an integer part without leading zeros and of at most sixteen
/// digits, optionally a point with one to three fraction digits.
pub open spec fn spec_parse_number(s: Seq<u8>, i: int) -> Option<(i64, int)> {
    let neg = 0 <= i < s.len() && s[i] == 45;
    let i0: int = if neg {
        i + 1
    } else {
        i
    };
    let j = spec_run_end(s, i0);
    if j == i0 || (s[i0] == 48 && j > i0 + 1) || j - i0 > 16 {
        None
    } else {
        let ip = spec_digits_val(s, i0, j);
        if j < s.len() && s[j] == 46 {
            let j2 = spec_run_end(s, j + 1);
            let fl = j2 - (j + 1);
            if fl < 1 || fl > 3 {
                None
            } else {
                let fv = spec_digits_val(s, j + 1, j2) * (if fl == 1 {
                    100int
                } else if fl == 2 {
                    10int
                } else {
                    1int
                });
                spec_make_val(neg, ip * 1000 + fv, j2)
            }
        } else {
            spec_make_val(neg, ip * 1000, j)
        }
    }
}

/// Ten bytes `YYYY-MM-DD` naming a valid calendar date.
pub open spec fn spec_parse_date(s: Seq<u8>, i: int) -> Option<(Date, int)> {
    if 0 <= i && i + 10 <= s.len() && is_digit(s[i]) && is_digit(s[i + 1]) && is_digit(s[i + 2])
        && is_digit(s[i + 3]) && s[i + 4] == 45 && is_digit(s[i + 5]) && is_digit(s[i + 6]) && s[i
        + 7] == 45 && is_digit(s[i + 8]) && is_digit(s[i + 9]) {
        let d = Date {
            year: spec_digits_val(s, i, i + 4) as u32,
            month: spec_digits_val(s, i + 5, i + 7) as u32,
            day: spec_digits_val(s, i + 8, i + 10) as u32,
        };
        if d.valid() {
            Some((d, i + 10))
        } else {
            None
        }
    } else {
        None
    }
}

/// A key whose value is a quoted date.
pub open spec fn spec_date_field(s: Seq<u8>, i: int, key: Seq<u8>) -> Option<(Date, int)> {
    match spec_key_colon(s, i, key) {
        None => None,
        Some(j) => {
            if !(j < s.len() && s[j] == 34) {
                None
            } else {
                match spec_parse_date(s, j + 1) {
                    None => None,
                    Some((d, k)) => {
                        if !(k < s.len() && s[k] == 34) {
                            None
                        } else {
                            Some((d, k + 1))
                        }
                    },
                }
            }
        },
    }
}

/// A key whose value is a number.
pub open spec fn spec_num_field(s: Seq<u8>, i: int, key: Seq<u8>) -> Option<(i64, int)> {
    match spec_key_colon(s, i, key) {
        None => None,
        Some(j) => spec_parse_number(s, j),
    }
}

/// The first half of an entry, after its opening brace: the two date
/// fields and the first numeric field.
pub open spec fn spec_entry_front(s: Seq<u8>, i: int) -> Option<((Date, Date, i64), int)> {
    match spec_date_field(s, i, ascii_seq("start"@)) {
        None => None,
        Some((st, p1)) => match spec_comma(s, p1) {
            None => None,
            Some(c1) => match spec_date_field(s, c1, ascii_seq("end"@)) {
                None => None,
                Some((en, p2)) => match spec_comma(s, p2) {
                    None => None,
                    Some(c2) => match spec_num_field(s, c2, ascii_seq("individual_supervision"@)) {
                        None => None,
                        Some((iv, p3)) => Some(((st, en, iv), p3)),
                    },
                },
            },
        },
    }
}

/// The second half of an entry: the remaining three numeric fields
/// and the closing brace.
pub open spec fn spec_entry_back(s: Seq<u8>, i: int) -> Option<((i64, i64, i64), int)> {
    match spec_comma(s, i) {
        None => None,
        Some(c3) => match spec_num_field(s, c3, ascii_seq("group_supervision"@)) {
            None => None,
            Some((gv, p4)) => match spec_comma(s, p4) {
                None => None,
                Some(c4) => match spec_num_field(s, c4, ascii_seq("direct"@)) {
                    None => None,
                    Some((dv, p5)) => match spec_comma(s, p5) {
                        None => None,
                        Some(c5) => match spec_num_field(s, c5, ascii_seq("indirect"@)) {
                            None => None,
                            Some((xv, p6)) => {
                                let q = spec_skip_ws(s, p6);
                                if !(q < s.len() && s[q] == 125) {
                                    None
                                } else {
                                    Some(((gv, dv, xv), q + 1))
                                }
                            },
                        },
                    },
                },
            },
        },
    }
}

/// One entry object: the six fields in their fixed order, then a
/// closing brace.
pub open spec fn spec_parse_entry(s: Seq<u8>, i: int) -> Option<(WeekEntry, int)> {
    if !(0 <= i < s.len() && s[i] == 123) {
        None
    } else {
        match spec_entry_front(s, i + 1) {
            None => None,
            Some(((st, en, iv), p3)) => match spec_entry_back(s, p3) {
                None => None,
                Some(((gv, dv, xv), q)) => Some(
                    (
                        WeekEntry {
                            start: st,
                            end: en,
                            individual_supervision: iv,
                            group_supervision: gv,
                            direct: dv,
                            indirect: xv,
                        },
                        q,
                    ),
                ),
            },
        }
    }
}

/// The entries after the first: comma-separated entry objects up to
/// the closing bracket.
pub open spec fn spec_parse_rest(s: Seq<u8>, i: int, acc: Seq<WeekEntry>) -> Option<
    (Seq<WeekEntry>, int),
>
    decreases s.len() - i,
{
    let j = spec_skip_ws(s, i);
    if j < s.len() && s[j] == 93 {
        Some((acc, j + 1))
    } else if j < s.len() && s[j] == 44 {
        let k = spec_skip_ws(s, j + 1);
        match spec_parse_entry(s, k) {
            None => None,
            Some((e, p)) => {
                if i < p <= s.len() {
                    spec_parse_rest(s, p, acc.push(e))
                } else {
                    None
                }
            },
        }
    } else {
        None
    }
}

/// The footer after the entry list: whitespace, the closing brace,
/// trailing whitespace, end of input.
pub open spec fn spec_finish(s: Seq<u8>, r: Option<(Seq<WeekEntry>, int)>) -> Option<
    Seq<WeekEntry>,
> {
    match r {
        None => None,
        Some((ws, q)) => {
            let f = spec_skip_ws(s, q);
            if f < s.len() && s[f] == 125 && spec_skip_ws(s, f + 1) == s.len() {
                Some(ws)
            } else {
                None
            }
        },
    }
}

/// The whole text: one object holding the `weeks` array.
pub open spec fn spec_parse_ledger(s: Seq<u8>) -> Option<Seq<WeekEntry>> {
    let i0 = spec_skip_ws(s, 0);
    if !(i0 < s.len() && s[i0] == 123) {
        None
    } else {
        match spec_key_colon(s, i0 + 1, ascii_seq("weeks"@)) {
            None => None,
            Some(j) => {
                if !(j < s.len() && s[j] == 91) {
                    None
                } else {
                    let k = spec_skip_ws(s, j + 1);
                    if k < s.len() && s[k] == 93 {
                        spec_finish(s, Some((Seq::<WeekEntry>::empty(), k + 1)))
                    } else {
                        match spec_parse_entry(s, k) {
                            None => None,
                            Some((e, p)) => {
                                if k < p <= s.len() {
                                    spec_finish(s, spec_parse_rest(s, p, seq![e]))
                                } else {
                                    None
                                }
                            },
                        }
                    }
                }
            },
        }
    }
}

// ------------------------------------------------------------------
// The exec parser needs position bounds of the spec parser for its
// own bounds checks.
// ------------------------------------------------------------------

pub proof fn lemma_parse_number_pos(s: Seq<u8>, i: int)
    requires
        0 <= i <= s.len(),
    ensures
        match spec_parse_number(s, i) {
            Some((v, p)) => i < p <= s.len(),
            None => true,
        },
{
    let neg = 0 <= i < s.len() && s[i] == 45;
    let i0: int = if neg {
        i + 1
    } else {
        i
    };
    crate::json::lemma_run_end_bounds(s, i0);
    let j = spec_run_end(s, i0);
    if j < s.len() && s[j] == 46 {
        crate::json::lemma_run_end_bounds(s, j + 1);
    }
}

// ------------------------------------------------------------------
// The exec parser.
// ------------------------------------------------------------------

fn byte_is_digit(b: u8) -> (r: bool)
    ensures
        r == is_digit(b),
{
    48 <= b && b <= 57
}

/// Matches `t` at position `i`.
fn expect(s: &[u8], i: usize, t: &[u8]) -> (r: Option<usize>)
    requires
        i <= s@.len(),
    ensures
        match r {
            Some(p) => spec_expect(s@, i as int, t@) == Some(p as int) && i <= p <= s@.len(),
            None => spec_expect(s@, i as int, t@) is None,
        },
{
    if s.len() - i >= t.len() {
        let sub = vstd::slice::slice_subrange(s, i, i + t.len());
        if bytes_eq(sub, t) {
            Some(i + t.len())
        } else {
            None
        }
    } else {
        None
    }
}

/// Skips whitespace, then a quoted key and its colon.
fn key_colon(s: &[u8], i: usize, key: &[u8]) -> (r: Option<usize>)
    requires
        i <= s@.len(),
    ensures
        match r {
            Some(p) => spec_key_colon(s@, i as int, key@) == Some(p as int) && i <= p <= s@.len(),
            None => spec_key_colon(s@, i as int, key@) is None,
        },
{
    let i1 = crate::json::skip_ws(s, i);
    if !(i1 < s.len() && s[i1] == 34) {
        return None;
    }
    match expect(s, i1 + 1, key) {
        None => None,
        Some(i2) => {
            if !(i2 < s.len() && s[i2] == 34) {
                return None;
            }
            let i3 = crate::json::skip_ws(s, i2 + 1);
            if !(i3 < s.len() && s[i3] == 58) {
                return None;
            }
            Some(crate::json::skip_ws(s, i3 + 1))
        },
    }
}

/// Skips whitespace, then a comma.
fn comma_at(s: &[u8], i: usize) -> (r: Option<usize>)
    requires
        i <= s@.len(),
    ensures
        match r {
            Some(p) => spec_comma(s@, i as int) == Some(p as int) && i <= p <= s@.len(),
            None => spec_comma(s@, i as int) is None,
        },
{
    let j = crate::json::skip_ws(s, i);
    if j < s.len() && s[j] == 44 {
        Some(j + 1)
    } else {
        None
    }
}

/// Parses a decimal number into thousandths.
fn parse_number(s: &[u8], i: usize) -> (r: Option<(i64, usize)>)
    requires
        i <= s@.len(),
    ensures
        pos_opt(r, spec_parse_number(s@, i as int)),
        r matches Some((v, p)) ==> i < p <= s@.len(),
{
    proof {
        lemma_parse_number_pos(s@, i as int);
    }
    let mut neg = false;
    let mut i0 = i;
    if i < s.len() && s[i] == 45 {
        neg = true;
        i0 = i + 1;
    }
    let j = crate::json::run_end(s, i0);
    if j == i0 {
        return None;
    }
    if s[i0] == 48 && j > i0 + 1 {
        return None;
    }
    if j - i0 > 16 {
        return None;
    }
    proof {
        crate::json::lemma_run_end_bounds(s@, i0 as int);
    }
    let ip = crate::json::digits_val(s, i0, j);
    if j < s.len() && s[j] == 46 {
        let j2 = crate::json::run_end(s, j + 1);
        let fl = j2 - (j + 1);
        if fl < 1 || fl > 3 {
            return None;
        }
        proof {
            crate::json::lemma_run_end_bounds(s@, j as int + 1);
            crate::json::lemma_pow10_small();
        }
        let fraw = crate::json::digits_val(s, j + 1, j2);
        let fv: i64 = if fl == 1 {
            fraw * 100
        } else if fl == 2 {
            fraw * 10
        } else {
            fraw
        };
        make_val(neg, ip as i128 * 1000 + fv as i128, j2)
    } else {
        make_val(neg, ip as i128 * 1000, j)
    }
}

/// Applies the sign and the `i64` range check.
fn make_val(neg: bool, mag: i128, pos: usize) -> (r: Option<(i64, usize)>)
    requires
        0 <= mag < 0x10000_0000_0000_0000_0000,
    ensures
        pos_opt(r, spec_make_val(neg, mag as int, pos as int)),
        r matches Some((v, p)) ==> p == pos,
{
    if neg {
        if mag > 0x8000_0000_0000_0000i128 {
            None
        } else {
            Some(((-mag) as i64, pos))
        }
    } else {
        if mag > 0x7fff_ffff_ffff_ffffi128 {
            None
        } else {
            Some((mag as i64, pos))
        }
    }
}

/// Parses ten bytes `YYYY-MM-DD` into a valid date.
fn parse_date(s: &[u8], i: usize) -> (r: Option<(Date, usize)>)
    requires
        i <= s@.len(),
    ensures
        pos_opt(r, spec_parse_date(s@, i as int)),
        r matches Some((d, p)) ==> i < p <= s@.len(),
{
    if s.len() - i < 10 {
        return None;
    }
    if !(byte_is_digit(s[i]) && byte_is_digit(s[i + 1]) && byte_is_digit(s[i + 2]) && byte_is_digit(
        s[i + 3],
    ) && s[i + 4] == 45 && byte_is_digit(s[i + 5]) && byte_is_digit(s[i + 6]) && s[i + 7] == 45
        && byte_is_digit(s[i + 8]) && byte_is_digit(s[i + 9])) {
        return None;
    }
    proof {
        crate::json::lemma_pow10_small();
        assert forall|k: int| i <= k < i + 4 implies is_digit(#[trigger] s@[k]) by {}
        assert forall|k: int| i + 5 <= k < i + 7 implies is_digit(#[trigger] s@[k]) by {}
        assert forall|k: int| i + 8 <= k < i + 10 implies is_digit(#[trigger] s@[k]) by {}
    }
    let y = crate::json::digits_val(s, i, i + 4);
    let mo = crate::json::digits_val(s, i + 5, i + 7);
    let dd = crate::json::digits_val(s, i + 8, i + 10);
    let d = Date { year: y as u32, month: mo as u32, day: dd as u32 };
    if d.check_valid() {
        Some((d, i + 10))
    } else {
        None
    }
}

/// Parses a key with a quoted date value.
fn date_field(s: &[u8], i: usize, key: &[u8]) -> (r: Option<(Date, usize)>)
    requires
        i <= s@.len(),
    ensures
        pos_opt(r, spec_date_field(s@, i as int, key@)),
        r matches Some((d, p)) ==> i < p <= s@.len(),
{
    match key_colon(s, i, key) {
        None => None,
        Some(j) => {
            if !(j < s.len() && s[j] == 34) {
                return None;
            }
            match parse_date(s, j + 1) {
                None => None,
                Some((d, k)) => {
                    if !(k < s.len() && s[k] == 34) {
                        return None;
                    }
                    Some((d, k + 1))
                },
            }
        },
    }
}

/// Parses a key with a numeric value.
fn num_field(s: &[u8], i: usize, key: &[u8]) -> (r: Option<(i64, usize)>)
    requires
        i <= s@.len(),
    ensures
        pos_opt(r, spec_num_field(s@, i as int, key@)),
        r matches Some((v, p)) ==> i < p <= s@.len(),
{
    match key_colon(s, i, key) {
        None => None,
        Some(j) => parse_number(s, j),
    }
}

/// Parses the two date fields and the first numeric field.
fn entry_front(s: &[u8], i: usize) -> (r: Option<((Date, Date, i64), usize)>)
    requires
        i <= s@.len(),
    ensures
        pos_opt(r, spec_entry_front(s@, i as int)),
        r matches Some((t, p)) ==> i < p <= s@.len(),
{
    proof {
        reveal_strlit("start");
        reveal_strlit("end");
        reveal_strlit("individual_supervision");
    }
    let (st, p1) = match date_field(s, i, str_bytes("start")) {
        None => {
            return None;
        },
        Some(v) => v,
    };
    let c1 = match comma_at(s, p1) {
        None => {
            return None;
        },
        Some(v) => v,
    };
    let (en, p2) = match date_field(s, c1, str_bytes("end")) {
        None => {
            return None;
        },
        Some(v) => v,
    };
    let c2 = match comma_at(s, p2) {
        None => {
            return None;
        },
        Some(v) => v,
    };
    match num_field(s, c2, str_bytes("individual_supervision")) {
        None => None,
        Some((iv, p3)) => Some(((st, en, iv), p3)),
    }
}

/// Parses the remaining three numeric fields and the closing brace.
fn entry_back(s: &[u8], i: usize) -> (r: Option<((i64, i64, i64), usize)>)
    requires
        i <= s@.len(),
    ensures
        pos_opt(r, spec_entry_back(s@, i as int)),
        r matches Some((t, p)) ==> i < p <= s@.len(),
{
    proof {
        reveal_strlit("group_supervision");
        reveal_strlit("direct");
        reveal_strlit("indirect");
    }
    let c3 = match comma_at(s, i) {
        None => {
            return None;
        },
        Some(v) => v,
    };
    let (gv, p4) = match num_field(s, c3, str_bytes("group_supervision")) {
        None => {
            return None;
        },
        Some(v) => v,
    };
    let c4 = match comma_at(s, p4) {
        None => {
            return None;
        },
        Some(v) => v,
    };
    let (dv, p5) = match num_field(s, c4, str_bytes("direct")) {
        None => {
            return None;
        },
        Some(v) => v,
    };
    let c5 = match comma_at(s, p5) {
        None => {
            return None;
        },
        Some(v) => v,
    };
    let (xv, p6) = match num_field(s, c5, str_bytes("indirect")) {
        None => {
            return None;
        },
        Some(v) => v,
    };
    let q = crate::json::skip_ws(s, p6);
    if !(q < s.len() && s[q] == 125) {
        return None;
    }
    Some(((gv, dv, xv), q + 1))
}

/// Parses one entry object.
fn parse_entry(s: &[u8], i: usize) -> (r: Option<(WeekEntry, usize)>)
    requires
        i <= s@.len(),
    ensures
        pos_opt(r, spec_parse_entry(s@, i as int)),
        r matches Some((e, p)) ==> i < p <= s@.len(),
{
    if !(i < s.len() && s[i] == 123) {
        return None;
    }
    let ((st, en, iv), p3) = match entry_front(s, i + 1) {
        None => {
            return None;
        },
        Some(v) => v,
    };
    match entry_back(s, p3) {
        None => None,
        Some(((gv, dv, xv), q)) => Some(
            (
                WeekEntry {
                    start: st,
                    end: en,
                    individual_supervision: iv,
                    group_supervision: gv,
                    direct: dv,
                    indirect: xv,
                },
                q,
            ),
        ),
    }
}

/// Parses the whole persisted text into a ledger; fails with a
/// `ParseError` (holding a byte position near the fault) exactly when
/// the text is not structurally well formed.
pub fn from_bytes(s: &[u8]) -> (r: Result<HoursData, HoursError>)
    ensures
        match r {
            Ok(d) => spec_parse_ledger(s@) == Some(d.weeks@),
            Err(e) => spec_parse_ledger(s@) is None && e is ParseError,
        },
{
    proof {
        reveal_strlit("weeks");
    }
    let i0 = crate::json::skip_ws(s, 0);
    if !(i0 < s.len() && s[i0] == 123) {
        return Err(HoursError::ParseError(i0));
    }
    let j = match key_colon(s, i0 + 1, str_bytes("weeks")) {
        None => {
            return Err(HoursError::ParseError(i0));
        },
        Some(v) => v,
    };
    if !(j < s.len() && s[j] == 91) {
        return Err(HoursError::ParseError(j));
    }
    let k = crate::json::skip_ws(s, j + 1);
    let mut weeks: Vec<WeekEntry> = Vec::new();
    let mut pos: usize;
    let ghost mut list_result: Option<(Seq<WeekEntry>, int)> = None;
    if k < s.len() && s[k] == 93 {
        pos = k + 1;
        proof {
            list_result = Some((Seq::<WeekEntry>::empty(), pos as int));
            assert(spec_parse_ledger(s@) == spec_finish(s@, list_result));
        }
    } else {
        let (e0, p0) = match parse_entry(s, k) {
            None => {
                return Err(HoursError::ParseError(k));
            },
            Some(v) => v,
        };
        weeks.push(e0);
        pos = p0;
        let ghost g = spec_parse_rest(s@, p0 as int, seq![e0]);
        proof {
            assert(spec_parse_ledger(s@) == spec_finish(s@, g));
        }
        let mut done = false;
        while !done
            invariant
                pos <= s@.len(),
                spec_parse_ledger(s@) == spec_finish(s@, g),
                done ==> g == Some((weeks@, pos as int)),
                !done ==> g == spec_parse_rest(s@, pos as int, weeks@),
            decreases s@.len() - pos, (if done { 0int } else { 1int }),
        {
            let j2 = crate::json::skip_ws(s, pos);
            if j2 < s.len() && s[j2] == 93 {
                pos = j2 + 1;
                done = true;
            } else if j2 < s.len() && s[j2] == 44 {
                let k2 = crate::json::skip_ws(s, j2 + 1);
                match parse_entry(s, k2) {
                    None => {
                        proof {
                            assert(g is None);
                            assert(spec_parse_ledger(s@) is None);
                        }
                        return Err(HoursError::ParseError(k2));
                    },
                    Some((e, p)) => {
                        weeks.push(e);
                        pos = p;
                    },
                }
            } else {
                proof {
                    assert(g is None);
                    assert(spec_parse_ledger(s@) is None);
                }
                return Err(HoursError::ParseError(j2));
            }
        }
        proof {
            list_result = g;
        }
    }
    // the footer: '}' and the end of the input
    let f = crate::json::skip_ws(s, pos);
    if !(f < s.len() && s[f] == 125) {
        return Err(HoursError::ParseError(f));
    }
    if crate::json::skip_ws(s, f + 1) != s.len() {
        return Err(HoursError::ParseError(f));
    }
    proof {
        assert(spec_finish(s@, list_result) == Some(weeks@));
    }
    Ok(HoursData { weeks })
}

// ------------------------------------------------------------------
// The round trip: the text the printer produces parses back to
// exactly the entries it serialized.
// ------------------------------------------------------------------

/// `spec_skip_ws` runs to the end of a whitespace run.
proof fn lemma_skip_ws_run(s: Seq<u8>, i: int, j: int)
    requires
        0 <= i <= j <= s.len(),
        forall|k: int| i <= k < j ==> crate::json::is_ws(#[trigger] s[k]),
        j == s.len() || !crate::json::is_ws(s[j]),
    ensures
        spec_skip_ws(s, i) == j,
    decreases j - i,
{
    if i < j {
        lemma_skip_ws_run(s, i + 1, j);
    }
}

/// `spec_run_end` runs to the end of a digit run.
proof fn lemma_run_end_run(s: Seq<u8>, i: int, j: int)
    requires
        0 <= i <= j <= s.len(),
        forall|k: int| i <= k < j ==> is_digit(#[trigger] s[k]),
        j == s.len() || !is_digit(s[j]),
    ensures
        spec_run_end(s, i) == j,
    decreases j - i,
{
    if i < j {
        lemma_run_end_run(s, i + 1, j);
    }
}

/// Printed decimal digits are digits, at least one of them, and the
/// first is nonzero unless the number is zero.
proof fn lemma_dec_shape(n: int)
    requires
        n >= 0,
    ensures
        crate::text::spec_dec(n).len() >= 1,
        forall|k: int|
            0 <= k < crate::text::spec_dec(n).len() ==> is_digit(
                #[trigger] crate::text::spec_dec(n)[k],
            ),
        n >= 1 ==> crate::text::spec_dec(n)[0] != 48,
        n == 0 ==> crate::text::spec_dec(n).len() == 1,
    decreases n,
{
    if n > 9 {
        lemma_dec_shape(n / 10);
    }
}

/// A number below `10^k` prints in at most `k` digits.
proof fn lemma_dec_len(n: int, k: int)
    requires
        0 <= n < pow10(k),
        k >= 1,
    ensures
        crate::text::spec_dec(n).len() <= k,
    decreases n,
{
    if n > 9 {
        vstd::arithmetic::div_mod::lemma_fundamental_div_mod(n, 10);
        assert(pow10(k) == 10 * pow10(k - 1));
        lemma_dec_len(n / 10, k - 1);
    }
}

/// Reading printed digits gives the number back.
proof fn lemma_digits_val_print(s: Seq<u8>, i: int, n: int)
    requires
        n >= 0,
        0 <= i,
        i + crate::text::spec_dec(n).len() <= s.len(),
        s.subrange(i, i + crate::text::spec_dec(n).len() as int) == crate::text::spec_dec(n),
    ensures
        spec_digits_val(s, i, i + crate::text::spec_dec(n).len() as int) == n,
    decreases n,
{
    reveal_with_fuel(spec_digits_val, 3);
    let d = crate::text::spec_dec(n);
    let l = d.len() as int;
    if n <= 9 {
        assert(s[i] == d[0]);
    } else {
        lemma_dec_shape(n / 10);
        let dp = crate::text::spec_dec(n / 10);
        assert(d == dp.push(crate::text::dec_digit(n % 10)));
        assert(s.subrange(i, i + l - 1) =~= dp) by {
            assert forall|k: int| 0 <= k < l - 1 implies s.subrange(i, i + l - 1)[k] == dp[k] by {
                assert(s.subrange(i, i + l)[k] == d[k]);
            }
        }
        lemma_digits_val_print(s, i, n / 10);
        assert(s[i + l - 1] == d[l - 1]);
        assert(d[l - 1] == crate::text::dec_digit(n % 10));
    }
}

/// Reading a printed hour value gives the value back.
#[verifier::rlimit(100)]
proof fn lemma_parse_number_print(s: Seq<u8>, i: int, v: i64)
    requires
        v >= 0,
        0 <= i,
        i + crate::text::spec_milli_text(v as int).len() <= s.len(),
        s.subrange(i, i + crate::text::spec_milli_text(v as int).len() as int)
            == crate::text::spec_milli_text(v as int),
        ({
            let e = i + crate::text::spec_milli_text(v as int).len();
            e == s.len() || (!is_digit(s[e]) && s[e] != 46)
        }),
    ensures
        spec_parse_number(s, i) == Some(
            (v, i + crate::text::spec_milli_text(v as int).len() as int),
        ),
{
    let n = v as int / 1000;
    let f = v as int % 1000;
    vstd::arithmetic::div_mod::lemma_fundamental_div_mod(v as int, 1000);
    let d = crate::text::spec_dec(n);
    let l1 = d.len() as int;
    let ft = crate::text::spec_frac_text(f);
    let lf = ft.len() as int;
    let m = crate::text::spec_milli_text(v as int);
    let lm = m.len() as int;
    assert(m == d + seq![46u8] + ft);
    assert(lm == l1 + 1 + lf);
    lemma_dec_shape(n);
    crate::json::lemma_pow10_16();
    lemma_dec_len(n, 16);
    // the integer-part digit run
    assert forall|k: int| i <= k < i + l1 implies is_digit(#[trigger] s[k]) by {
        assert(s.subrange(i, i + lm)[k - i] == m[k - i]);
        assert(m[k - i] == d[k - i]);
    }
    assert(s[i + l1] == 46) by {
        assert(s.subrange(i, i + lm)[l1] == m[l1]);
    }
    lemma_run_end_run(s, i, i + l1);
    assert(!(0 <= i < s.len() && s[i] == 45)) by {
        assert(s.subrange(i, i + lm)[0] == m[0]);
        assert(m[0] == d[0]);
    }
    assert(s.subrange(i, i + l1) =~= d) by {
        assert forall|k: int| 0 <= k < l1 implies s.subrange(i, i + l1)[k] == d[k] by {
            assert(s.subrange(i, i + lm)[k] == m[k]);
        }
    }
    lemma_digits_val_print(s, i, n);
    // no leading zero unless the integer part is zero itself
    if s[i] == 48 {
        assert(d[0] == 48);
        assert(n == 0) by {
            lemma_dec_shape(n);
        }
    }
    // the fraction digit run
    let fd0 = f / 100;
    let fd1 = (f / 10) % 10;
    let fd2 = f % 10;
    assert(0 <= fd0 <= 9 && 0 <= fd1 <= 9 && 0 <= fd2 <= 9);
    assert forall|k: int| i + l1 + 1 <= k < i + lm implies is_digit(#[trigger] s[k]) by {
        assert(s.subrange(i, i + lm)[k - i] == m[k - i]);
        assert(m[k - i] == ft[k - i - l1 - 1]);
    }
    assert(i + lm == s.len() || !is_digit(s[i + lm]));
    lemma_run_end_run(s, i + l1 + 1, i + lm);
    // reading the fraction digits back
    reveal_with_fuel(spec_digits_val, 5);
    vstd::arithmetic::div_mod::lemma_fundamental_div_mod(f, 10);
    vstd::arithmetic::div_mod::lemma_fundamental_div_mod(f / 10, 10);
    vstd::arithmetic::div_mod::lemma_div_denominator(f, 10, 10);
    assert((f / 10) / 10 == f / 100);
    let fbase = i + l1 + 1;
    assert forall|k: int| 0 <= k < lf implies s[fbase + k] == ft[k] by {
        assert(s.subrange(i, i + lm)[l1 + 1 + k] == m[l1 + 1 + k]);
    }
    assert(s[fbase] == ft[0]);
    if lf >= 2 {
        assert(s[fbase + 1] == ft[1]);
    }
    if lf >= 3 {
        assert(s[fbase + 2] == ft[2]);
    }
    if f % 100 == 0 {
        assert(ft == seq![crate::text::dec_digit(fd0)]);
        assert(spec_digits_val(s, fbase, fbase + 1) == fd0);
        assert(fd0 * 100 == f);
    } else if f % 10 == 0 {
        assert(ft == seq![crate::text::dec_digit(fd0), crate::text::dec_digit(fd1)]);
        assert(spec_digits_val(s, fbase, fbase + 2) == fd0 * 10 + fd1);
        assert((fd0 * 10 + fd1) * 10 == f);
    } else {
        assert(ft == seq![
            crate::text::dec_digit(fd0),
            crate::text::dec_digit(fd1),
            crate::text::dec_digit(fd2),
        ]);
        assert(spec_digits_val(s, fbase, fbase + 3) == (fd0 * 10 + fd1) * 10 + fd2);
        assert((fd0 * 10 + fd1) * 10 + fd2 == f);
    }
    assert(spec_parse_number(s, i) == Some((v, i + lm)));
}

/// Reading a printed date gives the date back.
proof fn lemma_parse_date_print(s: Seq<u8>, i: int, d: Date)
    requires
        d.valid(),
        0 <= i,
        i + 10 <= s.len(),
        s.subrange(i, i + 10) == crate::text::spec_date_text(d),
    ensures
        spec_parse_date(s, i) == Some((d, i + 10)),
{
    reveal_with_fuel(spec_digits_val, 5);
    let t = crate::text::spec_date_text(d);
    let y = d.year as int;
    let mo = d.month as int;
    let dy = d.day as int;
    assert(t.len() == 10);
    assert forall|k: int| 0 <= k < 10 implies s[i + k] == t[k] by {
        assert(s.subrange(i, i + 10)[k] == t[k]);
    }
    assert(s[i] == t[0] && s[i + 1] == t[1] && s[i + 2] == t[2] && s[i + 3] == t[3] && s[i + 4]
        == t[4] && s[i + 5] == t[5] && s[i + 6] == t[6] && s[i + 7] == t[7] && s[i + 8] == t[8]
        && s[i + 9] == t[9]);
    // the year's digits
    vstd::arithmetic::div_mod::lemma_fundamental_div_mod(y, 10);
    vstd::arithmetic::div_mod::lemma_fundamental_div_mod(y / 10, 10);
    vstd::arithmetic::div_mod::lemma_fundamental_div_mod(y / 100, 10);
    vstd::arithmetic::div_mod::lemma_div_denominator(y, 10, 10);
    vstd::arithmetic::div_mod::lemma_div_denominator(y, 100, 10);
    assert((y / 10) / 10 == y / 100);
    assert((y / 100) / 10 == y / 1000);
    assert(spec_digits_val(s, i, i + 4) == ((y / 1000 * 10 + (y / 100) % 10) * 10 + (y / 10) % 10)
        * 10 + y % 10);
    assert(spec_digits_val(s, i, i + 4) == y);
    // the month's and day's digits
    vstd::arithmetic::div_mod::lemma_fundamental_div_mod(mo, 10);
    vstd::arithmetic::div_mod::lemma_fundamental_div_mod(dy, 10);
    assert(spec_digits_val(s, i + 5, i + 7) == mo);
    assert(spec_digits_val(s, i + 8, i + 10) == dy);
    assert(Date {
        year: spec_digits_val(s, i, i + 4) as u32,
        month: spec_digits_val(s, i + 5, i + 7) as u32,
        day: spec_digits_val(s, i + 8, i + 10) as u32,
    } == d);
}

/// A field's key layout: optional whitespace, the quoted key, a colon
/// and one space, with the value starting right after.
proof fn lemma_key_colon_exact(s: Seq<u8>, i: int, a: int, key: Seq<u8>)
    requires
        0 <= i <= a,
        a + key.len() + 4 <= s.len(),
        forall|k: int| i <= k < a ==> crate::json::is_ws(#[trigger] s[k]),
        s[a] == 34,
        s.subrange(a + 1, a + 1 + key.len() as int) == key,
        s[a + 1 + key.len()] == 34,
        s[a + 2 + key.len()] == 58,
        s[a + 3 + key.len()] == 32,
        !crate::json::is_ws(s[a + 4 + key.len()]),
    ensures
        spec_key_colon(s, i, key) == Some(a + 4 + key.len() as int),
{
    let l = key.len() as int;
    lemma_skip_ws_run(s, i, a);
    assert(spec_expect(s, a + 1, key) == Some(a + 1 + l));
    lemma_skip_ws_run(s, a + 2 + l, a + 2 + l);
    lemma_skip_ws_run(s, a + 3 + l, a + 4 + l);
}

/// Reading the printed first half of an entry gives its dates and
/// first value back.
#[verifier::rlimit(100)]
#[verifier::spinoff_prover]
proof fn lemma_entry_front_print(s: Seq<u8>, i: int, e: WeekEntry)
    requires
        crate::json::spec_entry_printable(e),
        0 <= i,
        i + crate::json::spec_entry_text(e).len() <= s.len(),
        s.subrange(i, i + crate::json::spec_entry_text(e).len() as int)
            == crate::json::spec_entry_text(e),
    ensures
        spec_entry_front(s, i + 1) == Some(
            (
                (e.start, e.end, e.individual_supervision),
                i + 90 + crate::text::spec_milli_text(e.individual_supervision as int).len(),
            ),
        ),
        crate::json::spec_entry_text(e).len() >= 96,
{
    reveal(crate::json::spec_entry_text);
    reveal_strlit("{\n      \"start\": \"");
    reveal_strlit("\",\n      \"end\": \"");
    reveal_strlit("\",\n      \"individual_supervision\": ");
    reveal_strlit(",\n      \"group_supervision\": ");
    reveal_strlit(",\n      \"direct\": ");
    reveal_strlit(",\n      \"indirect\": ");
    reveal_strlit("\n    }");
    reveal_strlit("start");
    reveal_strlit("end");
    reveal_strlit("individual_supervision");
    let et = crate::json::spec_entry_text(e);
    let le = et.len() as int;
    let m1 = crate::text::spec_milli_text(e.individual_supervision as int);
    let lm1 = m1.len() as int;
    assert(crate::text::spec_date_text(e.start).len() == 10);
    assert(crate::text::spec_date_text(e.end).len() == 10);
    assert forall|k: int| 0 <= k < le implies s[i + k] == #[trigger] et[k] by {
        assert(s.subrange(i, i + le)[k] == et[k]);
    }
    // the opening brace and the start field's key
    assert(s[i] == et[0] && et[0] == 123);
    assert forall|k: int| i + 1 <= k < i + 8 implies crate::json::is_ws(#[trigger] s[k]) by {
        assert(s[k] == et[k - i]);
    }
    assert(s[i + 8] == et[8] && et[8] == 34);
    assert(s.subrange(i + 9, i + 14) =~= ascii_seq("start"@)) by {
        assert forall|k: int| 0 <= k < 5 implies s.subrange(i + 9, i + 14)[k] == ascii_seq(
            "start"@,
        )[k] by {
            assert(s[i + 9 + k] == et[9 + k]);
        }
    }
    assert(s[i + 14] == et[14] && s[i + 15] == et[15] && s[i + 16] == et[16] && s[i + 17] == et[
        17
    ]);
    assert(et[14] == 34 && et[15] == 58 && et[16] == 32 && et[17] == 34);
    lemma_key_colon_exact(s, i + 1, i + 8, ascii_seq("start"@));
    // the start date
    assert(s.subrange(i + 18, i + 28) =~= crate::text::spec_date_text(e.start)) by {
        assert forall|k: int|
            0 <= k < 10 implies s.subrange(i + 18, i + 28)[k] == crate::text::spec_date_text(
            e.start,
        )[k] by {
            assert(s[i + 18 + k] == et[18 + k]);
        }
    }
    lemma_parse_date_print(s, i + 18, e.start);
    assert(s[i + 28] == et[28] && et[28] == 34);
    assert(spec_date_field(s, i + 1, ascii_seq("start"@)) == Some((e.start, i + 29)));
    // the comma and the end field's key
    assert(s[i + 29] == et[29] && et[29] == 44);
    lemma_skip_ws_run(s, i + 29, i + 29);
    assert(spec_comma(s, i + 29) == Some(i + 30));
    assert forall|k: int| i + 30 <= k < i + 37 implies crate::json::is_ws(#[trigger] s[k]) by {
        assert(s[k] == et[k - i]);
    }
    assert(s[i + 37] == et[37] && et[37] == 34);
    assert(s.subrange(i + 38, i + 41) =~= ascii_seq("end"@)) by {
        assert forall|k: int| 0 <= k < 3 implies s.subrange(i + 38, i + 41)[k] == ascii_seq(
            "end"@,
        )[k] by {
            assert(s[i + 38 + k] == et[38 + k]);
        }
    }
    assert(s[i + 41] == et[41] && s[i + 42] == et[42] && s[i + 43] == et[43] && s[i + 44] == et[
        44
    ]);
    assert(et[41] == 34 && et[42] == 58 && et[43] == 32 && et[44] == 34);
    lemma_key_colon_exact(s, i + 30, i + 37, ascii_seq("end"@));
    // the end date
    assert(s.subrange(i + 45, i + 55) =~= crate::text::spec_date_text(e.end)) by {
        assert forall|k: int|
            0 <= k < 10 implies s.subrange(i + 45, i + 55)[k] == crate::text::spec_date_text(
            e.end,
        )[k] by {
            assert(s[i + 45 + k] == et[45 + k]);
        }
    }
    lemma_parse_date_print(s, i + 45, e.end);
    assert(s[i + 55] == et[55] && et[55] == 34);
    assert(spec_date_field(s, i + 30, ascii_seq("end"@)) == Some((e.end, i + 56)));
    // the comma and the first numeric field's key
    assert(s[i + 56] == et[56] && et[56] == 44);
    lemma_skip_ws_run(s, i + 56, i + 56);
    assert(spec_comma(s, i + 56) == Some(i + 57));
    assert forall|k: int| i + 57 <= k < i + 64 implies crate::json::is_ws(#[trigger] s[k]) by {
        assert(s[k] == et[k - i]);
    }
    assert(s[i + 64] == et[64] && et[64] == 34);
    assert(s.subrange(i + 65, i + 87) =~= ascii_seq("individual_supervision"@)) by {
        assert forall|k: int| 0 <= k < 22 implies s.subrange(i + 65, i + 87)[k] == ascii_seq(
            "individual_supervision"@,
        )[k] by {
            assert(s[i + 65 + k] == et[65 + k]);
        }
    }
    assert(s[i + 87] == et[87] && s[i + 88] == et[88] && s[i + 89] == et[89]);
    assert(et[87] == 34 && et[88] == 58 && et[89] == 32);
    lemma_dec_shape(e.individual_supervision as int / 1000);
    assert(s.subrange(i + 90, i + 90 + lm1) =~= m1) by {
        assert forall|k: int| 0 <= k < lm1 implies s.subrange(i + 90, i + 90 + lm1)[k] == m1[k] by {
            assert(s[i + 90 + k] == et[90 + k]);
        }
    }
    assert(s[i + 90] == et[90] && et[90] == m1[0] && is_digit(m1[0]));
    lemma_key_colon_exact(s, i + 57, i + 64, ascii_seq("individual_supervision"@));
    // the first value, with a comma right after it
    assert(s[i + 90 + lm1] == et[90 + lm1] && et[90 + lm1] == 44);
    lemma_parse_number_print(s, i + 90, e.individual_supervision);
    assert(spec_num_field(s, i + 57, ascii_seq("individual_supervision"@)) == Some(
        (e.individual_supervision, i + 90 + lm1),
    ));
}

/// Reading the printed second half of an entry gives its remaining
/// values back; `b` is where that half starts.
#[verifier::rlimit(100)]
#[verifier::spinoff_prover]
proof fn lemma_entry_back_print(s: Seq<u8>, i: int, e: WeekEntry)
    requires
        crate::json::spec_entry_printable(e),
        0 <= i,
        i + crate::json::spec_entry_text(e).len() <= s.len(),
        s.subrange(i, i + crate::json::spec_entry_text(e).len() as int)
            == crate::json::spec_entry_text(e),
    ensures
        spec_entry_back(
            s,
            i + 90 + crate::text::spec_milli_text(e.individual_supervision as int).len(),
        ) == Some(
            (
                (e.group_supervision, e.direct, e.indirect),
                i + crate::json::spec_entry_text(e).len(),
            ),
        ),
{
    reveal(crate::json::spec_entry_text);
    reveal_strlit("{\n      \"start\": \"");
    reveal_strlit("\",\n      \"end\": \"");
    reveal_strlit("\",\n      \"individual_supervision\": ");
    reveal_strlit(",\n      \"group_supervision\": ");
    reveal_strlit(",\n      \"direct\": ");
    reveal_strlit(",\n      \"indirect\": ");
    reveal_strlit("\n    }");
    reveal_strlit("group_supervision");
    reveal_strlit("direct");
    reveal_strlit("indirect");
    let et = crate::json::spec_entry_text(e);
    let le = et.len() as int;
    let m1 = crate::text::spec_milli_text(e.individual_supervision as int);
    let lm1 = m1.len() as int;
    let m2 = crate::text::spec_milli_text(e.group_supervision as int);
    let lm2 = m2.len() as int;
    let m3 = crate::text::spec_milli_text(e.direct as int);
    let lm3 = m3.len() as int;
    let m4 = crate::text::spec_milli_text(e.indirect as int);
    let lm4 = m4.len() as int;
    assert(crate::text::spec_date_text(e.start).len() == 10);
    assert(crate::text::spec_date_text(e.end).len() == 10);
    assert(le == 163 + lm1 + lm2 + lm3 + lm4);
    assert forall|k: int| 0 <= k < le implies s[i + k] == #[trigger] et[k] by {
        assert(s.subrange(i, i + le)[k] == et[k]);
    }
    let b = i + 90 + lm1;
    let ob = 90 + lm1;  // same position as an offset into the entry text
    // the comma and the group field's key
    assert(s[b] == et[ob] && et[ob] == 44);
    lemma_skip_ws_run(s, b, b);
    assert(spec_comma(s, b) == Some(b + 1));
    assert forall|k: int| b + 1 <= k < b + 8 implies crate::json::is_ws(#[trigger] s[k]) by {
        assert(s[k] == et[k - i]);
    }
    assert(s[b + 8] == et[ob + 8] && et[ob + 8] == 34);
    assert(s.subrange(b + 9, b + 26) =~= ascii_seq("group_supervision"@)) by {
        assert forall|k: int| 0 <= k < 17 implies s.subrange(b + 9, b + 26)[k] == ascii_seq(
            "group_supervision"@,
        )[k] by {
            assert(s[b + 9 + k] == et[ob + 9 + k]);
        }
    }
    assert(s[b + 26] == et[ob + 26] && s[b + 27] == et[ob + 27] && s[b + 28] == et[ob + 28]);
    assert(et[ob + 26] == 34 && et[ob + 27] == 58 && et[ob + 28] == 32);
    lemma_dec_shape(e.group_supervision as int / 1000);
    assert(s.subrange(b + 29, b + 29 + lm2) =~= m2) by {
        assert forall|k: int| 0 <= k < lm2 implies s.subrange(b + 29, b + 29 + lm2)[k] == m2[k] by {
            assert(s[b + 29 + k] == et[ob + 29 + k]);
        }
    }
    assert(s[b + 29] == et[ob + 29] && et[ob + 29] == m2[0] && is_digit(m2[0]));
    lemma_key_colon_exact(s, b + 1, b + 8, ascii_seq("group_supervision"@));
    assert(s[b + 29 + lm2] == et[ob + 29 + lm2] && et[ob + 29 + lm2] == 44);
    lemma_parse_number_print(s, b + 29, e.group_supervision);
    let p4 = b + 29 + lm2;
    assert(spec_num_field(s, b + 1, ascii_seq("group_supervision"@)) == Some(
        (e.group_supervision, p4),
    ));
    let o4 = ob + 29 + lm2;
    // the comma and the direct field's key
    lemma_skip_ws_run(s, p4, p4);
    assert(spec_comma(s, p4) == Some(p4 + 1));
    assert forall|k: int| p4 + 1 <= k < p4 + 8 implies crate::json::is_ws(#[trigger] s[k]) by {
        assert(s[k] == et[k - i]);
    }
    assert(s[p4 + 8] == et[o4 + 8] && et[o4 + 8] == 34);
    assert(s.subrange(p4 + 9, p4 + 15) =~= ascii_seq("direct"@)) by {
        assert forall|k: int| 0 <= k < 6 implies s.subrange(p4 + 9, p4 + 15)[k] == ascii_seq(
            "direct"@,
        )[k] by {
            assert(s[p4 + 9 + k] == et[o4 + 9 + k]);
        }
    }
    assert(s[p4 + 15] == et[o4 + 15] && s[p4 + 16] == et[o4 + 16] && s[p4 + 17] == et[o4 + 17]);
    assert(et[o4 + 15] == 34 && et[o4 + 16] == 58 && et[o4 + 17] == 32);
    lemma_dec_shape(e.direct as int / 1000);
    assert(s.subrange(p4 + 18, p4 + 18 + lm3) =~= m3) by {
        assert forall|k: int|
            0 <= k < lm3 implies s.subrange(p4 + 18, p4 + 18 + lm3)[k] == m3[k] by {
            assert(s[p4 + 18 + k] == et[o4 + 18 + k]);
        }
    }
    assert(s[p4 + 18] == et[o4 + 18] && et[o4 + 18] == m3[0] && is_digit(m3[0]));
    lemma_key_colon_exact(s, p4 + 1, p4 + 8, ascii_seq("direct"@));
    assert(s[p4 + 18 + lm3] == et[o4 + 18 + lm3] && et[o4 + 18 + lm3] == 44);
    lemma_parse_number_print(s, p4 + 18, e.direct);
    let p5 = p4 + 18 + lm3;
    assert(spec_num_field(s, p4 + 1, ascii_seq("direct"@)) == Some((e.direct, p5)));
    let o5 = o4 + 18 + lm3;
    // the comma and the indirect field's key
    lemma_skip_ws_run(s, p5, p5);
    assert(spec_comma(s, p5) == Some(p5 + 1));
    assert forall|k: int| p5 + 1 <= k < p5 + 8 implies crate::json::is_ws(#[trigger] s[k]) by {
        assert(s[k] == et[k - i]);
    }
    assert(s[p5 + 8] == et[o5 + 8] && et[o5 + 8] == 34);
    assert(s.subrange(p5 + 9, p5 + 17) =~= ascii_seq("indirect"@)) by {
        assert forall|k: int| 0 <= k < 8 implies s.subrange(p5 + 9, p5 + 17)[k] == ascii_seq(
            "indirect"@,
        )[k] by {
            assert(s[p5 + 9 + k] == et[o5 + 9 + k]);
        }
    }
    assert(s[p5 + 17] == et[o5 + 17] && s[p5 + 18] == et[o5 + 18] && s[p5 + 19] == et[o5 + 19]);
    assert(et[o5 + 17] == 34 && et[o5 + 18] == 58 && et[o5 + 19] == 32);
    lemma_dec_shape(e.indirect as int / 1000);
    assert(s.subrange(p5 + 20, p5 + 20 + lm4) =~= m4) by {
        assert forall|k: int|
            0 <= k < lm4 implies s.subrange(p5 + 20, p5 + 20 + lm4)[k] == m4[k] by {
            assert(s[p5 + 20 + k] == et[o5 + 20 + k]);
        }
    }
    assert(s[p5 + 20] == et[o5 + 20] && et[o5 + 20] == m4[0] && is_digit(m4[0]));
    lemma_key_colon_exact(s, p5 + 1, p5 + 8, ascii_seq("indirect"@));
    let p6 = p5 + 20 + lm4;
    let o6 = o5 + 20 + lm4;
    assert(s[p6] == et[o6] && et[o6] == 10);
    lemma_parse_number_print(s, p5 + 20, e.indirect);
    assert(spec_num_field(s, p5 + 1, ascii_seq("indirect"@)) == Some((e.indirect, p6)));
    // whitespace and the closing brace
    assert forall|k: int| p6 <= k < p6 + 5 implies crate::json::is_ws(#[trigger] s[k]) by {
        assert(s[k] == et[k - i]);
    }
    assert(s[p6 + 5] == et[o6 + 5] && et[o6 + 5] == 125);
    lemma_skip_ws_run(s, p6, p6 + 5);
    assert(spec_entry_back(s, b) == Some(((e.group_supervision, e.direct, e.indirect), p6 + 6)));
    assert(p6 + 6 == i + le);
}

/// Reading a printed entry gives the entry back.
pub proof fn lemma_parse_entry_print(s: Seq<u8>, i: int, e: WeekEntry)
    requires
        crate::json::spec_entry_printable(e),
        0 <= i,
        i + crate::json::spec_entry_text(e).len() <= s.len(),
        s.subrange(i, i + crate::json::spec_entry_text(e).len() as int)
            == crate::json::spec_entry_text(e),
    ensures
        spec_parse_entry(s, i) == Some((e, i + crate::json::spec_entry_text(e).len() as int)),
        crate::json::spec_entry_text(e).len() >= 96,
{
    lemma_entry_front_print(s, i, e);
    lemma_entry_back_print(s, i, e);
    assert(s[i] == 123) by {
        assert(s.subrange(i, i + crate::json::spec_entry_text(e).len() as int)[0]
            == crate::json::spec_entry_text(e)[0]);
        reveal(crate::json::spec_entry_text);
        reveal_strlit("{\n      \"start\": \"");
    }
}



/// Reading the printed second and later entries gives them back, up
/// to the closing bracket that follows them.
#[verifier::rlimit(100)]
#[verifier::spinoff_prover]
proof fn lemma_parse_rest_print(s: Seq<u8>, i: int, rest: Seq<WeekEntry>, acc: Seq<WeekEntry>)
    requires
        crate::json::spec_entries_printable(rest),
        0 <= i,
        i + crate::json::spec_entries_tail(rest).len() <= s.len(),
        s.subrange(i, i + crate::json::spec_entries_tail(rest).len() as int)
            == crate::json::spec_entries_tail(rest),
        ({
            let z = spec_skip_ws(s, i + crate::json::spec_entries_tail(rest).len() as int);
            z < s.len() && s[z] == 93
        }),
    ensures
        spec_parse_rest(s, i, acc) == Some(
            (
                acc + rest,
                spec_skip_ws(s, i + crate::json::spec_entries_tail(rest).len() as int) + 1,
            ),
        ),
    decreases rest.len(),
{
    reveal_strlit(",\n    ");
    let tt = crate::json::spec_entries_tail(rest);
    let lt = tt.len() as int;
    let z = spec_skip_ws(s, i + lt);
    if rest.len() == 0 {
        assert(spec_parse_rest(s, i, acc) == Some((acc, z + 1)));
        assert(acc + rest =~= acc);
    } else {
        let e0 = rest[0];
        let et = crate::json::spec_entry_text(e0);
        let le = et.len() as int;
        let tr = crate::json::spec_entries_tail(rest.drop_first());
        let ltr = tr.len() as int;
        assert(tt == ascii_seq(",\n    "@) + et + tr);
        assert(lt == 6 + le + ltr);
        assert forall|k: int| 0 <= k < lt implies s[i + k] == #[trigger] tt[k] by {
            assert(s.subrange(i, i + lt)[k] == tt[k]);
        }
        assert(s[i] == tt[0] && tt[0] == 44);
        lemma_skip_ws_run(s, i, i);
        assert forall|k: int| i + 1 <= k < i + 6 implies crate::json::is_ws(#[trigger] s[k]) by {
            assert(s[k] == tt[k - i]);
        }
        assert(s.subrange(i + 6, i + 6 + le) =~= et) by {
            assert forall|k: int| 0 <= k < le implies s.subrange(i + 6, i + 6 + le)[k]
                == et[k] by {
                assert(s[i + 6 + k] == tt[6 + k]);
            }
        }
        lemma_parse_entry_print(s, i + 6, e0);
        assert(s[i + 6] == tt[6] && tt[6] == et[0]);
        assert(s[i + 6] == 123) by {
            reveal(crate::json::spec_entry_text);
            reveal_strlit("{\n      \"start\": \"");
        }
        lemma_skip_ws_run(s, i + 1, i + 6);
        let p = i + 6 + le;
        assert(s.subrange(p, p + ltr) =~= tr) by {
            assert forall|k: int| 0 <= k < ltr implies s.subrange(p, p + ltr)[k] == tr[k] by {
                assert(s[p + k] == tt[6 + le + k]);
            }
        }
        assert(crate::json::spec_entries_printable(rest.drop_first())) by {
            assert forall|k: int|
                0 <= k < rest.drop_first().len() implies crate::json::spec_entry_printable(
                #[trigger] rest.drop_first()[k],
            ) by {
                assert(rest.drop_first()[k] == rest[k + 1]);
            }
        }
        lemma_parse_rest_print(s, p, rest.drop_first(), acc.push(e0));
        assert(acc.push(e0) + rest.drop_first() =~= acc + rest);
        assert(spec_parse_rest(s, i, acc) == spec_parse_rest(s, p, acc.push(e0)));
    }
}

/// The empty ledger's text parses to no entries.
#[verifier::rlimit(100)]
#[verifier::spinoff_prover]
proof fn lemma_parse_ledger_print_empty(w: Seq<WeekEntry>)
    requires
        w.len() == 0,
    ensures
        spec_parse_ledger(crate::json::spec_ledger_text(w)) == Some(w),
{
    reveal(crate::json::spec_ledger_text);
    reveal_strlit("{\n  \"weeks\": []\n}");
    reveal_strlit("weeks");
    let s = crate::json::spec_ledger_text(w);
    assert(s.len() == 17);
    assert(s[0] == 123 && s[4] == 34 && s[10] == 34 && s[11] == 58 && s[12] == 32 && s[13] == 91
        && s[14] == 93 && s[15] == 10 && s[16] == 125);
    lemma_skip_ws_run(s, 0, 0);
    assert(s.subrange(5, 10) =~= ascii_seq("weeks"@));
    lemma_key_colon_exact(s, 1, 4, ascii_seq("weeks"@));
    lemma_skip_ws_run(s, 14, 14);
    lemma_skip_ws_run(s, 15, 16);
    lemma_skip_ws_run(s, 17, 17);
    assert(spec_parse_ledger(s) == Some(Seq::<WeekEntry>::empty()));
    assert(Seq::<WeekEntry>::empty() =~= w);
}

/// The byte layout of a non-empty ledger's text.
#[verifier::rlimit(100)]
#[verifier::spinoff_prover]
proof fn lemma_ledger_layout_nonempty(w: Seq<WeekEntry>)
    requires
        w.len() > 0,
    ensures
        ({
            let s = crate::json::spec_ledger_text(w);
            let le = crate::json::spec_entry_text(w[0]).len() as int;
            let ltr = crate::json::spec_entries_tail(w.drop_first()).len() as int;
            let p = 19 + le;
            &&& s.len() == 25 + le + ltr
            &&& s[0] == 123
            &&& crate::json::is_ws(s[1]) && crate::json::is_ws(s[2]) && crate::json::is_ws(s[3])
            &&& s[4] == 34
            &&& s.subrange(5, 10) == ascii_seq("weeks"@)
            &&& s[10] == 34 && s[11] == 58 && s[12] == 32 && s[13] == 91
            &&& crate::json::is_ws(s[14]) && crate::json::is_ws(s[15]) && crate::json::is_ws(
                s[16],
            ) && crate::json::is_ws(s[17]) && crate::json::is_ws(s[18])
            &&& s.subrange(19, p) == crate::json::spec_entry_text(w[0])
            &&& s.subrange(p, p + ltr) == crate::json::spec_entries_tail(w.drop_first())
            &&& crate::json::is_ws(s[p + ltr]) && crate::json::is_ws(s[p + ltr + 1])
                && crate::json::is_ws(s[p + ltr + 2])
            &&& s[p + ltr + 3] == 93 && s[p + ltr + 4] == 10 && s[p + ltr + 5] == 125
        }),
{
    reveal(crate::json::spec_ledger_text);
    reveal_strlit("{\n  \"weeks\": [");
    reveal_strlit("\n    ");
    reveal_strlit("\n  ]\n}");
    reveal_strlit("weeks");
    let s = crate::json::spec_ledger_text(w);
    let et = crate::json::spec_entry_text(w[0]);
    let le = et.len() as int;
    let tr = crate::json::spec_entries_tail(w.drop_first());
    let ltr = tr.len() as int;
    let p = 19 + le;
    assert(s == ascii_seq("{\n  \"weeks\": ["@) + ascii_seq("\n    "@) + et + tr + ascii_seq(
        "\n  ]\n}"@,
    ));
    assert(s.len() == 25 + le + ltr);
    assert(s.subrange(5, 10) =~= ascii_seq("weeks"@));
    assert(s.subrange(19, p) =~= et) by {
        assert forall|k: int| 0 <= k < le implies s.subrange(19, p)[k] == et[k] by {}
    }
    assert(s.subrange(p, p + ltr) =~= tr) by {
        assert forall|k: int| 0 <= k < ltr implies s.subrange(p, p + ltr)[k] == tr[k] by {}
    }
}

/// The tail of the walk: from the parsed first entry to the whole
/// ledger.
#[verifier::rlimit(100)]
#[verifier::spinoff_prover]
proof fn lemma_parse_ledger_print_tail(w: Seq<WeekEntry>)
    requires
        crate::json::spec_entries_printable(w),
        w.len() > 0,
        ({
            let s = crate::json::spec_ledger_text(w);
            let le = crate::json::spec_entry_text(w[0]).len() as int;
            let ltr = crate::json::spec_entries_tail(w.drop_first()).len() as int;
            let p = 19 + le;
            &&& le >= 96
            &&& s.len() == 25 + le + ltr
            &&& spec_skip_ws(s, 0) == 0
            &&& s[0] == 123
            &&& spec_key_colon(s, 1, ascii_seq("weeks"@)) == Some(13int)
            &&& s[13] == 91
            &&& spec_skip_ws(s, 14) == 19
            &&& s[19] == 123
            &&& spec_parse_entry(s, 19) == Some((w[0], p))
            &&& s.subrange(p, p + ltr) == crate::json::spec_entries_tail(w.drop_first())
            &&& crate::json::is_ws(s[p + ltr]) && crate::json::is_ws(s[p + ltr + 1])
                && crate::json::is_ws(s[p + ltr + 2])
            &&& s[p + ltr + 3] == 93 && s[p + ltr + 4] == 10 && s[p + ltr + 5] == 125
        }),
    ensures
        spec_parse_ledger(crate::json::spec_ledger_text(w)) == Some(w),
{
    let s = crate::json::spec_ledger_text(w);
    let e0 = w[0];
    let le = crate::json::spec_entry_text(e0).len() as int;
    let tr = crate::json::spec_entries_tail(w.drop_first());
    let ltr = tr.len() as int;
    let p = 19 + le;
    assert(crate::json::spec_entries_printable(w.drop_first())) by {
        assert forall|k: int|
            0 <= k < w.drop_first().len() implies crate::json::spec_entry_printable(
            #[trigger] w.drop_first()[k],
        ) by {
            assert(w.drop_first()[k] == w[k + 1]);
        }
    }
    lemma_skip_ws_run(s, p + ltr, p + ltr + 3);
    lemma_parse_rest_print(s, p, w.drop_first(), seq![e0]);
    assert(seq![e0] + w.drop_first() =~= w);
    let z = p + ltr + 3;
    // the footer
    lemma_skip_ws_run(s, z + 1, z + 2);
    lemma_skip_ws_run(s, z + 3, z + 3);
    assert(spec_finish(s, Some((w, z + 1))) == Some(w));
    assert(spec_parse_ledger(s) == Some(w));
}

/// A non-empty ledger's text parses to exactly its entries.
#[verifier::rlimit(100)]
#[verifier::spinoff_prover]
proof fn lemma_parse_ledger_print_nonempty(w: Seq<WeekEntry>)
    requires
        crate::json::spec_entries_printable(w),
        w.len() > 0,
    ensures
        spec_parse_ledger(crate::json::spec_ledger_text(w)) == Some(w),
{
    reveal_strlit("weeks");
    lemma_ledger_layout_nonempty(w);
    let s = crate::json::spec_ledger_text(w);
    let e0 = w[0];
    let et = crate::json::spec_entry_text(e0);
    let le = et.len() as int;
    let p = 19 + le;
    lemma_skip_ws_run(s, 0, 0);
    lemma_key_colon_exact(s, 1, 4, ascii_seq("weeks"@));
    lemma_parse_entry_print(s, 19, e0);
    assert(s[19] == et[0]) by {
        assert(s.subrange(19, p)[0] == et[0]);
    }
    assert(s[19] == 123) by {
        reveal(crate::json::spec_entry_text);
        reveal_strlit("{\n      \"start\": \"");
    }
    lemma_skip_ws_run(s, 14, 19);
    lemma_parse_ledger_print_tail(w);
}

/// Reading a printed ledger gives exactly its entries back: printing
/// and parsing round-trip.
pub proof fn lemma_parse_ledger_print(w: Seq<WeekEntry>)
    requires
        crate::json::spec_entries_printable(w),
    ensures
        spec_parse_ledger(crate::json::spec_ledger_text(w)) == Some(w),
{
    if w.len() == 0 {
        lemma_parse_ledger_print_empty(w);
    } else {
        lemma_parse_ledger_print_nonempty(w);
    }
}

} // verus!