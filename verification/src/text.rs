//! Small helpers for ASCII byte text.
//!
//! The persisted ledger form and the category tokens are ASCII, so the
//! crate states text contracts over `Seq<u8>` and moves between string
//! literals and bytes through [`ascii_seq`].

use vstd::prelude::*;
use vstd::string::is_ascii;

use crate::date::Date;

verus! {

pub open spec fn is_digit(b: u8) -> bool {
    48 <= b <= 57
}

/// The ASCII digit of `n`, for `0 <= n <= 9`.
pub open spec fn dec_digit(n: int) -> u8 {
    (48 + n) as u8
}

/// The decimal digits of `n >= 0`, most significant first, without
/// leading zeros (a single `0` for zero).
pub open spec fn spec_dec(n: int) -> Seq<u8>
    decreases n,
{
    if n <= 9 {
        seq![dec_digit(n)]
    } else {
        spec_dec(n / 10).push(dec_digit(n % 10))
    }
}

/// Two decimal digits, zero padded, for `0 <= n < 100`.
pub open spec fn spec_pad2(n: int) -> Seq<u8> {
    seq![dec_digit(n / 10), dec_digit(n % 10)]
}

/// Four decimal digits, zero padded, for `0 <= n < 10000`.
pub open spec fn spec_pad4(n: int) -> Seq<u8> {
    seq![dec_digit(n / 1000), dec_digit((n / 100) % 10), dec_digit((n / 10) % 10), dec_digit(n % 10)]
}

/// A date as `YYYY-MM-DD`.
pub open spec fn spec_date_text(d: Date) -> Seq<u8> {
    spec_pad4(d.year as int) + seq!['-' as u8] + spec_pad2(d.month as int) + seq!['-' as u8]
        + spec_pad2(d.day as int)
}

/// The fraction digits of a value in thousandths, `0 <= f < 1000`:
/// one to three digits, trailing zeros trimmed but at least one digit,
/// as a decimal fraction `f/1000` is written after the point.
pub open spec fn spec_frac_text(f: int) -> Seq<u8> {
    if f % 100 == 0 {
        seq![dec_digit(f / 100)]
    } else if f % 10 == 0 {
        seq![dec_digit(f / 100), dec_digit((f / 10) % 10)]
    } else {
        seq![dec_digit(f / 100), dec_digit((f / 10) % 10), dec_digit(f % 10)]
    }
}

/// A non-negative value in thousandths of an hour, written as a plain
/// decimal number: integer part, point, trimmed fraction digits.
pub open spec fn spec_milli_text(v: int) -> Seq<u8> {
    spec_dec(v / 1000) + seq!['.' as u8] + spec_frac_text(v % 1000)
}

/// Appends the decimal digits of `n`.
pub fn push_dec_u64(out: &mut Vec<u8>, n: u64)
    ensures
        final(out)@ == old(out)@ + spec_dec(n as int),
    decreases n,
{
    if n > 9 {
        push_dec_u64(out, n / 10);
    }
    out.push(48 + (n % 10) as u8);
    proof {
        if n > 9 {
            assert(final(out)@ =~= old(out)@ + spec_dec(n as int));
        } else {
            assert(final(out)@ =~= old(out)@ + spec_dec(n as int));
        }
    }
}

/// Appends two zero-padded decimal digits.
pub fn push_pad2(out: &mut Vec<u8>, n: u32)
    requires
        n < 100,
    ensures
        final(out)@ == old(out)@ + spec_pad2(n as int),
{
    out.push(48 + (n / 10) as u8);
    out.push(48 + (n % 10) as u8);
    proof {
        assert(final(out)@ =~= old(out)@ + spec_pad2(n as int));
    }
}

/// Appends four zero-padded decimal digits.
pub fn push_pad4(out: &mut Vec<u8>, n: u32)
    requires
        n < 10000,
    ensures
        final(out)@ == old(out)@ + spec_pad4(n as int),
{
    out.push(48 + (n / 1000) as u8);
    out.push(48 + ((n / 100) % 10) as u8);
    out.push(48 + ((n / 10) % 10) as u8);
    out.push(48 + (n % 10) as u8);
    proof {
        assert(final(out)@ =~= old(out)@ + spec_pad4(n as int));
    }
}

/// Appends a date as `YYYY-MM-DD`.
pub fn push_date(out: &mut Vec<u8>, d: &Date)
    requires
        d.year < 10000,
        d.month < 100,
        d.day < 100,
    ensures
        final(out)@ == old(out)@ + spec_date_text(*d),
{
    push_pad4(out, d.year);
    out.push(45);  // '-'
    push_pad2(out, d.month);
    out.push(45);  // '-'
    push_pad2(out, d.day);
    proof {
        assert(('-' as u8) == 45);
        assert(final(out)@ =~= old(out)@ + spec_date_text(*d));
    }
}

/// Appends a non-negative hour value held in thousandths.
pub fn push_milli(out: &mut Vec<u8>, v: i64)
    requires
        v >= 0,
    ensures
        final(out)@ == old(out)@ + spec_milli_text(v as int),
{
    push_dec_u64(out, (v / 1000) as u64);
    out.push(46);  // '.'
    let f = (v % 1000) as u32;
    if f % 100 == 0 {
        out.push(48 + (f / 100) as u8);
    } else if f % 10 == 0 {
        out.push(48 + (f / 100) as u8);
        out.push(48 + ((f / 10) % 10) as u8);
    } else {
        out.push(48 + (f / 100) as u8);
        out.push(48 + ((f / 10) % 10) as u8);
        out.push(48 + (f % 10) as u8);
    }
    proof {
        assert(('.' as u8) == 46);
        assert(final(out)@ =~= old(out)@ + spec_milli_text(v as int));
    }
}

/// The bytes of an ASCII character sequence, one byte per character.
pub open spec fn ascii_seq(s: Seq<char>) -> Seq<u8> {
    Seq::new(s.len(), |i| s[i] as u8)
}

/// The bytes of an ASCII string slice.
pub fn str_bytes<'a>(s: &'a str) -> (r: &'a [u8])
    requires
        is_ascii(s),
    ensures
        r@ == ascii_seq(s@),
{
    let r = s.as_bytes();
    proof {
        vstd::string::is_ascii_spec_bytes(s);
        assert(r@ =~= ascii_seq(s@));
    }
    r
}

/// Whether two byte slices hold the same bytes.
pub fn bytes_eq(a: &[u8], b: &[u8]) -> (r: bool)
    ensures
        r == (a@ == b@),
{
    if a.len() != b.len() {
        proof {
            assert(a@.len() != b@.len());
        }
        return false;
    }
    let mut i: usize = 0;
    while i < a.len()
        invariant
            i <= a@.len(),
            a@.len() == b@.len(),
            forall|j: int| 0 <= j < i ==> a@[j] == b@[j],
        decreases a@.len() - i,
    {
        if a[i] != b[i] {
            return false;
        }
        i = i + 1;
    }
    proof {
        assert(a@ =~= b@);
    }
    true
}

/// Appends the bytes of an ASCII string slice to `out`.
pub fn push_str(out: &mut Vec<u8>, s: &str)
    requires
        is_ascii(s),
    ensures
        final(out)@ == old(out)@ + ascii_seq(s@),
{
    let b = str_bytes(s);
    let mut i: usize = 0;
    while i < b.len()
        invariant
            i <= b@.len(),
            b@ == ascii_seq(s@),
            out@ == old(out)@ + b@.subrange(0, i as int),
        decreases b@.len() - i,
    {
        out.push(b[i]);
        proof {
            assert(out@ =~= old(out)@ + b@.subrange(0, i + 1));
        }
        i = i + 1;
    }
    proof {
        assert(old(out)@ + b@.subrange(0, b@.len() as int) =~= old(out)@ + ascii_seq(s@));
    }
}

} // verus!
