//! Byte-level text handling: ASCII classification, whitespace trimming, and
//! fixed-point decimal parsing.
//!
//! The measurement sources carry numbers as ASCII text. A scaling file holds
//! a kilohertz count, possibly with surrounding whitespace; a fallback line
//! carries a megahertz figure with a fractional part. Both are parsed here
//! into integer kilohertz, that is thousandths of a megahertz. Digits past
//! the third fractional place are ignored, and a value too large for `u64`
//! is treated as unparsable, so an unreadable or absurd reading degrades to
//! an absent field rather than a wrong one.

use vstd::prelude::*;
use vstd::slice::slice_subrange;

verus! {

/// ASCII whitespace: space, tab, line feed, vertical tab, form feed,
/// carriage return.
pub open spec fn is_ascii_ws(b: u8) -> bool {
    b == 32 || (9 <= b && b <= 13)
}

/// ASCII decimal digit.
pub open spec fn is_ascii_digit(b: u8) -> bool {
    48 <= b && b <= 57
}

/// Numeric value of one ASCII digit byte.
pub open spec fn digit_val(b: u8) -> nat
    recommends
        is_ascii_digit(b),
{
    (b - 48) as nat
}

/// Every byte of `s` is an ASCII digit.
pub open spec fn all_digits(s: Seq<u8>) -> bool {
    forall|i: int| 0 <= i < s.len() ==> is_ascii_digit(s[i])
}

/// Value of a string of decimal digits, most significant first.
pub open spec fn digits_val(s: Seq<u8>) -> nat
    decreases s.len(),
{
    if s.len() == 0 {
        0
    } else {
        digits_val(s.drop_last()) * 10 + digit_val(s.last())
    }
}

/// `s` with its leading ASCII whitespace removed.
pub open spec fn ltrimmed(s: Seq<u8>) -> Seq<u8>
    decreases s.len(),
{
    if s.len() > 0 && is_ascii_ws(s[0]) {
        ltrimmed(s.drop_first())
    } else {
        s
    }
}

/// `s` with its trailing ASCII whitespace removed.
pub open spec fn rtrimmed(s: Seq<u8>) -> Seq<u8>
    decreases s.len(),
{
    if s.len() > 0 && is_ascii_ws(s.last()) {
        rtrimmed(s.drop_last())
    } else {
        s
    }
}

/// `s` with surrounding ASCII whitespace removed.
pub open spec fn trimmed(s: Seq<u8>) -> Seq<u8> {
    rtrimmed(ltrimmed(s))
}

/// Index of the first `.` in `s` at or after `i`, or `s.len()` if there is
/// none.
pub open spec fn first_dot_from(s: Seq<u8>, i: int) -> int
    decreases s.len() - i,
{
    if i < 0 || i >= s.len() {
        s.len() as int
    } else if s[i] == 46 {
        i
    } else {
        first_dot_from(s, i + 1)
    }
}

/// The digits before the first `.` of `s` (all of `s` if there is no dot).
pub open spec fn dec_int_part(s: Seq<u8>) -> Seq<u8> {
    s.take(first_dot_from(s, 0))
}

/// The digits after the first `.` of `s` (empty if there is no dot).
pub open spec fn dec_frac_part(s: Seq<u8>) -> Seq<u8> {
    if first_dot_from(s, 0) == s.len() {
        Seq::empty()
    } else {
        s.skip(first_dot_from(s, 0) + 1)
    }
}

/// `s` is a plain decimal number: digits with at most one `.`, at least one
/// digit in all. A second dot would sit in the fractional part and is no
/// digit, so it is excluded here.
pub open spec fn dec_wf(s: Seq<u8>) -> bool {
    &&& all_digits(dec_int_part(s))
    &&& all_digits(dec_frac_part(s))
    &&& dec_int_part(s).len() + dec_frac_part(s).len() >= 1
}

/// Value of a fractional digit string in thousandths: the first three
/// digits, right-padded with zeros; further digits are ignored.
pub open spec fn frac3_val(s: Seq<u8>) -> nat {
    if s.len() >= 3 {
        digits_val(s.take(3))
    } else if s.len() == 2 {
        digits_val(s) * 10
    } else if s.len() == 1 {
        digits_val(s) * 100
    } else {
        0
    }
}

/// Value of the decimal number `s` in thousandths of its unit.
pub open spec fn dec_milli_val(s: Seq<u8>) -> nat {
    digits_val(dec_int_part(s)) * 1000 + frac3_val(dec_frac_part(s))
}

/// Value of the decimal number `s` rounded down to whole units.
pub open spec fn dec_floor_val(s: Seq<u8>) -> nat {
    digits_val(dec_int_part(s))
}

/// What a scaling measurement file's bytes denote: the text, trimmed of
/// surrounding whitespace, read as a decimal kilohertz count rounded down
/// to a whole kilohertz; `None` when it is not a decimal number or does not
/// fit.
pub open spec fn spec_parse_khz(text: Seq<u8>) -> Option<u64> {
    if dec_wf(trimmed(text)) && dec_floor_val(trimmed(text)) <= u64::MAX {
        Some(dec_floor_val(trimmed(text)) as u64)
    } else {
        None
    }
}

/// What a fallback-line value token denotes: a megahertz figure read to
/// three fractional places, held as kilohertz; `None` when it is not a
/// decimal number or does not fit.
pub open spec fn spec_parse_mhz_token(t: Seq<u8>) -> Option<u64> {
    if dec_wf(t) && dec_milli_val(t) <= u64::MAX {
        Some(dec_milli_val(t) as u64)
    } else {
        None
    }
}

/// Appending the digit at `s[i]` multiplies the prefix value by ten.
proof fn lemma_digits_val_step(s: Seq<u8>, i: int)
    requires
        0 <= i < s.len(),
    ensures
        digits_val(s.take(i + 1)) == digits_val(s.take(i)) * 10 + digit_val(s[i]),
{
    assert(s.take(i + 1).drop_last() =~= s.take(i));
    assert(s.take(i + 1).last() == s[i]);
}

/// The value of a digit string is at least the value of any of its prefixes.
proof fn lemma_digits_val_prefix_le(s: Seq<u8>, i: int)
    requires
        0 <= i <= s.len(),
    ensures
        digits_val(s.take(i)) <= digits_val(s),
    decreases s.len() - i,
{
    if i == s.len() {
        assert(s.take(i) =~= s);
    } else {
        lemma_digits_val_step(s, i);
        lemma_digits_val_prefix_le(s, i + 1);
    }
}

/// Whether `b` is ASCII whitespace.
fn is_ws_byte(b: u8) -> (r: bool)
    ensures
        r == is_ascii_ws(b),
{
    b == 32 || (9 <= b && b <= 13)
}

/// Whether every byte of `s` is an ASCII digit.
fn check_all_digits(s: &[u8]) -> (r: bool)
    ensures
        r == all_digits(s@),
{
    let mut i: usize = 0;
    while i < s.len()
        invariant
            0 <= i <= s@.len(),
            forall|j: int| 0 <= j < i ==> is_ascii_digit(s@[j]),
        decreases s@.len() - i,
    {
        if !(48 <= s[i] && s[i] <= 57) {
            return false;
        }
        i = i + 1;
    }
    true
}

/// Value of a string of ASCII digits, or `None` when a byte is no digit or
/// the value exceeds `u64::MAX`.
fn digits_value_u64(s: &[u8]) -> (r: Option<u64>)
    ensures
        r == (if all_digits(s@) && digits_val(s@) <= u64::MAX {
            Some(digits_val(s@) as u64)
        } else {
            None::<u64>
        }),
{
    let mut acc: u64 = 0;
    let mut i: usize = 0;
    while i < s.len()
        invariant
            0 <= i <= s@.len(),
            all_digits(s@.take(i as int)),
            acc == digits_val(s@.take(i as int)),
        decreases s@.len() - i,
    {
        let b = s[i];
        if !(48 <= b && b <= 57) {
            assert(!all_digits(s@));
            return None;
        }
        let d: u64 = (b - 48) as u64;
        let next: u128 = acc as u128 * 10 + d as u128;
        proof {
            lemma_digits_val_step(s@, i as int);
        }
        if next > u64::MAX as u128 {
            proof {
                lemma_digits_val_prefix_le(s@, i as int + 1);
            }
            return None;
        }
        acc = next as u64;
        assert(s@.take(i as int + 1) =~= s@.take(i as int).push(s@[i as int]));
        i = i + 1;
    }
    proof {
        assert(s@.take(i as int) =~= s@);
    }
    Some(acc)
}

/// Digit strings of up to three digits stay under a thousand.
proof fn lemma_digits_val_small(s: Seq<u8>)
    requires
        all_digits(s),
    ensures
        s.len() == 0 ==> digits_val(s) == 0,
        s.len() <= 1 ==> digits_val(s) <= 9,
        s.len() <= 2 ==> digits_val(s) <= 99,
        s.len() <= 3 ==> digits_val(s) <= 999,
    decreases s.len(),
{
    if s.len() > 0 {
        lemma_digits_val_small(s.drop_last());
    }
}

/// Dropping `i` leading whitespace bytes does not change the left trim.
proof fn lemma_ltrimmed_skip(s: Seq<u8>, i: int)
    requires
        0 <= i <= s.len(),
        forall|j: int| 0 <= j < i ==> is_ascii_ws(s[j]),
    ensures
        ltrimmed(s) == ltrimmed(s.skip(i)),
    decreases i,
{
    if i == 0 {
        assert(s.skip(0) =~= s);
    } else {
        assert(is_ascii_ws(s[0]));
        assert(s.drop_first() =~= s.skip(1));
        lemma_ltrimmed_skip(s.skip(1), i - 1);
        assert(s.skip(1).skip(i - 1) =~= s.skip(i));
    }
}

/// Dropping trailing whitespace bytes past `i` does not change the right
/// trim.
proof fn lemma_rtrimmed_take(s: Seq<u8>, i: int)
    requires
        0 <= i <= s.len(),
        forall|j: int| i <= j < s.len() ==> is_ascii_ws(s[j]),
    ensures
        rtrimmed(s) == rtrimmed(s.take(i)),
    decreases s.len() - i,
{
    if i == s.len() {
        assert(s.take(i) =~= s);
    } else {
        assert(is_ascii_ws(s.last()));
        assert(s.drop_last() =~= s.take(s.len() - 1));
        lemma_rtrimmed_take(s.take(s.len() - 1), i);
        assert(s.take(s.len() - 1).take(i) =~= s.take(i));
    }
}

/// Index of the first `.` in `s`, or `s.len()` if there is none.
fn find_dot(s: &[u8]) -> (r: usize)
    ensures
        r == first_dot_from(s@, 0),
        0 <= r <= s@.len(),
        r < s@.len() ==> s@[r as int] == 46,
{
    let mut i: usize = 0;
    while i < s.len()
        invariant
            0 <= i <= s@.len(),
            first_dot_from(s@, 0) == first_dot_from(s@, i as int),
        decreases s@.len() - i,
    {
        if s[i] == 46 {
            return i;
        }
        assert(first_dot_from(s@, i as int) == first_dot_from(s@, i as int + 1));
        i = i + 1;
    }
    i
}

/// Parses the content of a scaling measurement file: surrounding whitespace
/// is trimmed and the remaining decimal number is read as a whole kilohertz
/// count, any fractional part rounded down.
pub fn parse_scaling_value(text: &[u8]) -> (r: Option<u64>)
    ensures
        r == spec_parse_khz(text@),
{
    let mut lo: usize = 0;
    while lo < text.len() && is_ws_byte(text[lo])
        invariant
            0 <= lo <= text@.len(),
            forall|j: int| 0 <= j < lo ==> is_ascii_ws(text@[j]),
        decreases text@.len() - lo,
    {
        lo = lo + 1;
    }
    let mut hi: usize = text.len();
    while hi > lo && is_ws_byte(text[hi - 1])
        invariant
            lo <= hi <= text@.len(),
            forall|j: int| hi <= j < text@.len() ==> is_ascii_ws(text@[j]),
        decreases hi,
    {
        hi = hi - 1;
    }
    proof {
        lemma_ltrimmed_skip(text@, lo as int);
        assert(ltrimmed(text@.skip(lo as int)) == text@.skip(lo as int));
        lemma_rtrimmed_take(text@.skip(lo as int), hi - lo as int);
        assert(rtrimmed(text@.skip(lo as int).take(hi - lo as int)) == text@.skip(lo as int).take(
            hi - lo as int,
        ));
    }
    let t = slice_subrange(text, lo, hi);
    proof {
        assert(t@ =~= text@.skip(lo as int).take(hi - lo as int));
        assert(t@ == trimmed(text@));
    }
    let dot = find_dot(t);
    let ip = slice_subrange(t, 0, dot);
    let fp = if dot == t.len() {
        slice_subrange(t, t.len(), t.len())
    } else {
        slice_subrange(t, dot + 1, t.len())
    };
    proof {
        assert(ip@ =~= dec_int_part(t@));
        assert(fp@ =~= dec_frac_part(t@));
    }
    if ip.len() == 0 && fp.len() == 0 {
        return None;
    }
    if !check_all_digits(fp) {
        return None;
    }
    digits_value_u64(ip)
}

/// Parses a fallback-line value token: a decimal megahertz figure, read to
/// three fractional places and returned as kilohertz.
pub fn parse_mhz_token(t: &[u8]) -> (r: Option<u64>)
    ensures
        r == spec_parse_mhz_token(t@),
{
    let dot = find_dot(t);
    let ip = slice_subrange(t, 0, dot);
    let fp = if dot == t.len() {
        slice_subrange(t, t.len(), t.len())
    } else {
        slice_subrange(t, dot + 1, t.len())
    };
    proof {
        assert(ip@ =~= dec_int_part(t@));
        assert(fp@ =~= dec_frac_part(t@));
    }
    if ip.len() == 0 && fp.len() == 0 {
        return None;
    }
    if !check_all_digits(fp) {
        return None;
    }
    let iv = match digits_value_u64(ip) {
        Some(v) => v,
        None => {
            proof {
                if all_digits(ip@) {
                    assert(dec_milli_val(t@) >= digits_val(dec_int_part(t@)));
                }
            }
            return None;
        },
    };
    let f3: u64 = if fp.len() >= 3 {
        let f = slice_subrange(fp, 0, 3);
        proof {
            assert(f@ =~= fp@.take(3));
            lemma_digits_val_small(f@);
        }
        match digits_value_u64(f) {
            Some(x) => x,
            None => 0,
        }
    } else if fp.len() == 2 {
        proof {
            lemma_digits_val_small(fp@);
        }
        match digits_value_u64(fp) {
            Some(x) => x * 10,
            None => 0,
        }
    } else if fp.len() == 1 {
        proof {
            lemma_digits_val_small(fp@);
        }
        match digits_value_u64(fp) {
            Some(x) => x * 100,
            None => 0,
        }
    } else {
        0
    };
    assert(f3 == frac3_val(dec_frac_part(t@)));
    let total: u128 = iv as u128 * 1000 + f3 as u128;
    if total > u64::MAX as u128 {
        return None;
    }
    Some(total as u64)
}

} // verus!
