//! Decimal parsing for the numeric fields of uevent records and the memory
//! statistics file.

use vstd::prelude::*;
use vstd::string::StrSliceExecFns;

verus! {

/// A decimal digit, as a character.
pub open spec fn is_digit_char(c: char) -> bool {
    48 <= c as u32 && c as u32 <= 57
}

/// A decimal digit, as a byte.
pub open spec fn is_digit_byte(b: u8) -> bool {
    48 <= b && b <= 57
}

/// Every character of `s` is a decimal digit.
pub open spec fn chars_are_digits(s: Seq<char>) -> bool {
    forall|i: int| 0 <= i < s.len() ==> is_digit_char(#[trigger] s[i])
}

/// Every byte of `s` is a decimal digit.
pub open spec fn bytes_are_digits(s: Seq<u8>) -> bool {
    forall|i: int| 0 <= i < s.len() ==> is_digit_byte(#[trigger] s[i])
}

/// The number denoted by a sequence of digit characters, most significant
/// first.
pub open spec fn dec_value(s: Seq<char>) -> int
    decreases s.len(),
{
    if s.len() == 0 {
        0
    } else {
        dec_value(s.drop_last()) * 10 + (s.last() as u32 - 48)
    }
}

/// The number denoted by a sequence of digit bytes, most significant first.
pub open spec fn dec_value_bytes(s: Seq<u8>) -> int
    decreases s.len(),
{
    if s.len() == 0 {
        0
    } else {
        dec_value_bytes(s.drop_last()) * 10 + (s.last() - 48)
    }
}

/// What a string of characters parses to as an unsigned 64-bit number: the
/// denoted value when the string is a nonempty run of digits that fits,
/// nothing otherwise.
pub open spec fn parse_u64_spec(s: Seq<char>) -> Option<u64> {
    if s.len() > 0 && chars_are_digits(s) && dec_value(s) <= u64::MAX {
        Some(dec_value(s) as u64)
    } else {
        None
    }
}

/// The byte-level counterpart of [`parse_u64_spec`].
pub open spec fn parse_u64_bytes_spec(s: Seq<u8>) -> Option<u64> {
    if s.len() > 0 && bytes_are_digits(s) && dec_value_bytes(s) <= u64::MAX {
        Some(dec_value_bytes(s) as u64)
    } else {
        None
    }
}

/// The value of a digit-byte run is never negative.
pub proof fn lemma_dec_value_bytes_nonneg(s: Seq<u8>)
    requires
        bytes_are_digits(s),
    ensures
        dec_value_bytes(s) >= 0,
    decreases s.len(),
{
    if s.len() > 0 {
        assert(bytes_are_digits(s.drop_last()));
        lemma_dec_value_bytes_nonneg(s.drop_last());
    }
}

/// A digit-byte run's value never shrinks as more digits are appended.
pub proof fn lemma_dec_value_bytes_prefix(s: Seq<u8>, i: int)
    requires
        bytes_are_digits(s),
        0 <= i <= s.len(),
    ensures
        0 <= dec_value_bytes(s.subrange(0, i)) <= dec_value_bytes(s),
    decreases s.len() - i,
{
    if i == s.len() {
        assert(s.subrange(0, i) =~= s);
        lemma_dec_value_bytes_nonneg(s);
    } else {
        lemma_dec_value_bytes_prefix(s, i + 1);
        assert(s.subrange(0, i + 1).drop_last() =~= s.subrange(0, i));
        assert(s.subrange(0, i + 1).last() == s[i]);
        lemma_dec_value_bytes_nonneg(s.subrange(0, i));
    }
}

/// The value of a digit-character run is never negative.
pub proof fn lemma_dec_value_nonneg(s: Seq<char>)
    requires
        chars_are_digits(s),
    ensures
        dec_value(s) >= 0,
    decreases s.len(),
{
    if s.len() > 0 {
        assert(chars_are_digits(s.drop_last()));
        lemma_dec_value_nonneg(s.drop_last());
    }
}

/// A digit-character run's value never shrinks as more digits are appended.
pub proof fn lemma_dec_value_prefix(s: Seq<char>, i: int)
    requires
        chars_are_digits(s),
        0 <= i <= s.len(),
    ensures
        0 <= dec_value(s.subrange(0, i)) <= dec_value(s),
    decreases s.len() - i,
{
    if i == s.len() {
        assert(s.subrange(0, i) =~= s);
        lemma_dec_value_nonneg(s);
    } else {
        lemma_dec_value_prefix(s, i + 1);
        assert(s.subrange(0, i + 1).drop_last() =~= s.subrange(0, i));
        assert(s.subrange(0, i + 1).last() == s[i]);
        lemma_dec_value_nonneg(s.subrange(0, i));
    }
}

/// Parses a run of decimal digit bytes as a 64-bit number; rejects anything
/// empty, non-numeric or too large.
pub fn parse_u64_bytes(s: &[u8]) -> (r: Option<u64>)
    ensures
        r == parse_u64_bytes_spec(s@),
{
    let n: usize = s.len();
    if n == 0 {
        return None;
    }
    let mut acc: u64 = 0;
    let mut i: usize = 0;
    while i < n
        invariant
            0 < n == s@.len(),
            i <= n,
            bytes_are_digits(s@.subrange(0, i as int)),
            acc == dec_value_bytes(s@.subrange(0, i as int)),
        decreases n - i,
    {
        let b = s[i];
        if b < 48 || b > 57 {
            assert(!bytes_are_digits(s@)) by {
                assert(!is_digit_byte(s@[i as int]));
            }
            return None;
        }
        let d: u64 = (b - 48) as u64;
        let ghost pfx = s@.subrange(0, i as int);
        let ghost ext = s@.subrange(0, i + 1);
        assert(ext.drop_last() =~= pfx);
        assert(ext.last() == s@[i as int]);
        let shifted = match acc.checked_mul(10) {
            Some(v) => v,
            None => {
                proof {
                    bytes_overflow_means_too_large(s@, i as int);
                }
                return None;
            },
        };
        let next = match shifted.checked_add(d) {
            Some(v) => v,
            None => {
                proof {
                    bytes_overflow_means_too_large(s@, i as int);
                }
                return None;
            },
        };
        acc = next;
        i = i + 1;
    }
    assert(s@.subrange(0, n as int) =~= s@);
    Some(acc)
}

/// If the value of the digit bytes up to and including position `i` already
/// exceeds `u64::MAX`, the whole run does too.
proof fn bytes_overflow_means_too_large(s: Seq<u8>, i: int)
    requires
        0 <= i < s.len(),
        bytes_are_digits(s.subrange(0, i)),
        is_digit_byte(s[i]),
        dec_value_bytes(s.subrange(0, i + 1)) > u64::MAX,
    ensures
        parse_u64_bytes_spec(s) is None,
{
    if bytes_are_digits(s) {
        lemma_dec_value_bytes_prefix(s, i + 1);
    }
}

/// If the value of the digit characters up to and including position `i`
/// already exceeds `u64::MAX`, the whole run does too.
proof fn chars_overflow_means_too_large(s: Seq<char>, i: int)
    requires
        0 <= i < s.len(),
        chars_are_digits(s.subrange(0, i)),
        is_digit_char(s[i]),
        dec_value(s.subrange(0, i + 1)) > u64::MAX,
    ensures
        parse_u64_spec(s) is None,
{
    if chars_are_digits(s) {
        lemma_dec_value_prefix(s, i + 1);
    }
}

/// Parses a string as an unsigned 64-bit decimal number, reporting a parse
/// error for anything empty, non-numeric or too large.
pub fn parse_u64_with_io_error(s: &str) -> (r: Result<u64, ParseNumError>)
    ensures
        match r {
            Ok(v) => parse_u64_spec(s@) == Some(v),
            Err(_) => parse_u64_spec(s@) is None,
        },
{
    let n: usize = s.unicode_len();
    if n == 0 {
        return Err(ParseNumError);
    }
    let mut acc: u64 = 0;
    let mut i: usize = 0;
    while i < n
        invariant
            0 < n == s@.len(),
            i <= n,
            chars_are_digits(s@.subrange(0, i as int)),
            acc == dec_value(s@.subrange(0, i as int)),
        decreases n - i,
    {
        let c = s.get_char(i);
        let v: u32 = c as u32;
        if v < 48 || v > 57 {
            assert(!chars_are_digits(s@)) by {
                assert(!is_digit_char(s@[i as int]));
            }
            return Err(ParseNumError);
        }
        let d: u64 = (v - 48) as u64;
        let ghost pfx = s@.subrange(0, i as int);
        let ghost ext = s@.subrange(0, i + 1);
        assert(ext.drop_last() =~= pfx);
        assert(ext.last() == s@[i as int]);
        let shifted = match acc.checked_mul(10) {
            Some(w) => w,
            None => {
                proof {
                    chars_overflow_means_too_large(s@, i as int);
                }
                return Err(ParseNumError);
            },
        };
        let next = match shifted.checked_add(d) {
            Some(w) => w,
            None => {
                proof {
                    chars_overflow_means_too_large(s@, i as int);
                }
                return Err(ParseNumError);
            },
        };
        acc = next;
        i = i + 1;
    }
    assert(s@.subrange(0, n as int) =~= s@);
    Ok(acc)
}

/// A string did not denote an unsigned 64-bit decimal number.
#[derive(Clone, Copy, PartialEq, Eq, Structural, Debug)]
pub struct ParseNumError;

} // verus!
