//! Numbers are IEEE-754 binary64 values, carried as their 64-bit patterns.
//!
//! Comparisons are implemented and specified directly on the bit patterns:
//! apart from the two zeroes (which are equal) and NaNs (which compare
//! unequal to everything, themselves included), IEEE-754 orders binary64
//! values by sign and magnitude, so the ordering is pure integer logic.
//! Only the conversions between decimal text and bit patterns rely on an
//! outside crate, through the trusted items at the end of this module.

use vstd::prelude::*;

use core::str::FromStr;
use rustc_apfloat::Float;

verus! {

/// The sign bit is set.
pub open spec fn spec_num_sign(b: u64) -> bool {
    b >> 63u64 == 1u64
}

/// Magnitude: everything but the sign bit.
pub open spec fn spec_num_mag(b: u64) -> u64 {
    b & 0x7FFF_FFFF_FFFF_FFFFu64
}

/// NaN: exponent all ones, fraction non-zero.
pub open spec fn spec_num_is_nan(b: u64) -> bool {
    (b >> 52u64) & 0x7FFu64 == 0x7FFu64 && b & 0xF_FFFF_FFFF_FFFFu64 != 0u64
}

/// Finite: exponent not all ones (neither NaN nor an infinity).
pub open spec fn spec_num_is_finite(b: u64) -> bool {
    (b >> 52u64) & 0x7FFu64 != 0x7FFu64
}

/// The ordering key of a non-NaN value: negative values sort by descending
/// magnitude, and both zeroes map to key `0`.
pub open spec fn spec_num_key(b: u64) -> int {
    if spec_num_sign(b) {
        -(spec_num_mag(b) as int)
    } else {
        spec_num_mag(b) as int
    }
}

/// IEEE equality: false on NaN, `-0 == +0`.
pub open spec fn spec_num_eq(a: u64, b: u64) -> bool {
    !spec_num_is_nan(a) && !spec_num_is_nan(b) && spec_num_key(a) == spec_num_key(b)
}

/// IEEE strictly-less-than: false on NaN.
pub open spec fn spec_num_lt(a: u64, b: u64) -> bool {
    !spec_num_is_nan(a) && !spec_num_is_nan(b) && spec_num_key(a) < spec_num_key(b)
}

/// IEEE less-or-equal: false on NaN.
pub open spec fn spec_num_le(a: u64, b: u64) -> bool {
    !spec_num_is_nan(a) && !spec_num_is_nan(b) && spec_num_key(a) <= spec_num_key(b)
}

/// The sign bit, exec side.
fn num_sign(b: u64) -> (r: bool)
    ensures
        r == spec_num_sign(b),
{
    (b >> 63u64) == 1u64
}

/// Whether the bit pattern is a NaN.
pub fn num_is_nan(b: u64) -> (r: bool)
    ensures
        r == spec_num_is_nan(b),
{
    ((b >> 52u64) & 0x7FFu64) == 0x7FFu64 && (b & 0xF_FFFF_FFFF_FFFFu64) != 0u64
}

/// IEEE equality on bit patterns.
pub fn num_eq(a: u64, b: u64) -> (r: bool)
    ensures
        r == spec_num_eq(a, b),
{
    if num_is_nan(a) || num_is_nan(b) {
        false
    } else {
        let ma = a & 0x7FFF_FFFF_FFFF_FFFFu64;
        let mb = b & 0x7FFF_FFFF_FFFF_FFFFu64;
        (num_sign(a) == num_sign(b) && ma == mb) || (ma == 0 && mb == 0)
    }
}

/// IEEE strictly-less-than on bit patterns.
pub fn num_lt(a: u64, b: u64) -> (r: bool)
    ensures
        r == spec_num_lt(a, b),
{
    if num_is_nan(a) || num_is_nan(b) {
        false
    } else {
        let sa = num_sign(a);
        let sb = num_sign(b);
        let ma = a & 0x7FFF_FFFF_FFFF_FFFFu64;
        let mb = b & 0x7FFF_FFFF_FFFF_FFFFu64;
        if sa != sb {
            sa && !(ma == 0 && mb == 0)
        } else if sa {
            mb < ma
        } else {
            ma < mb
        }
    }
}

/// IEEE less-or-equal on bit patterns.
pub fn num_le(a: u64, b: u64) -> (r: bool)
    ensures
        r == spec_num_le(a, b),
{
    if num_is_nan(a) || num_is_nan(b) {
        false
    } else {
        num_lt(a, b) || num_eq(a, b)
    }
}

/// A decimal digit byte.
pub open spec fn is_digit_byte(c: u8) -> bool {
    48 <= c <= 57
}

/// First index at or after `i` that does not hold a decimal digit.
pub open spec fn spec_scan_digits(s: Seq<u8>, i: int) -> int
    decreases s.len() - i,
{
    if 0 <= i < s.len() && is_digit_byte(s[i]) {
        spec_scan_digits(s, i + 1)
    } else {
        i
    }
}

/// Basic bounds and content of a digit scan.
pub proof fn lemma_scan_digits(s: Seq<u8>, i: int)
    requires
        0 <= i <= s.len(),
    ensures
        i <= spec_scan_digits(s, i) <= s.len(),
        forall|j: int| i <= j < spec_scan_digits(s, i) ==> is_digit_byte(s[j]),
        spec_scan_digits(s, i) < s.len() ==> !is_digit_byte(s[spec_scan_digits(s, i)]),
    decreases s.len() - i,
{
    if i < s.len() && is_digit_byte(s[i]) {
        lemma_scan_digits(s, i + 1);
    }
}

/// End of the exponent part of a number token starting at `k`, or `k`
/// itself when no well-formed exponent follows.
pub open spec fn spec_scan_exponent(s: Seq<u8>, k: int) -> int {
    if 0 <= k < s.len() && (s[k] == 101u8 || s[k] == 69u8) {
        let p = if k + 1 < s.len() && (s[k + 1] == 43u8 || s[k + 1] == 45u8) {
            k + 2
        } else {
            k + 1
        };
        if p < s.len() && is_digit_byte(s[p]) {
            spec_scan_digits(s, p)
        } else {
            k
        }
    } else {
        k
    }
}

/// End of the number token starting at `i`, if one starts there: an
/// optional minus sign, an integer part (`0`, or a non-zero digit followed
/// by digits), then an optional fraction (a dot followed by at least one
/// digit) and an optional exponent, each taken greedily.
pub open spec fn spec_scan_number(s: Seq<u8>, i: int) -> Option<int> {
    let j = if 0 <= i < s.len() && s[i] == 45u8 {
        i + 1
    } else {
        i
    };
    if !(0 <= j < s.len() && is_digit_byte(s[j])) {
        None
    } else {
        let k = if s[j] == 48u8 {
            j + 1
        } else {
            spec_scan_digits(s, j)
        };
        let k2 = if k < s.len() && s[k] == 46u8 && k + 1 < s.len() && is_digit_byte(s[k + 1]) {
            spec_scan_digits(s, k + 1)
        } else {
            k
        };
        Some(spec_scan_exponent(s, k2))
    }
}

/// `t` is exactly one number token.
pub open spec fn spec_is_number_token(t: Seq<u8>) -> bool {
    spec_scan_number(t, 0) == Some(t.len() as int)
}

/// A number token with no exponent part and a bounded length: such a
/// token names a magnitude below ten to the three-hundredth, well
/// inside binary64's finite range.
pub open spec fn spec_plain_number_token(t: Seq<u8>) -> bool {
    t.len() <= 300 && forall|k: int| 0 <= k < t.len() ==> t[k] != 101u8 && #[trigger] t[k]
        != 69u8
}

/// The binary64 bit pattern that a decimal number token denotes, under
/// round-to-nearest, ties-to-even.
pub uninterp spec fn number_bits_of(s: Seq<u8>) -> u64;

/// The decimal text of a binary64 bit pattern printed to `k`
/// significant digits (half-up at the last digit, trailing zeros
/// stripped).
pub uninterp spec fn number_text_prec_of(bits: u64, k: int) -> Seq<u8>;

/// The text at `k` significant digits is a number token that re-parses
/// to the same bit pattern.
pub open spec fn spec_candidate_good(bits: u64, k: int) -> bool {
    spec_is_number_token(number_text_prec_of(bits, k)) && number_bits_of(
        number_text_prec_of(bits, k),
    ) == bits
}

/// The significant-digit count the canonical text uses: among the
/// counts from `k` to seventeen whose text re-parses to the same bit
/// pattern, the one whose text is shortest (ties to the smaller
/// count) — or eighteen where none re-parses (a NaN or an infinity).
pub open spec fn spec_best_precision(bits: u64, k: int) -> int
    decreases 18 - k,
{
    if k > 17 {
        18
    } else {
        let rest = spec_best_precision(bits, k + 1);
        if spec_candidate_good(bits, k) && (rest == 18 || number_text_prec_of(bits, k).len()
            <= number_text_prec_of(bits, rest).len()) {
            k
        } else {
            rest
        }
    }
}

/// The canonical decimal text of a binary64 bit pattern: of the one-
/// to seventeen-significant-digit prints, the shortest whose parse
/// gives the bit pattern back (ties prefer fewer digits); a value no
/// decimal parses to (a NaN or an infinity) keeps its seventeen-digit
/// form.
pub open spec fn spec_number_text(bits: u64) -> Seq<u8> {
    if spec_best_precision(bits, 1) == 18 {
        number_text_prec_of(bits, 17)
    } else {
        number_text_prec_of(bits, spec_best_precision(bits, 1))
    }
}

/// Relies on `rustc_apfloat::ieee::Double::from_str` (correctly rounded
/// decimal conversion, as in the IEEE-754 software float library that
/// rustc itself uses) and `to_bits`. The bytes `s[i..e]`, delimited by
/// the number scanner, always form a digit string that `from_str`
/// accepts; a token with no exponent marker and at most three hundred
/// bytes names a magnitude below ten to the three-hundredth, which
/// rounds to a finite value.
#[verifier::external_body]
pub(crate) fn number_from_text(s: &[u8], i: usize, e: usize) -> (r: u64)
    requires
        i <= e <= s@.len(),
        spec_scan_number(s@, i as int) == Some(e as int),
    ensures
        r == number_bits_of(s@.subrange(i as int, e as int)),
        spec_plain_number_token(s@.subrange(i as int, e as int)) ==> spec_num_is_finite(r),
{
    let text = core::str::from_utf8(&s[i..e]).unwrap();
    let value = rustc_apfloat::ieee::Double::from_str(text).unwrap();
    value.to_bits() as u64
}

/// The bit pattern a whole decimal token denotes, or `None` where the
/// text is not exactly one number token. This is the public door to
/// facts about `number_bits_of` on concrete text: a caller that needs
/// a parsed number to be finite (the round-trip laws do) obtains that
/// here.
pub fn number_from_decimal(text: &[u8]) -> (r: Option<u64>)
    ensures
        (match r {
            Some(bits) => spec_is_number_token(text@) && bits == number_bits_of(text@)
                && (spec_plain_number_token(text@) ==> spec_num_is_finite(bits)),
            None => !spec_is_number_token(text@),
        }),
{
    let n = text.len();
    let j: usize = if 0 < n && text[0] == 45 {
        1
    } else {
        0
    };
    if !(j < n && 48 <= text[j] && text[j] <= 57) {
        return None;
    }
    let k: usize = if text[j] == 48 {
        j + 1
    } else {
        proof {
            lemma_scan_digits(text@, j + 1 as int);
            assert(spec_scan_digits(text@, j as int) == spec_scan_digits(text@, j + 1 as int));
        }
        scan_digit_run(text, j)
    };
    let k2: usize = if k < n && text[k] == 46 && k + 1 < n && 48 <= text[k + 1] && text[k + 1]
        <= 57 {
        proof {
            lemma_scan_digits(text@, k + 2 as int);
            assert(spec_scan_digits(text@, k + 1 as int) == spec_scan_digits(
                text@,
                k + 2 as int,
            ));
        }
        scan_digit_run(text, k + 1)
    } else {
        k
    };
    let k3: usize = if k2 < n && (text[k2] == 101 || text[k2] == 69) {
        let p = if k2 + 1 < n && (text[k2 + 1] == 43 || text[k2 + 1] == 45) {
            k2 + 2
        } else {
            k2 + 1
        };
        if p < n && 48 <= text[p] && text[p] <= 57 {
            scan_digit_run(text, p)
        } else {
            k2
        }
    } else {
        k2
    };
    if k3 != n {
        return None;
    }
    let bits = number_from_text(text, 0, n);
    proof {
        assert(text@.subrange(0, n as int) =~= text@);
    }
    Some(bits)
}

/// First index at or after `i` that does not hold a decimal digit.
fn scan_digit_run(text: &[u8], i: usize) -> (r: usize)
    requires
        i <= text@.len(),
    ensures
        r == spec_scan_digits(text@, i as int),
        i <= r <= text@.len(),
    decreases text@.len() - i,
{
    if i < text.len() {
        let c = text[i];
        if 48 <= c && c <= 57 {
            return scan_digit_run(text, i + 1);
        }
    }
    i
}

/// Relies on `rustc_apfloat::ieee::Double`'s `Display` (and
/// `from_bits`) with an explicit precision, which it reads as a count
/// of significant digits: the text is rounded half-up at the last
/// digit, trailing zeros stripped.
/// For a finite value the text fits the number-token grammar (digits
/// with optional sign, dot and `E` exponent); at seventeen digits it
/// parses back, with `from_str`, to the value printed, since seventeen
/// correctly rounded significant digits determine a binary64.
#[verifier::external_body]
fn number_to_text_prec(bits: u64, k: usize) -> (r: Vec<u8>)
    requires
        1 <= k <= 17,
    ensures
        r@ == number_text_prec_of(bits, k as int),
        spec_num_is_finite(bits) ==> spec_is_number_token(r@),
        k == 17 && spec_num_is_finite(bits) ==> number_bits_of(r@) == bits,
{
    let value = rustc_apfloat::ieee::Double::from_bits(bits as u128);
    format!("{:.*}", k, value).into_bytes()
}

/// The best candidate at counts `k` to seventeen: its text, and its
/// count — or the seventeen-digit text and eighteen where none
/// re-parses.
fn pick_number_text(bits: u64, k: usize) -> (r: (Vec<u8>, usize))
    requires
        1 <= k <= 18,
    ensures
        r.1 == spec_best_precision(bits, k as int),
        r.0@ == (if r.1 == 18 {
            number_text_prec_of(bits, 17)
        } else {
            number_text_prec_of(bits, r.1 as int)
        }),
        r.1 == 18 || spec_candidate_good(bits, r.1 as int),
        spec_num_is_finite(bits) ==> spec_candidate_good(bits, 17),
    decreases 18 - k,
{
    if k > 17 {
        return (number_to_text_prec(bits, 17), 18);
    }
    let mine = number_to_text_prec(bits, k);
    let good = match number_from_decimal(mine.as_slice()) {
        Some(back) => back == bits,
        None => false,
    };
    let (rest_text, rest_k) = pick_number_text(bits, k + 1);
    if good && (rest_k == 18 || mine.len() <= rest_text.len()) {
        (mine, k)
    } else {
        (rest_text, rest_k)
    }
}

/// The canonical decimal text of a bit pattern: the shortest of the
/// one- to seventeen-significant-digit prints that re-parses to the
/// same value, found by trying every count and checking each
/// parse-back.
pub(crate) fn number_to_text(bits: u64) -> (r: Vec<u8>)
    ensures
        r@ == spec_number_text(bits),
        spec_num_is_finite(bits) ==> spec_is_number_token(r@),
        spec_num_is_finite(bits) ==> number_bits_of(r@) == bits,
{
    let (text, best) = pick_number_text(bits, 1);
    proof {
        if spec_num_is_finite(bits) && best == 18 {
            // unreachable: the seventeen-digit candidate of a finite
            // value always re-parses, so the best count is at most
            // seventeen
            lemma_best_precision_finite(bits, 1);
        }
    }
    text
}

/// For a finite value some candidate is good, so the best count is at
/// most seventeen.
proof fn lemma_best_precision_finite(bits: u64, k: int)
    requires
        1 <= k <= 17,
        spec_candidate_good(bits, 17),
    ensures
        spec_best_precision(bits, k) <= 17,
    decreases 18 - k,
{
    if k < 17 {
        lemma_best_precision_finite(bits, k + 1);
    } else {
        assert(spec_best_precision(bits, 18int) == 18);
    }
}

} // verus!
