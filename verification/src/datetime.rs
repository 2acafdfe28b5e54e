//! Instants are microseconds since the Unix epoch, in UTC.
//!
//! The textual form is RFC3339. The shape of a datetime token (digits,
//! separators, optional fraction, `Z` or a numeric offset) is specified
//! and checked by this crate's own parser; what instant a well-shaped
//! token denotes is delegated to an outside crate through the trusted
//! items below.

use vstd::prelude::*;

use crate::number::{is_digit_byte, spec_scan_digits};

verus! {

/// Every byte in `[a, b)` is a decimal digit.
pub open spec fn all_digit_bytes(s: Seq<u8>, a: int, b: int) -> bool {
    forall|j: int| a <= j < b ==> is_digit_byte(#[trigger] s[j])
}

/// End of the datetime token starting at `i`, if one starts there:
/// `DDDD-DD-DDTDD:DD:DD`, an optional fraction of one to five digits
/// (taken greedily), then `Z` or a `+DD:DD` / `-DD:DD` offset.
pub open spec fn spec_scan_datetime(s: Seq<u8>, i: int) -> Option<int> {
    if !(i >= 0 && i + 19 <= s.len() && all_digit_bytes(s, i, i + 4) && s[i + 4] == 45u8
        && all_digit_bytes(s, i + 5, i + 7) && s[i + 7] == 45u8
        && all_digit_bytes(s, i + 8, i + 10) && s[i + 10] == 84u8
        && all_digit_bytes(s, i + 11, i + 13) && s[i + 13] == 58u8
        && all_digit_bytes(s, i + 14, i + 16) && s[i + 16] == 58u8
        && all_digit_bytes(s, i + 17, i + 19)) {
        None
    } else {
        let k = i + 19;
        let k2 = if k < s.len() && s[k] == 46u8 && k + 1 < s.len() && is_digit_byte(
            s[k + 1],
        ) {
            let d = spec_scan_digits(s, k + 1);
            if d > k + 6 {
                k + 6
            } else {
                d
            }
        } else {
            k
        };
        if k2 < s.len() && s[k2] == 90u8 {
            Some(k2 + 1)
        } else if k2 + 6 <= s.len() && (s[k2] == 43u8 || s[k2] == 45u8) && all_digit_bytes(
            s,
            k2 + 1,
            k2 + 3,
        ) && s[k2 + 3] == 58u8 && all_digit_bytes(s, k2 + 4, k2 + 6) {
            Some(k2 + 6)
        } else {
            None
        }
    }
}

/// `t` is exactly one datetime token.
pub open spec fn spec_is_datetime_token(t: Seq<u8>) -> bool {
    spec_scan_datetime(t, 0) == Some(t.len() as int)
}

/// The instant a byte string denotes as an RFC3339 datetime, in
/// microseconds since the Unix epoch after normalization to UTC, or
/// `None` where it is not a valid RFC3339 datetime.
pub uninterp spec fn datetime_micros_of(s: Seq<u8>) -> Option<i64>;

/// The canonical RFC3339 text of an instant: UTC with `Z` suffix,
/// sub-second digits only where needed.
pub uninterp spec fn datetime_text_of(micros: i64) -> Seq<u8>;

/// Microseconds of `0000-01-01T00:00:00Z`, the earliest instant whose
/// canonical text has a four-digit year.
pub const DATETIME_MICROS_MIN: i64 = -62167219200000000;

/// Microseconds of `9999-12-31T23:59:59.999999Z`, the latest instant
/// whose canonical text has a four-digit year.
pub const DATETIME_MICROS_MAX: i64 = 253402300799999999;

/// The canonical text of this instant re-parses to it: the instant lies
/// in the four-digit-year range and on a whole millisecond (the canonical
/// form of a sub-millisecond instant carries six fractional digits, one
/// more than the token grammar admits).
pub open spec fn spec_datetime_printable(m: i64) -> bool {
    DATETIME_MICROS_MIN <= m <= DATETIME_MICROS_MAX && m % 1000 == 0
}

/// Relies on `chrono::DateTime::parse_from_rfc3339` (strict RFC3339,
/// four-digit year), `to_utc` and `timestamp_micros`. Total: returns
/// `None` on anything but a valid RFC3339 datetime.
#[verifier::external_body]
pub(crate) fn datetime_from_text(s: &[u8]) -> (r: Option<i64>)
    ensures
        r == datetime_micros_of(s@),
{
    match core::str::from_utf8(s) {
        Err(_) => None,
        Ok(text) => match chrono::DateTime::parse_from_rfc3339(text) {
            Err(_) => None,
            Ok(dt) => Some(dt.to_utc().timestamp_micros()),
        },
    }
}

/// Relies on `chrono::DateTime::from_timestamp_micros` and
/// `to_rfc3339_opts(SecondsFormat::AutoSi, true)`: for an instant on a
/// whole millisecond with a four-digit year it prints
/// `YYYY-MM-DDTHH:MM:SS[.fff]Z`, which fits the datetime token grammar
/// and, per RFC3339, parses back to the same instant.
#[verifier::external_body]
pub(crate) fn datetime_to_text(m: i64) -> (r: Vec<u8>)
    ensures
        r@ == datetime_text_of(m),
        spec_datetime_printable(m) ==> spec_is_datetime_token(r@),
        spec_datetime_printable(m) ==> datetime_micros_of(r@) == Some(m),
{
    match chrono::DateTime::<chrono::Utc>::from_timestamp_micros(m) {
        Some(dt) => dt.to_rfc3339_opts(chrono::SecondsFormat::AutoSi, true).into_bytes(),
        None => Vec::new(),
    }
}

} // verus!
