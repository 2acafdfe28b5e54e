//! The expression parser: recursive descent over bytes, with ordered
//! alternatives and full backtracking, specified position by position.
//!
//! Every parsing function has a specification twin over `Seq<u8>`; the
//! executable side is verified to return exactly what the twin denotes.
//! A failure carries the furthest byte position any attempted alternative
//! reached, always within `[0, len]`.

use vstd::prelude::*;
use vstd::slice::slice_subrange;
use vstd::string::{StringExecFns, StringSliceAdditionalSpecFns};

use crate::datetime::{datetime_from_text, datetime_micros_of, spec_scan_datetime};
use crate::expression::{
    deep_view_seq, And, Expression, Literal, Not, Operation, Operator, Or, SpecExpression,
    SpecLiteral, SpecOperation,
};
use crate::number::{
    is_digit_byte, number_bits_of, number_from_text, spec_scan_digits, spec_scan_number,
};
use crate::schema::{SpecValue, Value};

verus! {

broadcast use {vstd::std_specs::vec::group_vec_axioms, crate::expression::lemma_deep_view_seq};

/// Whitespace: space, tab, carriage return, line feed.
pub open spec fn is_ws(c: u8) -> bool {
    c == 32 || c == 9 || c == 13 || c == 10
}

/// A position clamped into `[0, len]`, for error reporting.
pub open spec fn perr(s: Seq<u8>, i: int) -> int {
    if i < 0 {
        0
    } else if i > s.len() {
        s.len() as int
    } else {
        i
    }
}

/// The larger of two error positions: a failure reports the furthest
/// position any alternative reached.
pub open spec fn pmax(a: int, b: int) -> int {
    if a >= b {
        a
    } else {
        b
    }
}

/// First index at or after `i` holding no whitespace.
pub open spec fn spec_skip_ws(s: Seq<u8>, i: int) -> int
    decreases s.len() - i,
{
    if 0 <= i < s.len() && is_ws(s[i]) {
        spec_skip_ws(s, i + 1)
    } else {
        i
    }
}

/// Bounds of a whitespace skip.
pub proof fn lemma_skip_ws(s: Seq<u8>, i: int)
    requires
        0 <= i <= s.len(),
    ensures
        i <= spec_skip_ws(s, i) <= s.len(),
    decreases s.len() - i,
{
    if i < s.len() && is_ws(s[i]) {
        lemma_skip_ws(s, i + 1);
    }
}

/// A continuation position for the termination measure: `j` where it is
/// strictly past `i` and within bounds, else the end of input.
pub open spec fn adv(i: int, j: int, n: int) -> int {
    if i < j && j <= n {
        j
    } else {
        n
    }
}

/// A monotone step: `j` where it moves forward within bounds, else `c`.
pub open spec fn fwd(c: int, j: int, n: int) -> int {
    if c <= j && j <= n {
        j
    } else {
        c
    }
}

/// ASCII lowercasing of one byte.
pub open spec fn to_lower(c: u8) -> u8 {
    if 65 <= c <= 90 {
        (c + 32) as u8
    } else {
        c
    }
}

/// Case-insensitive keyword match: `Ok` holds the position after the
/// keyword; `Err` the position of the first byte that does not fit.
pub open spec fn spec_match_kw(s: Seq<u8>, i: int, kw: Seq<u8>) -> Result<int, int>
    decreases kw.len(),
{
    if kw.len() == 0 {
        Ok(i)
    } else if 0 <= i < s.len() && to_lower(s[i]) == kw.first() {
        spec_match_kw(s, i + 1, kw.drop_first())
    } else {
        Err(perr(s, i))
    }
}

/// Field path bytes: letters, digits, underscore, colon.
pub open spec fn is_field_byte(c: u8) -> bool {
    (65 <= c <= 90) || (97 <= c <= 122) || c == 95 || c == 58 || is_digit_byte(c)
}

/// A field path's first byte: a letter or underscore.
pub open spec fn is_field_start(c: u8) -> bool {
    (65 <= c <= 90) || (97 <= c <= 122) || c == 95
}

/// First index at or after `i` holding no field-path byte.
pub open spec fn spec_scan_field_rest(s: Seq<u8>, i: int) -> int
    decreases s.len() - i,
{
    if 0 <= i < s.len() && is_field_byte(s[i]) {
        spec_scan_field_rest(s, i + 1)
    } else {
        i
    }
}

/// A field path starting at `i`: its end, or the failing position.
pub open spec fn spec_parse_field(s: Seq<u8>, i: int) -> Result<int, int> {
    if 0 <= i < s.len() && is_field_start(s[i]) {
        Ok(spec_scan_field_rest(s, i + 1))
    } else {
        Err(perr(s, i))
    }
}

/// The escape codes a string literal admits, after a backslash.
pub open spec fn is_escape_code(c: u8) -> bool {
    c == 92 || c == 47 || c == 34 || c == 98 || c == 102 || c == 110 || c == 114 || c == 116
}

/// The byte an escape code denotes.
pub open spec fn unescape(c: u8) -> u8 {
    if c == 98 {
        8
    } else if c == 102 {
        12
    } else if c == 110 {
        10
    } else if c == 114 {
        13
    } else if c == 116 {
        9
    } else {
        c
    }
}

/// The body of a string literal from `i` up to the closing quote:
/// content bytes and the position after the quote.
pub open spec fn spec_parse_string_body(s: Seq<u8>, i: int) -> Result<(Seq<u8>, int), int>
    decreases s.len() - i,
{
    if !(0 <= i < s.len()) {
        Err(perr(s, i))
    } else if s[i] == 34 {
        Ok((Seq::empty(), i + 1))
    } else if s[i] == 92 {
        if i + 1 < s.len() && is_escape_code(s[i + 1]) {
            match spec_parse_string_body(s, i + 2) {
                Ok((c, e)) => Ok((seq![unescape(s[i + 1])] + c, e)),
                Err(e) => Err(e),
            }
        } else {
            Err(perr(s, i + 1))
        }
    } else {
        match spec_parse_string_body(s, i + 1) {
            Ok((c, e)) => Ok((seq![s[i]] + c, e)),
            Err(e) => Err(e),
        }
    }
}

/// A string literal at `i`: its content and end.
pub open spec fn spec_parse_string(s: Seq<u8>, i: int) -> Result<(Seq<u8>, int), int> {
    if 0 <= i < s.len() && s[i] == 34 {
        spec_parse_string_body(s, i + 1)
    } else {
        Err(perr(s, i))
    }
}

/// The body of a regex literal from `i` up to the closing slash: `\/`
/// unescapes to `/`; any other byte, backslash included, stands for
/// itself.
pub open spec fn spec_parse_regex_body(s: Seq<u8>, i: int) -> Result<(Seq<u8>, int), int>
    decreases s.len() - i,
{
    if !(0 <= i < s.len()) {
        Err(perr(s, i))
    } else if s[i] == 47 {
        Ok((Seq::empty(), i + 1))
    } else if s[i] == 92 && i + 1 < s.len() && s[i + 1] == 47 {
        match spec_parse_regex_body(s, i + 2) {
            Ok((c, e)) => Ok((seq![47u8] + c, e)),
            Err(e) => Err(e),
        }
    } else {
        match spec_parse_regex_body(s, i + 1) {
            Ok((c, e)) => Ok((seq![s[i]] + c, e)),
            Err(e) => Err(e),
        }
    }
}

/// A regex literal at `i`: its pattern and end.
pub open spec fn spec_parse_regex(s: Seq<u8>, i: int) -> Result<(Seq<u8>, int), int> {
    if 0 <= i < s.len() && s[i] == 47 {
        spec_parse_regex_body(s, i + 1)
    } else {
        Err(perr(s, i))
    }
}

/// A hex digit, either case.
pub open spec fn is_hex_byte(c: u8) -> bool {
    is_digit_byte(c) || (97 <= c <= 102) || (65 <= c <= 70)
}

/// The value of a hex digit.
pub open spec fn hex_val(c: u8) -> u8 {
    if is_digit_byte(c) {
        (c - 48) as u8
    } else if 97 <= c <= 102 {
        (c - 87) as u8
    } else if 65 <= c <= 70 {
        (c - 55) as u8
    } else {
        0
    }
}

/// Hex byte pairs, each followed by optional whitespace: one pair, then
/// as many more as will parse.
pub open spec fn spec_parse_raw_body(s: Seq<u8>, i: int) -> Result<(Seq<u8>, int), int>
    decreases s.len() - i,
{
    if !(0 <= i < s.len() && is_hex_byte(s[i])) {
        Err(perr(s, i))
    } else if !(i + 1 < s.len() && is_hex_byte(s[i + 1])) {
        Err(perr(s, i + 1))
    } else {
        let b = (hex_val(s[i]) * 16 + hex_val(s[i + 1])) as u8;
        let j = adv(i, spec_skip_ws(s, i + 2), s.len() as int);
        match spec_parse_raw_body(s, j) {
            Ok((c, e)) => Ok((seq![b] + c, e)),
            Err(u) => Ok((seq![b], j)),
        }
    }
}

/// A raw literal at `i`: `|` ws (hex hex ws)+ `|` ws; its bytes and the
/// position after the trailing whitespace.
pub open spec fn spec_parse_raw(s: Seq<u8>, i: int) -> Result<(Seq<u8>, int), int> {
    if !(0 <= i < s.len() && s[i] == 124) {
        Err(perr(s, i))
    } else {
        let j = adv(i, spec_skip_ws(s, i + 1), s.len() as int);
        match spec_parse_raw_body(s, j) {
            Err(e) => Err(e),
            Ok((bytes, e)) => if 0 <= e < s.len() && s[e] == 124 {
                Ok((bytes, fwd(e + 1, spec_skip_ws(s, e + 1), s.len() as int)))
            } else {
                Err(perr(s, e))
            },
        }
    }
}

/// A number literal at `i`: its bit pattern and end.
pub open spec fn spec_parse_number(s: Seq<u8>, i: int) -> Result<(u64, int), int> {
    match spec_scan_number(s, i) {
        None => Err(perr(s, i)),
        Some(e) => Ok((number_bits_of(s.subrange(i, e)), e)),
    }
}

/// A datetime literal at `i`: the instant it denotes (normalized to UTC
/// microseconds) and its end. A token of the right shape that does not
/// name a real instant fails at `i`.
pub open spec fn spec_parse_datetime(s: Seq<u8>, i: int) -> Result<(i64, int), int> {
    match spec_scan_datetime(s, i) {
        None => Err(perr(s, i)),
        Some(e) => match datetime_micros_of(s.subrange(i, e)) {
            None => Err(perr(s, i)),
            Some(m) => Ok((m, e)),
        },
    }
}

// --- executable twins -------------------------------------------------

/// First index at or after `i` holding no whitespace.
fn skip_ws(s: &[u8], i: usize) -> (r: usize)
    requires
        i <= s@.len(),
    ensures
        r == spec_skip_ws(s@, i as int),
        i <= r <= s@.len(),
    decreases s@.len() - i,
{
    if i < s.len() {
        let c = s[i];
        if c == 32 || c == 9 || c == 13 || c == 10 {
            return skip_ws(s, i + 1);
        }
    }
    i
}

/// Case-insensitive match of a byte sequence: ASCII upper and lower
/// case are treated alike.
pub fn seq_nocase(s: &[u8], i: usize, kw: &[u8]) -> (r: Result<usize, usize>)
    requires
        i <= s@.len(),
    ensures
        (match r {
            Ok(e) => spec_match_kw(s@, i as int, kw@) == Ok::<int, int>(e as int) && i <= e
                <= s@.len() && e == i + kw@.len(),
            Err(p) => spec_match_kw(s@, i as int, kw@) == Err::<int, int>(p as int) && p
                <= s@.len(),
        }),
    decreases kw@.len(),
{
    if kw.len() == 0 {
        Ok(i)
    } else if i < s.len() {
        let c = s[i];
        let lower: u8 = if 65 <= c && c <= 90 {
            c + 32
        } else {
            c
        };
        if lower == kw[0] {
            proof {
                assert(kw@.drop_first() =~= kw@.subrange(1, kw@.len() as int));
            }
            seq_nocase(s, i + 1, slice_subrange(kw, 1, kw.len()))
        } else {
            Err(i)
        }
    } else {
        Err(s.len())
    }
}

/// A field path at `i`: its end.
fn parse_field(s: &[u8], i: usize) -> (r: Result<usize, usize>)
    requires
        i <= s@.len(),
    ensures
        (match r {
            Ok(e) => spec_parse_field(s@, i as int) == Ok::<int, int>(e as int) && i < e
                <= s@.len(),
            Err(p) => spec_parse_field(s@, i as int) == Err::<int, int>(p as int) && p <= s@.len(),
        }),
{
    if i < s.len() {
        let c = s[i];
        if (65 <= c && c <= 90) || (97 <= c && c <= 122) || c == 95 {
            let e = scan_field_rest(s, i + 1);
            return Ok(e);
        }
        return Err(i);
    }
    Err(s.len())
}

/// First index at or after `i` holding no field-path byte.
fn scan_field_rest(s: &[u8], i: usize) -> (r: usize)
    requires
        i <= s@.len(),
    ensures
        r == spec_scan_field_rest(s@, i as int),
        i <= r <= s@.len(),
    decreases s@.len() - i,
{
    if i < s.len() {
        let c = s[i];
        if (65 <= c && c <= 90) || (97 <= c && c <= 122) || c == 95 || c == 58 || (48 <= c && c
            <= 57) {
            return scan_field_rest(s, i + 1);
        }
    }
    i
}

/// Whether the string-body result at `j0` extends the bytes built so far
/// with the body result at `j`.
pub open spec fn string_body_continues(s: Seq<u8>, j0: int, built: Seq<u8>, j: int) -> bool {
    match spec_parse_string_body(s, j) {
        Ok((c, e)) => spec_parse_string_body(s, j0) == Ok::<(Seq<u8>, int), int>((built + c, e)),
        Err(e) => spec_parse_string_body(s, j0) == Err::<(Seq<u8>, int), int>(e),
    }
}

/// A string literal at `i`: content and end position.
fn parse_string(s: &[u8], i: usize) -> (r: Result<(Vec<u8>, usize), usize>)
    requires
        i <= s@.len(),
    ensures
        (match r {
            Ok((c, e)) => spec_parse_string(s@, i as int) == Ok::<(Seq<u8>, int), int>(
                (c@, e as int),
            ) && i < e <= s@.len(),
            Err(p) => spec_parse_string(s@, i as int) == Err::<(Seq<u8>, int), int>(p as int) && p
                <= s@.len(),
        }),
{
    if !(i < s.len() && s[i] == 34) {
        return Err(if i < s.len() {
            i
        } else {
            s.len()
        });
    }
    let mut out: Vec<u8> = Vec::new();
    let mut j: usize = i + 1;
    loop
        invariant
            i < s@.len() && s@[i as int] == 34,
            i + 1 <= j <= s@.len(),
            string_body_continues(s@, i + 1, out@, j as int),
        decreases s@.len() - j,
    {
        if j >= s.len() {
            return Err(s.len());
        }
        let c = s[j];
        if c == 34 {
            proof {
                assert(out@ + Seq::<u8>::empty() =~= out@);
            }
            return Ok((out, j + 1));
        }
        if c == 92 {
            if j + 1 < s.len() {
                let d = s[j + 1];
                if d == 92 || d == 47 || d == 34 || d == 98 || d == 102 || d == 110 || d == 114
                    || d == 116 {
                    let ghost pre = out@;
                    let u: u8 = if d == 98 {
                        8
                    } else if d == 102 {
                        12
                    } else if d == 110 {
                        10
                    } else if d == 114 {
                        13
                    } else if d == 116 {
                        9
                    } else {
                        d
                    };
                    out.push(u);
                    proof {
                        assert(out@ =~= pre + seq![unescape(s@[j + 1])]);
                        assert forall|c2: Seq<u8>, e2: int|
                            spec_parse_string_body(s@, j + 2) == Ok::<(Seq<u8>, int), int>(
                                (c2, e2),
                            ) implies spec_parse_string_body(s@, i + 1 as int) == Ok::<
                            (Seq<u8>, int),
                            int,
                        >((out@ + c2, e2)) by {
                            assert(pre + (seq![unescape(s@[j + 1])] + c2) =~= out@ + c2);
                        }
                    }
                    j = j + 2;
                } else {
                    return Err(j + 1);
                }
            } else {
                proof {
                    assert(perr(s@, j + 1 as int) == s@.len() as int);
                }
                return Err(s.len());
            }
        } else {
            let ghost pre = out@;
            out.push(c);
            proof {
                assert(out@ =~= pre + seq![s@[j as int]]);
                assert forall|c2: Seq<u8>, e2: int|
                    spec_parse_string_body(s@, j + 1) == Ok::<(Seq<u8>, int), int>(
                        (c2, e2),
                    ) implies spec_parse_string_body(s@, i + 1 as int) == Ok::<
                    (Seq<u8>, int),
                    int,
                >((out@ + c2, e2)) by {
                    assert(pre + (seq![s@[j as int]] + c2) =~= out@ + c2);
                }
            }
            j = j + 1;
        }
    }
}

/// Whether the regex-body result at `j0` extends the bytes built so far
/// with the body result at `j`.
pub open spec fn regex_body_continues(s: Seq<u8>, j0: int, built: Seq<u8>, j: int) -> bool {
    match spec_parse_regex_body(s, j) {
        Ok((c, e)) => spec_parse_regex_body(s, j0) == Ok::<(Seq<u8>, int), int>((built + c, e)),
        Err(e) => spec_parse_regex_body(s, j0) == Err::<(Seq<u8>, int), int>(e),
    }
}

/// A regex literal at `i`: pattern and end position.
fn parse_regex(s: &[u8], i: usize) -> (r: Result<(Vec<u8>, usize), usize>)
    requires
        i <= s@.len(),
    ensures
        (match r {
            Ok((c, e)) => spec_parse_regex(s@, i as int) == Ok::<(Seq<u8>, int), int>(
                (c@, e as int),
            ) && i < e <= s@.len(),
            Err(p) => spec_parse_regex(s@, i as int) == Err::<(Seq<u8>, int), int>(p as int) && p
                <= s@.len(),
        }),
{
    if !(i < s.len() && s[i] == 47) {
        return Err(if i < s.len() {
            i
        } else {
            s.len()
        });
    }
    let mut out: Vec<u8> = Vec::new();
    let mut j: usize = i + 1;
    loop
        invariant
            i < s@.len() && s@[i as int] == 47,
            i + 1 <= j <= s@.len(),
            regex_body_continues(s@, i + 1, out@, j as int),
        decreases s@.len() - j,
    {
        if j >= s.len() {
            return Err(s.len());
        }
        let c = s[j];
        if c == 47 {
            proof {
                assert(out@ + Seq::<u8>::empty() =~= out@);
            }
            return Ok((out, j + 1));
        }
        let ghost pre = out@;
        if c == 92 && j + 1 < s.len() && s[j + 1] == 47 {
            out.push(47);
            proof {
                assert(out@ =~= pre + seq![47u8]);
                assert forall|c2: Seq<u8>, e2: int|
                    spec_parse_regex_body(s@, j + 2) == Ok::<(Seq<u8>, int), int>(
                        (c2, e2),
                    ) implies spec_parse_regex_body(s@, i + 1 as int) == Ok::<
                    (Seq<u8>, int),
                    int,
                >((out@ + c2, e2)) by {
                    assert(pre + (seq![47u8] + c2) =~= out@ + c2);
                }
            }
            j = j + 2;
        } else {
            out.push(c);
            proof {
                assert(out@ =~= pre + seq![s@[j as int]]);
                assert forall|c2: Seq<u8>, e2: int|
                    spec_parse_regex_body(s@, j + 1) == Ok::<(Seq<u8>, int), int>(
                        (c2, e2),
                    ) implies spec_parse_regex_body(s@, i + 1 as int) == Ok::<
                    (Seq<u8>, int),
                    int,
                >((out@ + c2, e2)) by {
                    assert(pre + (seq![s@[j as int]] + c2) =~= out@ + c2);
                }
            }
            j = j + 1;
        }
    }
}

/// Whether the raw-body result at `j0` extends the bytes built so far
/// with the body result at `j`. The body never fails once one pair is
/// in.
pub open spec fn raw_body_continues(s: Seq<u8>, j0: int, built: Seq<u8>, j: int) -> bool {
    match spec_parse_raw_body(s, j) {
        Ok((c, e)) => spec_parse_raw_body(s, j0) == Ok::<(Seq<u8>, int), int>((built + c, e)),
        Err(e) => built.len() > 0 ==> spec_parse_raw_body(s, j0) == Ok::<(Seq<u8>, int), int>(
            (built, j),
        ),
    }
}

/// A raw literal at `i`: bytes and the position after the closing bar
/// and its trailing whitespace.
fn parse_raw(s: &[u8], i: usize) -> (r: Result<(Vec<u8>, usize), usize>)
    requires
        i <= s@.len(),
    ensures
        (match r {
            Ok((c, e)) => spec_parse_raw(s@, i as int) == Ok::<(Seq<u8>, int), int>(
                (c@, e as int),
            ) && i < e <= s@.len(),
            Err(p) => spec_parse_raw(s@, i as int) == Err::<(Seq<u8>, int), int>(p as int) && p
                <= s@.len(),
        }),
{
    if !(i < s.len() && s[i] == 124) {
        return Err(if i < s.len() {
            i
        } else {
            s.len()
        });
    }
    let start = skip_ws(s, i + 1);
    proof {
        assert(adv(i as int, spec_skip_ws(s@, i + 1 as int), s@.len() as int) == start as int);
    }
    let mut out: Vec<u8> = Vec::new();
    let mut j: usize = start;
    loop
        invariant
            i < s@.len() && s@[i as int] == 124,
            i < start <= s@.len(),
            start == adv(i as int, spec_skip_ws(s@, i + 1 as int), s@.len() as int),
            i < j <= s@.len(),
            raw_body_continues(s@, start as int, out@, j as int),
            out@.len() == 0 ==> j == start,
        decreases s@.len() - j,
    {
        let pair_ok = j < s.len() && j + 1 < s.len() && {
            let c = s[j];
            let d = s[j + 1];
            ((48 <= c && c <= 57) || (97 <= c && c <= 102) || (65 <= c && c <= 70)) && ((48 <= d
                && d <= 57) || (97 <= d && d <= 102) || (65 <= d && d <= 70))
        };
        if !pair_ok {
            // no further pair: the body ends here (or fails if empty)
            if out.len() == 0 {
                let p = if j < s.len() && {
                    let c = s[j];
                    (48 <= c && c <= 57) || (97 <= c && c <= 102) || (65 <= c && c <= 70)
                } {
                    j + 1
                } else {
                    j
                };
                proof {
                    assert(spec_parse_raw_body(s@, j as int) is Err);
                }
                return Err(if p <= s.len() {
                    p
                } else {
                    s.len()
                });
            }
            // body stopped at j; expect the closing bar
            proof {
                assert(spec_parse_raw_body(s@, j as int) is Err);
            }
            if j < s.len() && s[j] == 124 {
                let e = skip_ws(s, j + 1);
                proof {
                    assert(fwd(j + 1 as int, spec_skip_ws(s@, j + 1 as int), s@.len() as int)
                        == e as int);
                }
                return Ok((out, e));
            } else {
                return Err(j);
            }
        }
        let c = s[j];
        let d = s[j + 1];
        let hv: u8 = if 48 <= c && c <= 57 {
            c - 48
        } else if 97 <= c && c <= 102 {
            c - 87
        } else {
            c - 55
        };
        let lv: u8 = if 48 <= d && d <= 57 {
            d - 48
        } else if 97 <= d && d <= 102 {
            d - 87
        } else {
            d - 55
        };
        let b: u8 = hv * 16 + lv;
        let j2 = skip_ws(s, j + 2);
        let ghost pre = out@;
        out.push(b);
        proof {
            assert(b == (hex_val(s@[j as int]) * 16 + hex_val(s@[j + 1])) as u8);
            assert(adv(j as int, spec_skip_ws(s@, j + 2 as int), s@.len() as int) == j2 as int);
            assert(out@ =~= pre + seq![b]);
            assert forall|c2: Seq<u8>, e2: int|
                spec_parse_raw_body(s@, j2 as int) == Ok::<(Seq<u8>, int), int>(
                    (c2, e2),
                ) implies spec_parse_raw_body(s@, start as int) == Ok::<(Seq<u8>, int), int>(
                (out@ + c2, e2),
            ) by {
                assert(pre + (seq![b] + c2) =~= out@ + c2);
            }
            assert forall|e2: int|
                spec_parse_raw_body(s@, j2 as int) == Err::<(Seq<u8>, int), int>(
                    e2,
                ) implies spec_parse_raw_body(s@, start as int) == Ok::<(Seq<u8>, int), int>(
                (out@, j2 as int),
            ) by {
                assert(pre + seq![b] =~= out@);
            }
        }
        j = j2;
    }
}

/// A number literal at `i`: bit pattern and end position.
fn parse_number(s: &[u8], i: usize) -> (r: Result<(u64, usize), usize>)
    requires
        i <= s@.len(),
    ensures
        (match r {
            Ok((bits, e)) => spec_parse_number(s@, i as int) == Ok::<(u64, int), int>(
                (bits, e as int),
            ) && i < e <= s@.len(),
            Err(p) => spec_parse_number(s@, i as int) == Err::<(u64, int), int>(p as int) && p
                <= s@.len(),
        }),
{
    match scan_number(s, i) {
        None => Err(if i < s.len() {
            i
        } else {
            s.len()
        }),
        Some(e) => {
            let bits = number_from_text(s, i, e);
            Ok((bits, e))
        },
    }
}

/// Every byte in `[a, b)` is a decimal digit, exec side.
fn check_digits(s: &[u8], a: usize, b: usize) -> (r: bool)
    requires
        a <= b <= s@.len(),
    ensures
        r == crate::datetime::all_digit_bytes(s@, a as int, b as int),
{
    let mut k: usize = a;
    while k < b
        invariant
            a <= k <= b <= s@.len(),
            forall|j: int| a <= j < k ==> is_digit_byte(#[trigger] s@[j]),
        decreases b - k,
    {
        let c = s[k];
        if !(48 <= c && c <= 57) {
            return false;
        }
        k = k + 1;
    }
    true
}

/// First index at or after `i` that does not hold a decimal digit.
fn scan_digits_x(s: &[u8], i: usize) -> (r: usize)
    requires
        i <= s@.len(),
    ensures
        r == spec_scan_digits(s@, i as int),
        i <= r <= s@.len(),
    decreases s@.len() - i,
{
    if i < s.len() {
        let c = s[i];
        if 48 <= c && c <= 57 {
            return scan_digits_x(s, i + 1);
        }
    }
    i
}

/// End of the number token starting at `i`, if one starts there.
fn scan_number(s: &[u8], i: usize) -> (r: Option<usize>)
    requires
        i <= s@.len(),
    ensures
        (match r {
            Some(e) => spec_scan_number(s@, i as int) == Some(e as int) && i < e <= s@.len(),
            None => spec_scan_number(s@, i as int) is None,
        }),
{
    let j = if i < s.len() && s[i] == 45 {
        i + 1
    } else {
        i
    };
    if !(j < s.len() && 48 <= s[j] && s[j] <= 57) {
        return None;
    }
    let k = if s[j] == 48 {
        j + 1
    } else {
        proof {
            crate::number::lemma_scan_digits(s@, j + 1 as int);
            assert(spec_scan_digits(s@, j as int) == spec_scan_digits(s@, j + 1 as int));
        }
        scan_digits_x(s, j)
    };
    let k2 = if k < s.len() && s[k] == 46 && k + 1 < s.len() && 48 <= s[k + 1] && s[k + 1] <= 57 {
        proof {
            crate::number::lemma_scan_digits(s@, k + 2 as int);
            assert(spec_scan_digits(s@, k + 1 as int) == spec_scan_digits(s@, k + 2 as int));
        }
        scan_digits_x(s, k + 1)
    } else {
        k
    };
    let k3 = if k2 < s.len() && (s[k2] == 101 || s[k2] == 69) {
        let p = if k2 + 1 < s.len() && (s[k2 + 1] == 43 || s[k2 + 1] == 45) {
            k2 + 2
        } else {
            k2 + 1
        };
        if p < s.len() && 48 <= s[p] && s[p] <= 57 {
            scan_digits_x(s, p)
        } else {
            k2
        }
    } else {
        k2
    };
    Some(k3)
}

/// End of the datetime token starting at `i`, if one starts there.
fn scan_datetime(s: &[u8], i: usize) -> (r: Option<usize>)
    requires
        i <= s@.len(),
    ensures
        (match r {
            Some(e) => spec_scan_datetime(s@, i as int) == Some(e as int) && i < e <= s@.len(),
            None => spec_scan_datetime(s@, i as int) is None,
        }),
{
    if !(s.len() >= 19 && i <= s.len() - 19 && check_digits(s, i, i + 4) && s[i + 4] == 45 && check_digits(
        s,
        i + 5,
        i + 7,
    ) && s[i + 7] == 45 && check_digits(s, i + 8, i + 10) && s[i + 10] == 84 && check_digits(
        s,
        i + 11,
        i + 13,
    ) && s[i + 13] == 58 && check_digits(s, i + 14, i + 16) && s[i + 16] == 58 && check_digits(
        s,
        i + 17,
        i + 19,
    )) {
        return None;
    }
    let k = i + 19;
    let k2 = if k < s.len() && s[k] == 46 && k + 1 < s.len() && 48 <= s[k + 1] && s[k + 1] <= 57 {
        let d = scan_digits_x(s, k + 1);
        if d - k > 6 {
            k + 6
        } else {
            d
        }
    } else {
        k
    };
    if k2 < s.len() && s[k2] == 90 {
        Some(k2 + 1)
    } else if s.len() >= 6 && k2 <= s.len() - 6 && (s[k2] == 43 || s[k2] == 45) && check_digits(
        s,
        k2 + 1,
        k2 + 3,
    ) && s[k2 + 3] == 58 && check_digits(s, k2 + 4, k2 + 6) {
        Some(k2 + 6)
    } else {
        None
    }
}

/// A datetime literal at `i`: instant and end position.
fn parse_datetime(s: &[u8], i: usize) -> (r: Result<(i64, usize), usize>)
    requires
        i <= s@.len(),
    ensures
        (match r {
            Ok((m, e)) => spec_parse_datetime(s@, i as int) == Ok::<(i64, int), int>(
                (m, e as int),
            ) && i < e <= s@.len(),
            Err(p) => spec_parse_datetime(s@, i as int) == Err::<(i64, int), int>(p as int) && p
                <= s@.len(),
        }),
{
    match scan_datetime(s, i) {
        None => Err(if i < s.len() {
            i
        } else {
            s.len()
        }),
        Some(e) => {
            let token = slice_subrange(s, i, e);
            match datetime_from_text(token) {
                None => Err(if i < s.len() {
                    i
                } else {
                    s.len()
                }),
                Some(m) => Ok((m, e)),
            }
        },
    }
}


/// `v` followed by `rest`, with the model pinned down.
fn cons_bytes_list(v: Vec<u8>, rest: Vec<Vec<u8>>) -> (r: Vec<Vec<u8>>)
    ensures
        r.deep_view() == seq![v@] + rest.deep_view(),
{
    let ghost vv = v@;
    let ghost rd = rest.deep_view();
    let mut tail = rest;
    let mut out: Vec<Vec<u8>> = Vec::new();
    out.push(v);
    out.append(&mut tail);
    proof {
        assert forall|j: int| 0 <= j < out@.len() implies out.deep_view()[j] == (seq![vv]
            + rd)[j] by {
            if j > 0 {
                assert(out@[j] == rest@[j - 1]);
                assert(rd[j - 1] == rest@[j - 1]@);
            }
        }
        assert(out.deep_view() =~= seq![vv] + rd);
    }
    out
}

/// `v` followed by `rest`, for instants.
fn cons_i64(v: i64, rest: Vec<i64>) -> (r: Vec<i64>)
    ensures
        r@ == seq![v] + rest@,
{
    let ghost rv = rest@;
    let mut tail = rest;
    let mut out: Vec<i64> = Vec::new();
    out.push(v);
    out.append(&mut tail);
    proof {
        assert(out@ =~= seq![v] + rv);
    }
    out
}

/// `v` followed by `rest`, for number bit patterns.
fn cons_u64(v: u64, rest: Vec<u64>) -> (r: Vec<u64>)
    ensures
        r@ == seq![v] + rest@,
{
    let ghost rv = rest@;
    let mut tail = rest;
    let mut out: Vec<u64> = Vec::new();
    out.push(v);
    out.append(&mut tail);
    proof {
        assert(out@ =~= seq![v] + rv);
    }
    out
}

/// `v` followed by `rest`, for subexpressions.
fn cons_expr(v: Expression, rest: Vec<Expression>) -> (r: Vec<Expression>)
    ensures
        deep_view_seq(r@) == seq![v.deep_view()] + deep_view_seq(rest@),
{
    let ghost vd = v.deep_view();
    let ghost rd = deep_view_seq(rest@);
    let mut tail = rest;
    let mut out: Vec<Expression> = Vec::new();
    out.push(v);
    out.append(&mut tail);
    proof {
        assert forall|j: int| 0 <= j < out@.len() implies deep_view_seq(out@)[j] == (seq![vd]
            + rd)[j] by {
            if j > 0 {
                assert(out@[j] == rest@[j - 1]);
                assert(rd[j - 1] == rest@[j - 1].deep_view());
            }
        }
        assert(deep_view_seq(out@) =~= seq![vd] + rd);
    }
    out
}

// --- operators and literals -------------------------------------------

/// The keyword `null`, lowercase.
pub open spec fn kw_null() -> Seq<u8> {
    seq![110u8, 117u8, 108u8, 108u8]
}

/// The keyword `true`, lowercase.
pub open spec fn kw_true() -> Seq<u8> {
    seq![116u8, 114u8, 117u8, 101u8]
}

/// The keyword `false`, lowercase.
pub open spec fn kw_false() -> Seq<u8> {
    seq![102u8, 97u8, 108u8, 115u8, 101u8]
}

/// The keyword `and`, lowercase.
pub open spec fn kw_and() -> Seq<u8> {
    seq![97u8, 110u8, 100u8]
}

/// The keyword `or`, lowercase.
pub open spec fn kw_or() -> Seq<u8> {
    seq![111u8, 114u8]
}

/// The keyword `in`, lowercase.
pub open spec fn kw_in() -> Seq<u8> {
    seq![105u8, 110u8]
}

/// An operator token at `i`: two-byte operators first, then `>`, `<`,
/// and case-insensitive `in`.
pub open spec fn spec_parse_operator(s: Seq<u8>, i: int) -> Result<(Operator, int), int> {
    match spec_match_kw(s, i, seq![61u8, 61u8]) {
        Ok(e) => Ok((Operator::Eq, e)),
        Err(e1) => match spec_match_kw(s, i, seq![33u8, 61u8]) {
            Ok(e) => Ok((Operator::Ne, e)),
            Err(e2) => match spec_match_kw(s, i, seq![62u8, 61u8]) {
                Ok(e) => Ok((Operator::Gte, e)),
                Err(e3) => match spec_match_kw(s, i, seq![60u8, 61u8]) {
                    Ok(e) => Ok((Operator::Lte, e)),
                    Err(e4) => match spec_match_kw(s, i, seq![62u8]) {
                        Ok(e) => Ok((Operator::Gt, e)),
                        Err(e5) => match spec_match_kw(s, i, seq![60u8]) {
                            Ok(e) => Ok((Operator::Lt, e)),
                            Err(e6) => match spec_match_kw(s, i, kw_in()) {
                                Ok(e) => Ok((Operator::In, e)),
                                Err(e7) => Err(
                                    pmax(
                                        pmax(pmax(e1, e2), pmax(e3, e4)),
                                        pmax(pmax(e5, e6), e7),
                                    ),
                                ),
                            },
                        },
                    },
                },
            },
        },
    }
}

/// An operator token, exec side.
fn parse_operator(s: &[u8], i: usize) -> (r: Result<(Operator, usize), usize>)
    requires
        i <= s@.len(),
    ensures
        (match r {
            Ok((op, e)) => spec_parse_operator(s@, i as int) == Ok::<(Operator, int), int>(
                (op, e as int),
            ) && i < e <= s@.len(),
            Err(p) => spec_parse_operator(s@, i as int) == Err::<(Operator, int), int>(p as int)
                && p <= s@.len(),
        }),
{
    let r1 = seq_nocase(s, i, &[61, 61]);
    let e1 = match r1 {
        Ok(e) => {
            return Ok((Operator::Eq, e));
        },
        Err(p) => p,
    };
    let e2 = match seq_nocase(s, i, &[33, 61]) {
        Ok(e) => {
            return Ok((Operator::Ne, e));
        },
        Err(p) => p,
    };
    let e3 = match seq_nocase(s, i, &[62, 61]) {
        Ok(e) => {
            return Ok((Operator::Gte, e));
        },
        Err(p) => p,
    };
    let e4 = match seq_nocase(s, i, &[60, 61]) {
        Ok(e) => {
            return Ok((Operator::Lte, e));
        },
        Err(p) => p,
    };
    let kw_gt: &[u8] = &[62];
    let kw_lt: &[u8] = &[60];
    proof {
        assert(kw_gt@ =~= seq![62u8]);
        assert(kw_lt@ =~= seq![60u8]);
    }
    let e5 = match seq_nocase(s, i, kw_gt) {
        Ok(e) => {
            return Ok((Operator::Gt, e));
        },
        Err(p) => p,
    };
    let e6 = match seq_nocase(s, i, kw_lt) {
        Ok(e) => {
            return Ok((Operator::Lt, e));
        },
        Err(p) => p,
    };
    let e7 = match seq_nocase(s, i, &[105, 110]) {
        Ok(e) => {
            return Ok((Operator::In, e));
        },
        Err(p) => p,
    };
    let m1 = if e1 >= e2 {
        e1
    } else {
        e2
    };
    let m2 = if e3 >= e4 {
        e3
    } else {
        e4
    };
    let m3 = if e5 >= e6 {
        e5
    } else {
        e6
    };
    let m4 = if m3 >= e7 {
        m3
    } else {
        e7
    };
    let m5 = if m1 >= m2 {
        m1
    } else {
        m2
    };
    Err(if m5 >= m4 {
        m5
    } else {
        m4
    })
}

// --- list literals ------------------------------------------------------

/// Further string-list elements: `, ws elem ws` as often as it parses.
pub open spec fn spec_parse_string_list_rest(s: Seq<u8>, i: int) -> (Seq<Seq<u8>>, int)
    decreases s.len() - i,
{
    if !(0 <= i < s.len() && s[i] == 44) {
        (Seq::empty(), i)
    } else {
        let j = fwd(i + 1, spec_skip_ws(s, i + 1), s.len() as int);
        match spec_parse_string(s, j) {
            Err(u) => (Seq::empty(), i),
            Ok((v, p)) => {
                let c = adv(i, p, s.len() as int);
                let c2 = fwd(c, spec_skip_ws(s, c), s.len() as int);
                let (rest, q) = spec_parse_string_list_rest(s, c2);
                (seq![v] + rest, q)
            },
        }
    }
}

/// A string-list literal at `i`.
pub open spec fn spec_parse_string_list(s: Seq<u8>, i: int) -> Result<(Seq<Seq<u8>>, int), int> {
    if !(0 <= i < s.len() && s[i] == 91) {
        Err(perr(s, i))
    } else {
        let j = spec_skip_ws(s, i + 1);
        match spec_parse_string(s, j) {
            Err(e) => Err(e),
            Ok((v1, p)) => {
                let c = spec_skip_ws(s, p);
                let (rest, q) = spec_parse_string_list_rest(s, c);
                if 0 <= q < s.len() && s[q] == 93 {
                    Ok((seq![v1] + rest, q + 1))
                } else {
                    Err(perr(s, q))
                }
            },
        }
    }
}

/// Further string-list elements, exec side.
fn parse_string_list_rest(s: &[u8], i: usize) -> (r: (Vec<Vec<u8>>, usize))
    requires
        i <= s@.len(),
    ensures
        spec_parse_string_list_rest(s@, i as int) == (r.0.deep_view(), r.1 as int),
        i <= r.1 <= s@.len(),
    decreases s@.len() - i,
{
    if !(i < s.len() && s[i] == 44) {
        let out: Vec<Vec<u8>> = Vec::new();
        proof {
            assert(out.deep_view() =~= Seq::<Seq<u8>>::empty());
        }
        return (out, i);
    }
    let j = skip_ws(s, i + 1);
    match parse_string(s, j) {
        Err(u) => {
            let out: Vec<Vec<u8>> = Vec::new();
            proof {
                assert(out.deep_view() =~= Seq::<Seq<u8>>::empty());
            }
            (out, i)
        },
        Ok((v, p)) => {
            let c2 = skip_ws(s, p);
            let (rest, q) = parse_string_list_rest(s, c2);
            (cons_bytes_list(v, rest), q)
        },
    }
}

/// A string-list literal, exec side.
fn parse_string_list(s: &[u8], i: usize) -> (r: Result<(Vec<Vec<u8>>, usize), usize>)
    requires
        i <= s@.len(),
    ensures
        (match r {
            Ok((l, e)) => spec_parse_string_list(s@, i as int) == Ok::<(Seq<Seq<u8>>, int), int>(
                (l.deep_view(), e as int),
            ) && i < e <= s@.len(),
            Err(p) => spec_parse_string_list(s@, i as int) == Err::<(Seq<Seq<u8>>, int), int>(
                p as int,
            ) && p <= s@.len(),
        }),
{
    if !(i < s.len() && s[i] == 91) {
        return Err(if i < s.len() {
            i
        } else {
            s.len()
        });
    }
    let j = skip_ws(s, i + 1);
    match parse_string(s, j) {
        Err(e) => Err(e),
        Ok((v1, p)) => {
            let c = skip_ws(s, p);
            let (rest, q) = parse_string_list_rest(s, c);
            if q < s.len() && s[q] == 93 {
                Ok((cons_bytes_list(v1, rest), q + 1))
            } else {
                Err(q)
            }
        },
    }
}

/// Further raw-list elements: `, ws elem ws` as often as it parses.
pub open spec fn spec_parse_raw_list_rest(s: Seq<u8>, i: int) -> (Seq<Seq<u8>>, int)
    decreases s.len() - i,
{
    if !(0 <= i < s.len() && s[i] == 44) {
        (Seq::empty(), i)
    } else {
        let j = fwd(i + 1, spec_skip_ws(s, i + 1), s.len() as int);
        match spec_parse_raw(s, j) {
            Err(u) => (Seq::empty(), i),
            Ok((v, p)) => {
                let c = adv(i, p, s.len() as int);
                let c2 = fwd(c, spec_skip_ws(s, c), s.len() as int);
                let (rest, q) = spec_parse_raw_list_rest(s, c2);
                (seq![v] + rest, q)
            },
        }
    }
}

/// A raw-list literal at `i`.
pub open spec fn spec_parse_raw_list(s: Seq<u8>, i: int) -> Result<(Seq<Seq<u8>>, int), int> {
    if !(0 <= i < s.len() && s[i] == 91) {
        Err(perr(s, i))
    } else {
        let j = spec_skip_ws(s, i + 1);
        match spec_parse_raw(s, j) {
            Err(e) => Err(e),
            Ok((v1, p)) => {
                let c = spec_skip_ws(s, p);
                let (rest, q) = spec_parse_raw_list_rest(s, c);
                if 0 <= q < s.len() && s[q] == 93 {
                    Ok((seq![v1] + rest, q + 1))
                } else {
                    Err(perr(s, q))
                }
            },
        }
    }
}

/// Further raw-list elements, exec side.
fn parse_raw_list_rest(s: &[u8], i: usize) -> (r: (Vec<Vec<u8>>, usize))
    requires
        i <= s@.len(),
    ensures
        spec_parse_raw_list_rest(s@, i as int) == (r.0.deep_view(), r.1 as int),
        i <= r.1 <= s@.len(),
    decreases s@.len() - i,
{
    if !(i < s.len() && s[i] == 44) {
        let out: Vec<Vec<u8>> = Vec::new();
        proof {
            assert(out.deep_view() =~= Seq::<Seq<u8>>::empty());
        }
        return (out, i);
    }
    let j = skip_ws(s, i + 1);
    match parse_raw(s, j) {
        Err(u) => {
            let out: Vec<Vec<u8>> = Vec::new();
            proof {
                assert(out.deep_view() =~= Seq::<Seq<u8>>::empty());
            }
            (out, i)
        },
        Ok((v, p)) => {
            let c2 = skip_ws(s, p);
            let (rest, q) = parse_raw_list_rest(s, c2);
            (cons_bytes_list(v, rest), q)
        },
    }
}

/// A raw-list literal, exec side.
fn parse_raw_list(s: &[u8], i: usize) -> (r: Result<(Vec<Vec<u8>>, usize), usize>)
    requires
        i <= s@.len(),
    ensures
        (match r {
            Ok((l, e)) => spec_parse_raw_list(s@, i as int) == Ok::<(Seq<Seq<u8>>, int), int>(
                (l.deep_view(), e as int),
            ) && i < e <= s@.len(),
            Err(p) => spec_parse_raw_list(s@, i as int) == Err::<(Seq<Seq<u8>>, int), int>(
                p as int,
            ) && p <= s@.len(),
        }),
{
    if !(i < s.len() && s[i] == 91) {
        return Err(if i < s.len() {
            i
        } else {
            s.len()
        });
    }
    let j = skip_ws(s, i + 1);
    match parse_raw(s, j) {
        Err(e) => Err(e),
        Ok((v1, p)) => {
            let c = skip_ws(s, p);
            let (rest, q) = parse_raw_list_rest(s, c);
            if q < s.len() && s[q] == 93 {
                Ok((cons_bytes_list(v1, rest), q + 1))
            } else {
                Err(q)
            }
        },
    }
}

/// Further datetime-list elements: `, ws elem ws` as often as it parses.
pub open spec fn spec_parse_datetime_list_rest(s: Seq<u8>, i: int) -> (Seq<i64>, int)
    decreases s.len() - i,
{
    if !(0 <= i < s.len() && s[i] == 44) {
        (Seq::empty(), i)
    } else {
        let j = fwd(i + 1, spec_skip_ws(s, i + 1), s.len() as int);
        match spec_parse_datetime(s, j) {
            Err(u) => (Seq::empty(), i),
            Ok((v, p)) => {
                let c = adv(i, p, s.len() as int);
                let c2 = fwd(c, spec_skip_ws(s, c), s.len() as int);
                let (rest, q) = spec_parse_datetime_list_rest(s, c2);
                (seq![v] + rest, q)
            },
        }
    }
}

/// A datetime-list literal at `i`.
pub open spec fn spec_parse_datetime_list(s: Seq<u8>, i: int) -> Result<(Seq<i64>, int), int> {
    if !(0 <= i < s.len() && s[i] == 91) {
        Err(perr(s, i))
    } else {
        let j = spec_skip_ws(s, i + 1);
        match spec_parse_datetime(s, j) {
            Err(e) => Err(e),
            Ok((v1, p)) => {
                let c = spec_skip_ws(s, p);
                let (rest, q) = spec_parse_datetime_list_rest(s, c);
                if 0 <= q < s.len() && s[q] == 93 {
                    Ok((seq![v1] + rest, q + 1))
                } else {
                    Err(perr(s, q))
                }
            },
        }
    }
}

/// Further datetime-list elements, exec side.
fn parse_datetime_list_rest(s: &[u8], i: usize) -> (r: (Vec<i64>, usize))
    requires
        i <= s@.len(),
    ensures
        spec_parse_datetime_list_rest(s@, i as int) == (r.0@, r.1 as int),
        i <= r.1 <= s@.len(),
    decreases s@.len() - i,
{
    if !(i < s.len() && s[i] == 44) {
        let out: Vec<i64> = Vec::new();
        proof {
            assert(out@ =~= Seq::<i64>::empty());
        }
        return (out, i);
    }
    let j = skip_ws(s, i + 1);
    match parse_datetime(s, j) {
        Err(u) => {
            let out: Vec<i64> = Vec::new();
            proof {
                assert(out@ =~= Seq::<i64>::empty());
            }
            (out, i)
        },
        Ok((v, p)) => {
            let c2 = skip_ws(s, p);
            let (rest, q) = parse_datetime_list_rest(s, c2);
            (cons_i64(v, rest), q)
        },
    }
}

/// A datetime-list literal, exec side.
fn parse_datetime_list(s: &[u8], i: usize) -> (r: Result<(Vec<i64>, usize), usize>)
    requires
        i <= s@.len(),
    ensures
        (match r {
            Ok((l, e)) => spec_parse_datetime_list(s@, i as int) == Ok::<(Seq<i64>, int), int>(
                (l@, e as int),
            ) && i < e <= s@.len(),
            Err(p) => spec_parse_datetime_list(s@, i as int) == Err::<(Seq<i64>, int), int>(
                p as int,
            ) && p <= s@.len(),
        }),
{
    if !(i < s.len() && s[i] == 91) {
        return Err(if i < s.len() {
            i
        } else {
            s.len()
        });
    }
    let j = skip_ws(s, i + 1);
    match parse_datetime(s, j) {
        Err(e) => Err(e),
        Ok((v1, p)) => {
            let c = skip_ws(s, p);
            let (rest, q) = parse_datetime_list_rest(s, c);
            if q < s.len() && s[q] == 93 {
                Ok((cons_i64(v1, rest), q + 1))
            } else {
                Err(q)
            }
        },
    }
}

/// Further number-list elements: `, ws elem ws` as often as it parses.
pub open spec fn spec_parse_number_list_rest(s: Seq<u8>, i: int) -> (Seq<u64>, int)
    decreases s.len() - i,
{
    if !(0 <= i < s.len() && s[i] == 44) {
        (Seq::empty(), i)
    } else {
        let j = fwd(i + 1, spec_skip_ws(s, i + 1), s.len() as int);
        match spec_parse_number(s, j) {
            Err(u) => (Seq::empty(), i),
            Ok((v, p)) => {
                let c = adv(i, p, s.len() as int);
                let c2 = fwd(c, spec_skip_ws(s, c), s.len() as int);
                let (rest, q) = spec_parse_number_list_rest(s, c2);
                (seq![v] + rest, q)
            },
        }
    }
}

/// A number-list literal at `i`.
pub open spec fn spec_parse_number_list(s: Seq<u8>, i: int) -> Result<(Seq<u64>, int), int> {
    if !(0 <= i < s.len() && s[i] == 91) {
        Err(perr(s, i))
    } else {
        let j = spec_skip_ws(s, i + 1);
        match spec_parse_number(s, j) {
            Err(e) => Err(e),
            Ok((v1, p)) => {
                let c = spec_skip_ws(s, p);
                let (rest, q) = spec_parse_number_list_rest(s, c);
                if 0 <= q < s.len() && s[q] == 93 {
                    Ok((seq![v1] + rest, q + 1))
                } else {
                    Err(perr(s, q))
                }
            },
        }
    }
}

/// Further number-list elements, exec side.
fn parse_number_list_rest(s: &[u8], i: usize) -> (r: (Vec<u64>, usize))
    requires
        i <= s@.len(),
    ensures
        spec_parse_number_list_rest(s@, i as int) == (r.0@, r.1 as int),
        i <= r.1 <= s@.len(),
    decreases s@.len() - i,
{
    if !(i < s.len() && s[i] == 44) {
        let out: Vec<u64> = Vec::new();
        proof {
            assert(out@ =~= Seq::<u64>::empty());
        }
        return (out, i);
    }
    let j = skip_ws(s, i + 1);
    match parse_number(s, j) {
        Err(u) => {
            let out: Vec<u64> = Vec::new();
            proof {
                assert(out@ =~= Seq::<u64>::empty());
            }
            (out, i)
        },
        Ok((v, p)) => {
            let c2 = skip_ws(s, p);
            let (rest, q) = parse_number_list_rest(s, c2);
            (cons_u64(v, rest), q)
        },
    }
}

/// A number-list literal, exec side.
fn parse_number_list(s: &[u8], i: usize) -> (r: Result<(Vec<u64>, usize), usize>)
    requires
        i <= s@.len(),
    ensures
        (match r {
            Ok((l, e)) => spec_parse_number_list(s@, i as int) == Ok::<(Seq<u64>, int), int>(
                (l@, e as int),
            ) && i < e <= s@.len(),
            Err(p) => spec_parse_number_list(s@, i as int) == Err::<(Seq<u64>, int), int>(
                p as int,
            ) && p <= s@.len(),
        }),
{
    if !(i < s.len() && s[i] == 91) {
        return Err(if i < s.len() {
            i
        } else {
            s.len()
        });
    }
    let j = skip_ws(s, i + 1);
    match parse_number(s, j) {
        Err(e) => Err(e),
        Ok((v1, p)) => {
            let c = skip_ws(s, p);
            let (rest, q) = parse_number_list_rest(s, c);
            if q < s.len() && s[q] == 93 {
                Ok((cons_u64(v1, rest), q + 1))
            } else {
                Err(q)
            }
        },
    }
}

// --- literals, operations, groups ---------------------------------------

/// A literal at `i`. Alternatives are tried in a fixed order — keywords,
/// string, regex, raw, datetime, number, the four list forms, then a
/// field path — and a failure carries the furthest position any of them
/// reached.
pub open spec fn spec_parse_literal(s: Seq<u8>, i: int) -> Result<(SpecLiteral, int), int> {
    match spec_match_kw(s, i, kw_null()) {
        Ok(e) => Ok((SpecLiteral::Value(SpecValue::Null), e)),
        Err(e1) => match spec_match_kw(s, i, kw_true()) {
            Ok(e) => Ok((SpecLiteral::Value(SpecValue::Boolean(true)), e)),
            Err(e2) => match spec_match_kw(s, i, kw_false()) {
                Ok(e) => Ok((SpecLiteral::Value(SpecValue::Boolean(false)), e)),
                Err(e3) => match spec_parse_string(s, i) {
                    Ok((v, e)) => Ok((SpecLiteral::Value(SpecValue::String(v)), e)),
                    Err(e4) => match spec_parse_regex(s, i) {
                        Ok((v, e)) => Ok((SpecLiteral::Value(SpecValue::Regex(v)), e)),
                        Err(e5) => match spec_parse_raw(s, i) {
                            Ok((v, e)) => Ok((SpecLiteral::Value(SpecValue::Raw(v)), e)),
                            Err(e6) => match spec_parse_datetime(s, i) {
                                Ok((v, e)) => Ok((SpecLiteral::Value(SpecValue::DateTime(v)), e)),
                                Err(e7) => match spec_parse_number(s, i) {
                                    Ok((v, e)) => Ok(
                                        (SpecLiteral::Value(SpecValue::Number(v)), e),
                                    ),
                                    Err(e8) => match spec_parse_string_list(s, i) {
                                        Ok((v, e)) => Ok(
                                            (SpecLiteral::Value(SpecValue::StringList(v)), e),
                                        ),
                                        Err(e9) => match spec_parse_raw_list(s, i) {
                                            Ok((v, e)) => Ok(
                                                (SpecLiteral::Value(SpecValue::RawList(v)), e),
                                            ),
                                            Err(e10) => match spec_parse_datetime_list(s, i) {
                                                Ok((v, e)) => Ok(
                                                    (
                                                        SpecLiteral::Value(
                                                            SpecValue::DateTimeList(v),
                                                        ),
                                                        e,
                                                    ),
                                                ),
                                                Err(e11) => match spec_parse_number_list(s, i) {
                                                    Ok((v, e)) => Ok(
                                                        (
                                                            SpecLiteral::Value(
                                                                SpecValue::NumberList(v),
                                                            ),
                                                            e,
                                                        ),
                                                    ),
                                                    Err(e12) => match spec_parse_field(s, i) {
                                                        Ok(e) => Ok(
                                                            (
                                                                SpecLiteral::Field(
                                                                    s.subrange(i, e),
                                                                ),
                                                                e,
                                                            ),
                                                        ),
                                                        Err(e13) => Err(
                                                            pmax(
                                                                pmax(
                                                                    pmax(pmax(e1, e2), pmax(e3, e4)),
                                                                    pmax(pmax(e5, e6), pmax(e7, e8)),
                                                                ),
                                                                pmax(
                                                                    pmax(e9, e10),
                                                                    pmax(pmax(e11, e12), e13),
                                                                ),
                                                            ),
                                                        ),
                                                    },
                                                },
                                            },
                                        },
                                    },
                                },
                            },
                        },
                    },
                },
            },
        },
    }
}

/// A literal, exec side.
fn parse_literal(s: &[u8], i: usize) -> (r: Result<(Literal, usize), usize>)
    requires
        i <= s@.len(),
    ensures
        (match r {
            Ok((lit, e)) => spec_parse_literal(s@, i as int) == Ok::<(SpecLiteral, int), int>(
                (lit.deep_view(), e as int),
            ) && i < e <= s@.len(),
            Err(p) => spec_parse_literal(s@, i as int) == Err::<(SpecLiteral, int), int>(p as int)
                && p <= s@.len(),
        }),
{
    let e1 = match seq_nocase(s, i, &[110, 117, 108, 108]) {
        Ok(e) => {
            return Ok((Literal::LiteralValue(Value::Null), e));
        },
        Err(p) => p,
    };
    let e2 = match seq_nocase(s, i, &[116, 114, 117, 101]) {
        Ok(e) => {
            return Ok((Literal::LiteralValue(Value::Boolean(true)), e));
        },
        Err(p) => p,
    };
    let e3 = match seq_nocase(s, i, &[102, 97, 108, 115, 101]) {
        Ok(e) => {
            return Ok((Literal::LiteralValue(Value::Boolean(false)), e));
        },
        Err(p) => p,
    };
    let e4 = match parse_string(s, i) {
        Ok((v, e)) => {
            return Ok((Literal::LiteralValue(Value::String(v)), e));
        },
        Err(p) => p,
    };
    let e5 = match parse_regex(s, i) {
        Ok((v, e)) => {
            return Ok((Literal::LiteralValue(Value::Regex(v)), e));
        },
        Err(p) => p,
    };
    let e6 = match parse_raw(s, i) {
        Ok((v, e)) => {
            return Ok((Literal::LiteralValue(Value::Raw(v)), e));
        },
        Err(p) => p,
    };
    let e7 = match parse_datetime(s, i) {
        Ok((v, e)) => {
            return Ok((Literal::LiteralValue(Value::DateTime(v)), e));
        },
        Err(p) => p,
    };
    let e8 = match parse_number(s, i) {
        Ok((v, e)) => {
            return Ok((Literal::LiteralValue(Value::Number(v)), e));
        },
        Err(p) => p,
    };
    let e9 = match parse_string_list(s, i) {
        Ok((v, e)) => {
            return Ok((Literal::LiteralValue(Value::StringList(v)), e));
        },
        Err(p) => p,
    };
    let e10 = match parse_raw_list(s, i) {
        Ok((v, e)) => {
            return Ok((Literal::LiteralValue(Value::RawList(v)), e));
        },
        Err(p) => p,
    };
    let e11 = match parse_datetime_list(s, i) {
        Ok((v, e)) => {
            return Ok((Literal::LiteralValue(Value::DateTimeList(v)), e));
        },
        Err(p) => p,
    };
    let e12 = match parse_number_list(s, i) {
        Ok((v, e)) => {
            return Ok((Literal::LiteralValue(Value::NumberList(v)), e));
        },
        Err(p) => p,
    };
    let e13 = match parse_field(s, i) {
        Ok(e) => {
            let name = vstd::slice::slice_to_vec(slice_subrange(s, i, e));
            return Ok((Literal::LiteralField(name), e));
        },
        Err(p) => p,
    };
    let m1 = pmax_x(pmax_x(e1, e2), pmax_x(e3, e4));
    let m2 = pmax_x(pmax_x(e5, e6), pmax_x(e7, e8));
    let m3 = pmax_x(pmax_x(e9, e10), pmax_x(pmax_x(e11, e12), e13));
    Err(pmax_x(pmax_x(m1, m2), m3))
}

/// The larger of two positions, exec side.
fn pmax_x(a: usize, b: usize) -> (r: usize)
    ensures
        r as int == pmax(a as int, b as int),
{
    if a >= b {
        a
    } else {
        b
    }
}

/// An operation at `i`: literal, whitespace, operator, whitespace,
/// literal.
pub open spec fn spec_parse_operation(s: Seq<u8>, i: int) -> Result<(SpecOperation, int), int> {
    match spec_parse_literal(s, i) {
        Err(e) => Err(e),
        Ok((lhs, p1)) => {
            let j = spec_skip_ws(s, p1);
            match spec_parse_operator(s, j) {
                Err(e) => Err(e),
                Ok((op, p2)) => {
                    let j2 = spec_skip_ws(s, p2);
                    match spec_parse_literal(s, j2) {
                        Err(e) => Err(e),
                        Ok((rhs, p3)) => Ok((SpecOperation { lhs, op, rhs }, p3)),
                    }
                },
            }
        },
    }
}

/// An operation, exec side.
fn parse_operation(s: &[u8], i: usize) -> (r: Result<(Operation, usize), usize>)
    requires
        i <= s@.len(),
    ensures
        (match r {
            Ok((op, e)) => spec_parse_operation(s@, i as int) == Ok::<(SpecOperation, int), int>(
                (op.deep_view(), e as int),
            ) && i < e <= s@.len(),
            Err(p) => spec_parse_operation(s@, i as int) == Err::<(SpecOperation, int), int>(
                p as int,
            ) && p <= s@.len(),
        }),
{
    match parse_literal(s, i) {
        Err(e) => Err(e),
        Ok((lhs, p1)) => {
            let j = skip_ws(s, p1);
            match parse_operator(s, j) {
                Err(e) => Err(e),
                Ok((op, p2)) => {
                    let j2 = skip_ws(s, p2);
                    match parse_literal(s, j2) {
                        Err(e) => Err(e),
                        Ok((rhs, p3)) => Ok((Operation { lhs, op, rhs }, p3)),
                    }
                },
            }
        },
    }
}

/// Group elements after the first separator: one expression, then an
/// optional separator keyword and as many more elements as will parse.
/// A separator only counts where whitespace borders it: before it,
/// either skipped here or already consumed as the tail of the element
/// (a raw literal ends past its trailing whitespace); after it, skipped
/// whitespace or the closing parenthesis. Fails only where the first
/// element fails.
pub open spec fn spec_parse_group_elems(s: Seq<u8>, i: int, kw: Seq<u8>) -> Result<
    (Seq<SpecExpression>, int),
    int,
>
    decreases s.len() - i, 4int,
{
    match spec_parse_expression(s, i) {
        Err(e) => Err(e),
        Ok((e1, p)) => {
            let c1 = adv(i, p, s.len() as int);
            let c2 = fwd(c1, spec_skip_ws(s, c1), s.len() as int);
            let c3 = if c2 > c1 || (0 <= c1 - 1 < s.len() && is_ws(s[c1 - 1])) {
                match spec_match_kw(s, c2, kw) {
                    Ok(k) => {
                        let t = fwd(c2, k, s.len() as int);
                        let t2 = fwd(t, spec_skip_ws(s, t), s.len() as int);
                        if t2 > t || (0 <= t < s.len() && s[t] == 41) {
                            t2
                        } else {
                            c2
                        }
                    },
                    Err(u) => c2,
                }
            } else {
                c2
            };
            if i < c3 <= s.len() {
                match spec_parse_group_elems(s, c3, kw) {
                    Err(u) => Ok((seq![e1], c3)),
                    Ok((rest, q)) => Ok((seq![e1] + rest, q)),
                }
            } else {
                Ok((seq![e1], c3))
            }
        },
    }
}

/// A parenthesized group at `i`: `(`, whitespace, a first expression,
/// whitespace, the separator keyword, whitespace, one or more further
/// elements, whitespace, `)`. The separator must be bordered by
/// whitespace on both sides (the closing parenthesis may stand directly
/// after it). When the first expression fails, the reported position is
/// the furthest of that failure and the group sketch below, so an
/// unfinished group such as `(a AND)` points at its closing
/// parenthesis.
pub open spec fn spec_parse_group(s: Seq<u8>, i: int, kw: Seq<u8>) -> Result<
    (Seq<SpecExpression>, int),
    int,
>
    decreases s.len() - i, 2int,
{
    if !(0 <= i < s.len() && s[i] == 40) {
        Err(perr(s, i))
    } else {
        let j = adv(i, spec_skip_ws(s, i + 1), s.len() as int);
        match spec_parse_expression(s, j) {
            Err(e) => Err(pmax(e, spec_group_sketch(s, j, kw))),
            Ok((e1, p1)) => {
                let c1 = adv(j, p1, s.len() as int);
                let c2 = fwd(c1, spec_skip_ws(s, c1), s.len() as int);
                if c2 == c1 && !(0 <= c1 - 1 < s.len() && is_ws(s[c1 - 1])) {
                    Err(perr(s, c2))
                } else {
                    match spec_match_kw(s, c2, kw) {
                        Err(e) => Err(e),
                        Ok(k1) => {
                            let c3 = fwd(c2, k1, s.len() as int);
                            let c4 = fwd(c3, spec_skip_ws(s, c3), s.len() as int);
                            if c4 == c3 && !(0 <= c3 < s.len() && s[c3] == 41) {
                                Err(perr(s, c3))
                            } else {
                                match spec_parse_group_elems(s, c4, kw) {
                                    Err(e) => Err(e),
                                    Ok((rest, q)) => {
                                        let c5 = spec_skip_ws(s, q);
                                        if 0 <= c5 < s.len() && s[c5] == 41 {
                                            Ok((seq![e1] + rest, c5 + 1))
                                        } else {
                                            Err(perr(s, c5))
                                        }
                                    },
                                }
                            }
                        },
                    }
                }
            },
        }
    }
}

/// How far a group whose first part is not a well-formed expression
/// still reads as a sketch of one: bare literals with whitespace and
/// optional separator keywords between them, as far as they go. The
/// result is the position where the sketch needed, and failed to find,
/// its next literal — for `(a AND)` that is the closing parenthesis —
/// and a failing group reports the furthest of this position and the
/// positions its real alternatives reached.
#[verifier::opaque]
pub open spec fn spec_group_sketch(s: Seq<u8>, i: int, kw: Seq<u8>) -> int
    decreases s.len() - i,
{
    match spec_parse_literal(s, i) {
        Err(u) => perr(s, i),
        Ok((l, p)) => {
            let c1 = adv(i, p, s.len() as int);
            let c2 = fwd(c1, spec_skip_ws(s, c1), s.len() as int);
            let c3 = match spec_match_kw(s, c2, kw) {
                Ok(k) => {
                    let t = fwd(c2, k, s.len() as int);
                    fwd(t, spec_skip_ws(s, t), s.len() as int)
                },
                Err(u) => c2,
            };
            if i < c3 <= s.len() {
                spec_group_sketch(s, c3, kw)
            } else {
                perr(s, c3)
            }
        },
    }
}

/// A negation at `i`: `!`, whitespace, `(`, whitespace, an expression,
/// whitespace, `)`.
pub open spec fn spec_parse_not(s: Seq<u8>, i: int) -> Result<(SpecExpression, int), int>
    decreases s.len() - i, 2int,
{
    if !(0 <= i < s.len() && s[i] == 33) {
        Err(perr(s, i))
    } else {
        let j = adv(i, spec_skip_ws(s, i + 1), s.len() as int);
        if !(j < s.len() && s[j] == 40) {
            Err(perr(s, j))
        } else {
            let j2 = adv(j, spec_skip_ws(s, j + 1), s.len() as int);
            match spec_parse_expression(s, j2) {
                Err(e) => Err(e),
                Ok((e1, p)) => {
                    let c = spec_skip_ws(s, p);
                    if 0 <= c < s.len() && s[c] == 41 {
                        Ok((e1, c + 1))
                    } else {
                        Err(perr(s, c))
                    }
                },
            }
        }
    }
}

/// An expression at `i`: a conjunction group, a disjunction group, a
/// negation or a single operation, in that order; a failure carries the
/// furthest position any of them reached.
pub open spec fn spec_parse_expression(s: Seq<u8>, i: int) -> Result<(SpecExpression, int), int>
    decreases s.len() - i, 3int,
{
    match spec_parse_group(s, i, kw_and()) {
        Ok((subs, p)) => Ok((SpecExpression::And(subs), p)),
        Err(e1) => match spec_parse_group(s, i, kw_or()) {
            Ok((subs, p)) => Ok((SpecExpression::Or(subs), p)),
            Err(e2) => match spec_parse_not(s, i) {
                Ok((inner, p)) => Ok((SpecExpression::Not(Box::new(inner)), p)),
                Err(e3) => match spec_parse_operation(s, i) {
                    Ok((op, p)) => Ok((SpecExpression::Operation(op), p)),
                    Err(e4) => Err(pmax(pmax(e1, e2), pmax(e3, e4))),
                },
            },
        },
    }
}

/// Group elements, exec side.
fn parse_group_elems(s: &[u8], i: usize, kw: &[u8]) -> (r: Result<(Vec<Expression>, usize), usize>)
    requires
        i <= s@.len(),
    ensures
        (match r {
            Ok((l, e)) => spec_parse_group_elems(s@, i as int, kw@) == Ok::<
                (Seq<SpecExpression>, int),
                int,
            >((deep_view_seq(l@), e as int)) && i <= e <= s@.len(),
            Err(p) => spec_parse_group_elems(s@, i as int, kw@) == Err::<
                (Seq<SpecExpression>, int),
                int,
            >(p as int) && p <= s@.len(),
        }),
    decreases s@.len() - i, 4int,
{
    match parse_expression(s, i) {
        Err(e) => Err(e),
        Ok((e1, p)) => {
            let c2 = skip_ws(s, p);
            let c3 = if c2 > p || (p > 0 && p - 1 < s.len() && {
                let b = s[p - 1];
                b == 32 || b == 9 || b == 13 || b == 10
            }) {
                match seq_nocase(s, c2, kw) {
                    Ok(k) => {
                        let t2 = skip_ws(s, k);
                        if t2 > k || (k < s.len() && s[k] == 41) {
                            t2
                        } else {
                            c2
                        }
                    },
                    Err(u) => c2,
                }
            } else {
                c2
            };
            match parse_group_elems(s, c3, kw) {
                Err(u) => {
                    let out = cons_expr(e1, Vec::new());
                    proof {
                        assert(seq![out@[0].deep_view()] + deep_view_seq(
                            Seq::<Expression>::empty(),
                        ) =~= seq![out@[0].deep_view()]);
                    }
                    Ok((out, c3))
                },
                Ok((rest, q)) => Ok((cons_expr(e1, rest), q)),
            }
        },
    }
}

/// A parenthesized group, exec side.
fn parse_group(s: &[u8], i: usize, kw: &[u8]) -> (r: Result<(Vec<Expression>, usize), usize>)
    requires
        i <= s@.len(),
    ensures
        (match r {
            Ok((l, e)) => spec_parse_group(s@, i as int, kw@) == Ok::<
                (Seq<SpecExpression>, int),
                int,
            >((deep_view_seq(l@), e as int)) && i < e <= s@.len(),
            Err(p) => spec_parse_group(s@, i as int, kw@) == Err::<
                (Seq<SpecExpression>, int),
                int,
            >(p as int) && p <= s@.len(),
        }),
    decreases s@.len() - i, 2int,
{
    if !(i < s.len() && s[i] == 40) {
        return Err(if i < s.len() {
            i
        } else {
            s.len()
        });
    }
    let j = skip_ws(s, i + 1);
    match parse_expression(s, j) {
        Err(e) => Err(pmax_x(e, group_sketch(s, j, kw))),
        Ok((e1, p1)) => {
            let c2 = skip_ws(s, p1);
            if c2 == p1 && !(p1 > 0 && p1 - 1 < s.len() && {
                let b = s[p1 - 1];
                b == 32 || b == 9 || b == 13 || b == 10
            }) {
                return Err(c2);
            }
            match seq_nocase(s, c2, kw) {
                Err(e) => Err(e),
                Ok(k1) => {
                    let c4 = skip_ws(s, k1);
                    if c4 == k1 && !(k1 < s.len() && s[k1] == 41) {
                        return Err(k1);
                    }
                    match parse_group_elems(s, c4, kw) {
                        Err(e) => Err(e),
                        Ok((rest, q)) => {
                            let c5 = skip_ws(s, q);
                            if c5 < s.len() && s[c5] == 41 {
                                Ok((cons_expr(e1, rest), c5 + 1))
                            } else {
                                Err(c5)
                            }
                        },
                    }
                },
            }
        },
    }
}

/// The sketch walk, exec side.
fn group_sketch(s: &[u8], i: usize, kw: &[u8]) -> (r: usize)
    requires
        i <= s@.len(),
    ensures
        r as int == spec_group_sketch(s@, i as int, kw@),
        r <= s@.len(),
    decreases s@.len() - i,
{
    proof {
        reveal(spec_group_sketch);
    }
    match parse_literal(s, i) {
        Err(u) => i,
        Ok((l, p)) => {
            let c2 = skip_ws(s, p);
            let c3 = match seq_nocase(s, c2, kw) {
                Ok(k) => skip_ws(s, k),
                Err(u) => c2,
            };
            group_sketch(s, c3, kw)
        },
    }
}

/// A negation, exec side.
fn parse_not(s: &[u8], i: usize) -> (r: Result<(Expression, usize), usize>)
    requires
        i <= s@.len(),
    ensures
        (match r {
            Ok((e1, e)) => spec_parse_not(s@, i as int) == Ok::<(SpecExpression, int), int>(
                (e1.deep_view(), e as int),
            ) && i < e <= s@.len(),
            Err(p) => spec_parse_not(s@, i as int) == Err::<(SpecExpression, int), int>(p as int)
                && p <= s@.len(),
        }),
    decreases s@.len() - i, 2int,
{
    if !(i < s.len() && s[i] == 33) {
        return Err(if i < s.len() {
            i
        } else {
            s.len()
        });
    }
    let j = skip_ws(s, i + 1);
    if !(j < s.len() && s[j] == 40) {
        return Err(j);
    }
    let j2 = skip_ws(s, j + 1);
    match parse_expression(s, j2) {
        Err(e) => Err(e),
        Ok((e1, p)) => {
            let c = skip_ws(s, p);
            if c < s.len() && s[c] == 41 {
                Ok((e1, c + 1))
            } else {
                Err(c)
            }
        },
    }
}

/// An expression, exec side.
fn parse_expression(s: &[u8], i: usize) -> (r: Result<(Expression, usize), usize>)
    requires
        i <= s@.len(),
    ensures
        (match r {
            Ok((e1, e)) => spec_parse_expression(s@, i as int) == Ok::<(SpecExpression, int), int>(
                (e1.deep_view(), e as int),
            ) && i < e <= s@.len(),
            Err(p) => spec_parse_expression(s@, i as int) == Err::<(SpecExpression, int), int>(
                p as int,
            ) && p <= s@.len(),
        }),
    decreases s@.len() - i, 3int,
{
    let e1 = match parse_group(s, i, &[97, 110, 100]) {
        Ok((subs, p)) => {
            return Ok((Expression::And(And::new(subs)), p));
        },
        Err(p) => p,
    };
    let e2 = match parse_group(s, i, &[111, 114]) {
        Ok((subs, p)) => {
            return Ok((Expression::Or(Or::new(subs)), p));
        },
        Err(p) => p,
    };
    let e3 = match parse_not(s, i) {
        Ok((inner, p)) => {
            return Ok((Expression::Not(Not::new(inner)), p));
        },
        Err(p) => p,
    };
    let e4 = match parse_operation(s, i) {
        Ok((op, p)) => {
            return Ok((Expression::Operation(op), p));
        },
        Err(p) => p,
    };
    Err(pmax_x(pmax_x(e1, e2), pmax_x(e3, e4)))
}

// --- entry point --------------------------------------------------------

/// The result a whole input denotes: leading and trailing whitespace
/// allowed, nothing else before or after the expression.
pub open spec fn spec_parse(s: Seq<u8>) -> Result<SpecExpression, int> {
    let i0 = spec_skip_ws(s, 0);
    match spec_parse_expression(s, i0) {
        Err(e) => Err(e),
        Ok((e1, p)) => {
            let p2 = spec_skip_ws(s, p);
            if p2 == s.len() {
                Ok(e1)
            } else {
                Err(perr(s, p2))
            }
        },
    }
}

/// A parse failure: a human-readable reason and the byte position of
/// the furthest point the parser reached.
#[derive(Debug)]
pub struct ParseError {
    pub message: String,
    pub position: usize,
}

/// The expression parser.
#[derive(Debug)]
pub struct ExpressionParser;

impl ExpressionParser {
    /// Parses a whole input into an expression tree. On failure the
    /// error's position lies within `[0, len]` of the input's bytes.
    pub fn parse(input: &str) -> (r: Result<Expression, ParseError>)
        ensures
            (match r {
                Ok(expr) => spec_parse(input.spec_bytes()) == Ok::<SpecExpression, int>(
                    expr.deep_view(),
                ),
                Err(pe) => spec_parse(input.spec_bytes()) == Err::<SpecExpression, int>(
                    pe.position as int,
                ) && pe.position <= input.spec_bytes().len(),
            }),
    {
        Self::parse_bytes(input.as_bytes())
    }

    /// Parses a whole byte input into an expression tree.
    pub fn parse_bytes(input: &[u8]) -> (r: Result<Expression, ParseError>)
        ensures
            (match r {
                Ok(expr) => spec_parse(input@) == Ok::<SpecExpression, int>(expr.deep_view()),
                Err(pe) => spec_parse(input@) == Err::<SpecExpression, int>(pe.position as int)
                    && pe.position <= input@.len(),
            }),
    {
        let i0 = skip_ws(input, 0);
        match parse_expression(input, i0) {
            Err(p) => Err(
                ParseError {
                    message: String::from_str("expected an expression here"),
                    position: p,
                },
            ),
            Ok((expr, p)) => {
                let p2 = skip_ws(input, p);
                if p2 == input.len() {
                    Ok(expr)
                } else {
                    Err(
                        ParseError {
                            message: String::from_str("expected the input to end here"),
                            position: p2,
                        },
                    )
                }
            },
        }
    }
}

} // verus!
