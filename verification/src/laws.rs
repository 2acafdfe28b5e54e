//! Laws of the engine, stated and proved over the same spec functions
//! that the public contracts use.

use vstd::prelude::*;

use crate::engine::{
    spec_execute, spec_execute_and, spec_execute_operation, spec_execute_or, spec_extract,
    spec_literal_type, spec_validate, spec_validate_operation, spec_validate_seq,
    SpecExecutionError,
};
use crate::expression::{Operator, SpecExpression, SpecLiteral, SpecOperation};
use crate::parser::{
    hex_val, is_escape_code, is_field_byte, is_field_start, is_hex_byte, is_ws, kw_and,
    kw_false, kw_null, kw_or, kw_true, spec_match_kw, spec_parse, spec_parse_group,
    spec_parse_literal, spec_parse_not, spec_parse_operation, spec_parse_operator,
    spec_parse_raw_body, spec_parse_regex_body, spec_parse_string_body, spec_scan_field_rest,
    spec_skip_ws, unescape,
};
use crate::number::{is_digit_byte, spec_is_number_token, spec_scan_digits, spec_scan_number};
use crate::schema::{spec_value_type, SpecValue, Type};
use crate::serialize::{
    spec_bool_text, spec_escape_byte, spec_escape_regex, spec_escape_string, spec_hex_byte,
    spec_hex_digit, spec_hex_pairs, spec_null_text, spec_operator_bytes, spec_quote_string,
    spec_raw_text, spec_regex_text, spec_serialize_literal, spec_serialize_operation,
};
use crate::datetime::{datetime_micros_of, datetime_text_of, spec_is_datetime_token};
use crate::number::{number_bits_of, spec_number_text};

verus! {

/// A target's extraction conforms to a schema: every value yielded for a
/// registered field path has the field's declared type, or is null.
/// This is the extraction contract a well-behaved [`crate::schema::SchemaTarget`]
/// upholds.
pub open spec fn spec_target_conforms(
    schema: Map<Seq<u8>, Type>,
    vals: Map<Seq<u8>, Option<SpecValue>>,
) -> bool {
    forall|p: Seq<u8>|
        #[trigger] schema.contains_key(p) ==> (match vals[p] {
            Some(v) => spec_value_type(v) == schema[p] || v is Null,
            None => true,
        })
}

/// Validator soundness: if validation of an expression succeeds, then
/// executing it against any conforming target never reports an invalid
/// operator. (It may still report an invalid date range, or an invalid
/// regex pattern, which validation cannot see.)
pub proof fn lemma_validate_sound(
    schema: Map<Seq<u8>, Type>,
    vals: Map<Seq<u8>, Option<SpecValue>>,
    e: SpecExpression,
)
    requires
        spec_validate(schema, e) is Ok,
        spec_target_conforms(schema, vals),
    ensures
        !(spec_execute(schema, vals, e) matches Err(SpecExecutionError::InvalidOperatorError(_))),
    decreases e,
{
    match e {
        SpecExpression::And(subs) => {
            lemma_validate_sound_and(schema, vals, subs);
        },
        SpecExpression::Or(subs) => {
            lemma_validate_sound_or(schema, vals, subs);
        },
        SpecExpression::Not(inner) => {
            lemma_validate_sound(schema, vals, *inner);
        },
        SpecExpression::Operation(op) => {
            lemma_validate_sound_operation(schema, vals, op);
        },
    }
}

/// Soundness for a conjunction's children.
proof fn lemma_validate_sound_and(
    schema: Map<Seq<u8>, Type>,
    vals: Map<Seq<u8>, Option<SpecValue>>,
    subs: Seq<SpecExpression>,
)
    requires
        spec_validate_seq(schema, subs) is Ok,
        spec_target_conforms(schema, vals),
    ensures
        !(spec_execute_and(schema, vals, subs) matches Err(
            SpecExecutionError::InvalidOperatorError(_),
        )),
    decreases subs,
{
    if subs.len() > 0 {
        lemma_validate_sound(schema, vals, subs.first());
        lemma_validate_sound_and(schema, vals, subs.drop_first());
    }
}

/// Soundness for a disjunction's children.
proof fn lemma_validate_sound_or(
    schema: Map<Seq<u8>, Type>,
    vals: Map<Seq<u8>, Option<SpecValue>>,
    subs: Seq<SpecExpression>,
)
    requires
        spec_validate_seq(schema, subs) is Ok,
        spec_target_conforms(schema, vals),
    ensures
        !(spec_execute_or(schema, vals, subs) matches Err(
            SpecExecutionError::InvalidOperatorError(_),
        )),
    decreases subs,
{
    if subs.len() > 0 {
        lemma_validate_sound(schema, vals, subs.first());
        lemma_validate_sound_or(schema, vals, subs.drop_first());
    }
}

/// Soundness for one operation: the extracted value of a literal either
/// is null or carries the type validation computed for it, and the
/// dispatch table only rejects combinations the compatibility table
/// rejects too.
proof fn lemma_validate_sound_operation(
    schema: Map<Seq<u8>, Type>,
    vals: Map<Seq<u8>, Option<SpecValue>>,
    op: SpecOperation,
)
    requires
        spec_validate_operation(schema, op) is Ok,
        spec_target_conforms(schema, vals),
    ensures
        !(spec_execute_operation(schema, vals, op) matches Err(
            SpecExecutionError::InvalidOperatorError(_),
        )),
{
    lemma_extract_typed(schema, vals, op.lhs);
    lemma_extract_typed(schema, vals, op.rhs);
}

/// What extraction yields for a literal whose type resolution succeeded:
/// a value of the resolved type, or null.
proof fn lemma_extract_typed(
    schema: Map<Seq<u8>, Type>,
    vals: Map<Seq<u8>, Option<SpecValue>>,
    lit: SpecLiteral,
)
    requires
        spec_literal_type(schema, lit) is Ok,
        spec_target_conforms(schema, vals),
    ensures
        spec_extract(schema, vals, lit) is Ok,
        (match (spec_extract(schema, vals, lit), spec_literal_type(schema, lit)) {
            (Ok(v), Ok(t)) => spec_value_type(v) == t || v is Null,
            _ => false,
        }),
{
}

/// Null symmetry for equality: `v == null` and `null == v` agree for
/// every value `v` — both true exactly when `v` is null itself.
pub proof fn lemma_null_symmetry_eq(
    schema: Map<Seq<u8>, Type>,
    vals: Map<Seq<u8>, Option<SpecValue>>,
    v: SpecValue,
)
    ensures
        spec_execute_operation(
            schema,
            vals,
            SpecOperation {
                lhs: SpecLiteral::Value(v),
                op: Operator::Eq,
                rhs: SpecLiteral::Value(SpecValue::Null),
            },
        ) == Ok::<bool, SpecExecutionError>(v is Null),
        spec_execute_operation(
            schema,
            vals,
            SpecOperation {
                lhs: SpecLiteral::Value(SpecValue::Null),
                op: Operator::Eq,
                rhs: SpecLiteral::Value(v),
            },
        ) == Ok::<bool, SpecExecutionError>(v is Null),
{
}

/// Null symmetry for inequality: `v != null` and `null != v` agree for
/// every value `v` — both true exactly when `v` is not null (two nulls
/// compare unequal under `Ne` by design).
pub proof fn lemma_null_symmetry_ne(
    schema: Map<Seq<u8>, Type>,
    vals: Map<Seq<u8>, Option<SpecValue>>,
    v: SpecValue,
)
    ensures
        spec_execute_operation(
            schema,
            vals,
            SpecOperation {
                lhs: SpecLiteral::Value(v),
                op: Operator::Ne,
                rhs: SpecLiteral::Value(SpecValue::Null),
            },
        ) == Ok::<bool, SpecExecutionError>(!(v is Null)),
        spec_execute_operation(
            schema,
            vals,
            SpecOperation {
                lhs: SpecLiteral::Value(SpecValue::Null),
                op: Operator::Ne,
                rhs: SpecLiteral::Value(v),
            },
        ) == Ok::<bool, SpecExecutionError>(!(v is Null)),
{
}

/// Double negation: executing `!(!(e))` gives exactly what executing `e`
/// gives, result or error.
pub proof fn lemma_double_negation(
    schema: Map<Seq<u8>, Type>,
    vals: Map<Seq<u8>, Option<SpecValue>>,
    e: SpecExpression,
)
    ensures
        spec_execute(
            schema,
            vals,
            SpecExpression::Not(Box::new(SpecExpression::Not(Box::new(e)))),
        ) == spec_execute(schema, vals, e),
{
    reveal_with_fuel(spec_execute, 3);
}

/// A one-element conjunction behaves as its single child.
pub proof fn lemma_singleton_and(
    schema: Map<Seq<u8>, Type>,
    vals: Map<Seq<u8>, Option<SpecValue>>,
    e: SpecExpression,
)
    ensures
        spec_execute(schema, vals, SpecExpression::And(seq![e])) == spec_execute(schema, vals, e),
{
    reveal_with_fuel(spec_execute_and, 2);
    assert(seq![e].first() == e);
    assert(seq![e].drop_first() =~= Seq::<SpecExpression>::empty());
    assert(spec_execute(schema, vals, SpecExpression::And(seq![e])) == spec_execute_and(
        schema,
        vals,
        seq![e],
    ));
}

/// A one-element disjunction behaves as its single child.
pub proof fn lemma_singleton_or(
    schema: Map<Seq<u8>, Type>,
    vals: Map<Seq<u8>, Option<SpecValue>>,
    e: SpecExpression,
)
    ensures
        spec_execute(schema, vals, SpecExpression::Or(seq![e])) == spec_execute(schema, vals, e),
{
    reveal_with_fuel(spec_execute_or, 2);
    assert(seq![e].first() == e);
    assert(seq![e].drop_first() =~= Seq::<SpecExpression>::empty());
    assert(spec_execute(schema, vals, SpecExpression::Or(seq![e])) == spec_execute_or(
        schema,
        vals,
        seq![e],
    ));
}

/// Execution is repeatable: an engine and a target are never changed by
/// `execute`, whose contract pins its result to `spec_execute` of the
/// same schema, values and expression — so two runs agree.
pub proof fn lemma_execute_repeatable(
    schema: Map<Seq<u8>, Type>,
    vals: Map<Seq<u8>, Option<SpecValue>>,
    e: SpecExpression,
    r1: Result<bool, SpecExecutionError>,
    r2: Result<bool, SpecExecutionError>,
)
    requires
        r1 == spec_execute(schema, vals, e),
        r2 == spec_execute(schema, vals, e),
    ensures
        r1 == r2,
{
}

/// Token-level round trip for operators: the canonical token of an
/// operator, followed by anything that does not begin with `=`, parses
/// back to the same operator. (The serializer always follows an
/// operator with a space.)
pub proof fn lemma_operator_token_round_trip(buf: Seq<u8>, i: int, op: Operator, suffix: Seq<u8>)
    requires
        0 <= i <= buf.len(),
        buf.subrange(i, buf.len() as int) == spec_operator_bytes(op) + suffix,
        suffix.len() > 0,
        suffix[0] != 61,
    ensures
        spec_parse_operator(buf, i) == Ok::<(Operator, int), int>(
            (op, i + spec_operator_bytes(op).len()),
        ),
{
    reveal_with_fuel(spec_match_kw, 4);
    let tail = buf.subrange(i, buf.len() as int);
    assert(tail.len() == buf.len() - i);
    assert forall|x: int| 0 <= x < tail.len() implies buf[i + x] == tail[x] by {}
    assert(buf[i] == tail[0]);
    assert(buf[i] == spec_operator_bytes(op)[0]);
    assert(buf[i + 1] == tail[1]);
    if spec_operator_bytes(op).len() > 1 {
        assert(buf[i + 1] == spec_operator_bytes(op)[1]);
    } else {
        assert(buf[i + 1] == suffix[0]);
    }
}

/// Token-level round trip for the boolean keywords: `true` and `false`
/// parse back to the same boolean, whatever follows.
/// A keyword matches where the buffer carries it byte for byte, up to
/// case.
proof fn lemma_kw_matches(buf: Seq<u8>, i: int, kw: Seq<u8>)
    requires
        0 <= i,
        i + kw.len() <= buf.len(),
        forall|x: int| 0 <= x < kw.len() ==> crate::parser::to_lower(buf[i + x]) == #[trigger] kw[x],
    ensures
        spec_match_kw(buf, i, kw) == Ok::<int, int>(i + kw.len()),
    decreases kw.len(),
{
    if kw.len() > 0 {
        assert(crate::parser::to_lower(buf[i + 0]) == kw[0]);
        let kw2 = kw.drop_first();
        assert forall|x: int| 0 <= x < kw2.len() implies crate::parser::to_lower(buf[i + 1 + x])
            == #[trigger] kw2[x] by {
            assert(kw2[x] == kw[x + 1]);
            assert(crate::parser::to_lower(buf[i + (x + 1)]) == kw[x + 1]);
        }
        lemma_kw_matches(buf, i + 1, kw2);
    }
}

pub proof fn lemma_boolean_token_round_trip(buf: Seq<u8>, i: int, b: bool, suffix: Seq<u8>)
    requires
        0 <= i <= buf.len(),
        buf.subrange(i, buf.len() as int) == spec_bool_text(b) + suffix,
    ensures
        spec_parse_literal(buf, i) == Ok::<(SpecLiteral, int), int>(
            (SpecLiteral::Value(SpecValue::Boolean(b)), i + spec_bool_text(b).len()),
        ),
{
    reveal_with_fuel(spec_match_kw, 2);
    let text = spec_bool_text(b);
    let tail = buf.subrange(i, buf.len() as int);
    assert forall|x: int| 0 <= x < tail.len() implies buf[i + x] == tail[x] by {}
    assert(i < buf.len());
    assert(buf[i] == tail[0]);
    if b {
        assert(crate::parser::to_lower(buf[i]) == 116u8);
        assert forall|x: int| 0 <= x < kw_true().len() implies crate::parser::to_lower(
            buf[i + x],
        ) == #[trigger] kw_true()[x] by {
            assert(tail[x] == text[x]);
        }
        lemma_kw_matches(buf, i, kw_true());
    } else {
        assert(crate::parser::to_lower(buf[i]) == 102u8);
        assert forall|x: int| 0 <= x < kw_false().len() implies crate::parser::to_lower(
            buf[i + x],
        ) == #[trigger] kw_false()[x] by {
            assert(tail[x] == text[x]);
        }
        lemma_kw_matches(buf, i, kw_false());
    }
}

/// Token-level round trip for the null keyword: `null` parses back to
/// the null value, whatever follows.
pub proof fn lemma_null_token_round_trip(buf: Seq<u8>, i: int, suffix: Seq<u8>)
    requires
        0 <= i <= buf.len(),
        buf.subrange(i, buf.len() as int) == spec_null_text() + suffix,
    ensures
        spec_parse_literal(buf, i) == Ok::<(SpecLiteral, int), int>(
            (SpecLiteral::Value(SpecValue::Null), i + spec_null_text().len()),
        ),
{
    let text = spec_null_text();
    let tail = buf.subrange(i, buf.len() as int);
    assert forall|x: int| 0 <= x < tail.len() implies buf[i + x] == tail[x] by {}
    assert forall|x: int| 0 <= x < kw_null().len() implies crate::parser::to_lower(buf[i + x])
        == #[trigger] kw_null()[x] by {
        assert(tail[x] == text[x]);
    }
    lemma_kw_matches(buf, i, kw_null());
}

/// A run of field-path bytes scans to its end when what follows is not
/// a field-path byte.
proof fn lemma_scan_field_extent(buf: Seq<u8>, k: int, end: int)
    requires
        0 <= k <= end <= buf.len(),
        forall|j: int| k <= j < end ==> is_field_byte(#[trigger] buf[j]),
        end < buf.len() ==> !is_field_byte(buf[end]),
    ensures
        spec_scan_field_rest(buf, k) == end,
    decreases end - k,
{
    if k < end {
        lemma_scan_field_extent(buf, k + 1, end);
    }
}

/// Token-level round trip for field references: a well-formed field
/// path that does not begin with one of the reserved keywords parses
/// back to the same field reference, when what follows cannot extend
/// the path. (The serializer always follows a field path with a space.)
/// The keyword does not match where some byte within reach differs, or
/// the buffer ends first.
proof fn lemma_kw_mismatch(buf: Seq<u8>, i: int, kw: Seq<u8>, x: int)
    requires
        0 <= i,
        0 <= x < kw.len(),
        i + x >= buf.len() || crate::parser::to_lower(buf[i + x]) != kw[x],
    ensures
        spec_match_kw(buf, i, kw) is Err,
    decreases x,
{
    if x > 0 {
        if 0 <= i < buf.len() && crate::parser::to_lower(buf[i]) == kw.first() {
            assert(kw.drop_first()[x - 1] == kw[x]);
            lemma_kw_mismatch(buf, i + 1, kw.drop_first(), x - 1);
        }
    }
}

/// The keyword is a case-insensitive prefix of the text.
pub open spec fn spec_kw_prefix(name: Seq<u8>, kw: Seq<u8>) -> bool {
    kw.len() <= name.len() && forall|x: int|
        0 <= x < kw.len() ==> crate::parser::to_lower(name[x]) == #[trigger] kw[x]
}

/// A reserved keyword fails to match against a field path that does not
/// begin with it, when what follows the path is not a field-path byte.
proof fn lemma_kw_misses_field(
    buf: Seq<u8>,
    i: int,
    name: Seq<u8>,
    suffix: Seq<u8>,
    kw: Seq<u8>,
)
    requires
        0 <= i <= buf.len(),
        buf.subrange(i, buf.len() as int) == name + suffix,
        !spec_kw_prefix(name, kw),
        kw.len() > 0,
        forall|x: int| 0 <= x < kw.len() ==> 97 <= #[trigger] kw[x] <= 122,
        suffix.len() == 0 || !is_field_byte(suffix[0]),
    ensures
        spec_match_kw(buf, i, kw) is Err,
{
    let tail = buf.subrange(i, buf.len() as int);
    assert forall|x: int| 0 <= x < tail.len() implies buf[i + x] == tail[x] by {}
    if kw.len() <= name.len() {
        let x = choose|x: int|
            0 <= x < kw.len() && crate::parser::to_lower(name[x]) != #[trigger] kw[x];
        assert(buf[i + x] == tail[x]);
        assert(tail[x] == name[x]);
        lemma_kw_mismatch(buf, i, kw, x);
    } else {
        let x = name.len() as int;
        if i + x < buf.len() {
            assert(buf[i + x] == tail[x]);
            assert(tail[x] == suffix[0]);
            assert(!is_field_byte(suffix[0]));
            assert(crate::parser::to_lower(suffix[0]) != kw[x]) by {
                if 65 <= suffix[0] <= 90 || 97 <= suffix[0] <= 122 {
                    assert(is_field_byte(suffix[0]));
                }
            }
        }
        lemma_kw_mismatch(buf, i, kw, x);
    }
}

/// Token-level round trip for field references: a well-formed field
/// path that does not begin with one of the reserved keywords parses
/// back to the same field reference, when what follows cannot extend
/// the path. (The serializer always follows a field path with a space.)
#[verifier::rlimit(100)]
#[verifier::spinoff_prover]
pub proof fn lemma_field_token_round_trip(buf: Seq<u8>, i: int, name: Seq<u8>, suffix: Seq<u8>)
    requires
        0 <= i <= buf.len(),
        buf.subrange(i, buf.len() as int) == name + suffix,
        name.len() > 0,
        is_field_start(name[0]),
        forall|j: int| 0 <= j < name.len() ==> is_field_byte(#[trigger] name[j]),
        suffix.len() == 0 || !is_field_byte(suffix[0]),
        !spec_kw_prefix(name, kw_null()),
        !spec_kw_prefix(name, kw_true()),
        !spec_kw_prefix(name, kw_false()),
    ensures
        spec_parse_literal(buf, i) == Ok::<(SpecLiteral, int), int>(
            (SpecLiteral::Field(name), i + name.len()),
        ),
{
    let tail = buf.subrange(i, buf.len() as int);
    assert forall|x: int| 0 <= x < tail.len() implies buf[i + x] == tail[x] by {}
    assert(buf[i] == tail[0]);
    assert(buf[i] == name[0]);
    assert(!crate::number::is_digit_byte(buf[i]));
    assert(!crate::datetime::all_digit_bytes(buf, i, i + 4));
    assert forall|x: int| 0 <= x < kw_null().len() implies 97 <= #[trigger] kw_null()[x]
        <= 122 by {}
    assert forall|x: int| 0 <= x < kw_true().len() implies 97 <= #[trigger] kw_true()[x]
        <= 122 by {}
    assert forall|x: int| 0 <= x < kw_false().len() implies 97 <= #[trigger] kw_false()[x]
        <= 122 by {}
    lemma_kw_misses_field(buf, i, name, suffix, kw_null());
    lemma_kw_misses_field(buf, i, name, suffix, kw_true());
    lemma_kw_misses_field(buf, i, name, suffix, kw_false());
    assert forall|j: int| i + 1 <= j < i + name.len() implies is_field_byte(
        #[trigger] buf[j],
    ) by {
        assert(buf[j] == tail[j - i]);
        assert(tail[j - i] == name[j - i]);
    }
    if suffix.len() > 0 {
        assert(buf[i + name.len()] == tail[name.len() as int]);
        assert(!is_field_byte(buf[i + name.len()]));
    }
    lemma_scan_field_extent(buf, i + 1, i + name.len());
    assert forall|x: int| 0 <= x < name.len() implies buf.subrange(i, i + name.len())[x]
        == name[x] by {
        assert(buf.subrange(i, i + name.len())[x] == buf[i + x]);
        assert(buf[i + x] == tail[x]);
    }
    assert(buf.subrange(i, i + name.len()) =~= name);
}

/// A digit run is unchanged by appending bytes after a non-digit.
proof fn lemma_scan_digits_extent(t: Seq<u8>, suffix: Seq<u8>, k: int)
    requires
        suffix.len() > 0,
        !is_digit_byte(suffix[0]),
        0 <= k <= t.len(),
    ensures
        spec_scan_digits(t + suffix, k) == spec_scan_digits(t, k),
    decreases t.len() - k,
{
    let buf = t + suffix;
    if k < t.len() {
        assert(buf[k] == t[k]);
        lemma_scan_digits_extent(t, suffix, k + 1);
    } else {
        assert(buf[k] == suffix[0]);
    }
}

/// A whole number token still scans to its own end when followed by a
/// byte that cannot extend it.
proof fn lemma_scan_number_extent(t: Seq<u8>, suffix: Seq<u8>)
    requires
        spec_scan_number(t, 0) == Some(t.len() as int),
        suffix.len() == 0 || (!is_digit_byte(suffix[0]) && suffix[0] != 46 && suffix[0] != 101
            && suffix[0] != 69 && suffix[0] != 43 && suffix[0] != 45),
    ensures
        spec_scan_number(t + suffix, 0) == Some(t.len() as int),
{
    if suffix.len() == 0 {
        assert(t + suffix =~= t);
    } else {
        lemma_scan_number_extent_nonempty(t, suffix);
    }
}

proof fn lemma_scan_number_extent_nonempty(t: Seq<u8>, suffix: Seq<u8>)
    requires
        spec_scan_number(t, 0) == Some(t.len() as int),
        suffix.len() > 0,
        !is_digit_byte(suffix[0]),
        suffix[0] != 46,
        suffix[0] != 101,
        suffix[0] != 69,
        suffix[0] != 43,
        suffix[0] != 45,
    ensures
        spec_scan_number(t + suffix, 0) == Some(t.len() as int),
{
    let buf = t + suffix;
    let n = t.len() as int;
    assert(t.len() > 0);
    assert forall|x: int| 0 <= x < n implies buf[x] == t[x] by {}
    assert forall|x: int| n <= x < buf.len() implies buf[x] == suffix[x - n] by {}
    let j: int = if t[0] == 45u8 {
        1
    } else {
        0
    };
    assert(j < n && is_digit_byte(t[j]));
    let k: int = if t[j] == 48u8 {
        j + 1
    } else {
        spec_scan_digits(t, j)
    };
    if t[j] != 48u8 {
        crate::number::lemma_scan_digits(t, j);
        lemma_scan_digits_extent(t, suffix, j);
    }
    assert(j <= k <= n);
    let k2: int = if k < n && t[k] == 46u8 && k + 1 < n && is_digit_byte(t[k + 1]) {
        spec_scan_digits(t, k + 1)
    } else {
        k
    };
    if k < n && t[k] == 46u8 && k + 1 < n && is_digit_byte(t[k + 1]) {
        crate::number::lemma_scan_digits(t, k + 1);
        lemma_scan_digits_extent(t, suffix, k + 1);
    }
    assert(k <= k2 <= n);
    // the fraction branch agrees between `t` and the extended buffer
    if k == n {
        assert(buf[k] == suffix[0] && suffix[0] != 46u8);
    } else if t[k] == 46u8 && k + 1 == n {
        assert(buf[k + 1] == suffix[0] && !is_digit_byte(suffix[0]));
    }
    // the exponent branch agrees as well
    if k2 == n {
        assert(buf[k2] == suffix[0] && suffix[0] != 101u8 && suffix[0] != 69u8);
    } else if t[k2] == 101u8 || t[k2] == 69u8 {
        let p: int = if k2 + 1 < n && (t[k2 + 1] == 43u8 || t[k2 + 1] == 45u8) {
            k2 + 2
        } else {
            k2 + 1
        };
        if k2 + 1 == n {
            assert(buf[k2 + 1] == suffix[0]);
        }
        if p < n && is_digit_byte(t[p]) {
            crate::number::lemma_scan_digits(t, p);
            lemma_scan_digits_extent(t, suffix, p);
        } else if p == n {
            assert(buf[p] == suffix[0] && !is_digit_byte(suffix[0]));
        }
    }
}

/// Token-level round trip for numbers: one whole number token parses
/// back to the number it denotes, when what follows cannot extend the
/// token. (The serializer always follows a number with a space, a
/// comma, a bracket or a parenthesis.)
#[verifier::rlimit(100)]
#[verifier::spinoff_prover]
pub proof fn lemma_number_token_round_trip(buf: Seq<u8>, i: int, text: Seq<u8>, suffix: Seq<u8>)
    requires
        0 <= i <= buf.len(),
        buf.subrange(i, buf.len() as int) == text + suffix,
        spec_is_number_token(text),
        suffix.len() == 0 || (!is_digit_byte(suffix[0]) && suffix[0] != 46 && suffix[0] != 101
            && suffix[0] != 69 && suffix[0] != 43 && suffix[0] != 45),
    ensures
        spec_parse_literal(buf, i) == Ok::<(SpecLiteral, int), int>(
            (
                SpecLiteral::Value(SpecValue::Number(crate::number::number_bits_of(text))),
                i + text.len(),
            ),
        ),
{
    reveal_with_fuel(spec_match_kw, 2);
    let tail = buf.subrange(i, buf.len() as int);
    let n = text.len() as int;
    assert(text.len() > 0);
    assert forall|x: int| 0 <= x < tail.len() implies buf[i + x] == tail[x] by {}
    assert(buf[i] == tail[0]);
    assert(buf[i] == text[0]);
    assert(text[0] == 45u8 || is_digit_byte(text[0]));
    // the keyword, string, regex, raw and list alternatives all fail on
    // the first byte
    assert(crate::parser::to_lower(buf[i]) == buf[i]);
    // the datetime alternative fails: a number token cannot look like
    // `dddd-` at its start
    assert(buf.skip(i) == tail);
    lemma_number_is_no_datetime(text, suffix);
    lemma_scan_datetime_shift(buf, i);
    // the number alternative itself succeeds
    lemma_scan_number_extent(text, suffix);
    lemma_scan_number_shift(buf, i);
    assert forall|x: int| 0 <= x < n implies buf.subrange(i, i + n)[x] == text[x] by {
        assert(buf.subrange(i, i + n)[x] == buf[i + x]);
        assert(buf[i + x] == tail[x]);
    }
    assert(buf.subrange(i, i + n) =~= text);
}

/// A number token followed by a non-extending byte never fits the
/// datetime shape: that would need four digits and then a dash.
proof fn lemma_number_is_no_datetime(text: Seq<u8>, suffix: Seq<u8>)
    requires
        spec_is_number_token(text),
        suffix.len() == 0 || (!is_digit_byte(suffix[0]) && suffix[0] != 45),
    ensures
        crate::datetime::spec_scan_datetime(text + suffix, 0) is None,
{
    let buf = text + suffix;
    let n = text.len() as int;
    assert(text.len() > 0);
    if buf.len() < 19 {
        // too short for the fixed date-and-time shape
    } else if text[0] == 45u8 {
        assert(buf[0] == text[0]);
        assert(!crate::datetime::all_digit_bytes(buf, 0, 4));
    } else {
        // the integer part is `0` alone or a maximal digit run
        let k: int = if text[0] == 48u8 {
            1
        } else {
            spec_scan_digits(text, 0)
        };
        if text[0] != 48u8 {
            crate::number::lemma_scan_digits(text, 0);
        }
        assert(1 <= k <= n);
        if k >= 5 {
            // a fifth digit sits where the datetime dash would be
            assert(is_digit_byte(buf[4]));
            assert(buf[4] != 45u8);
        } else if k == n {
            // the token is all digits and ends before the dash position
            if n >= 5 {
                assert(is_digit_byte(buf[4]));
                assert(buf[4] != 45u8);
            } else if n == 4 {
                assert(suffix.len() > 0);
                assert(buf[4] == suffix[0]);
                assert(buf[4] != 45u8);
            } else {
                assert(suffix.len() > 0);
                assert(buf[k] == suffix[0]);
                assert(!is_digit_byte(buf[k]));
                assert(!crate::datetime::all_digit_bytes(buf, 0, 4));
            }
        } else {
            // the integer part stops inside the token, at a dot or an
            // exponent mark, never at a dash or a digit
            assert(buf[k] == text[k]);
            if text[0] == 48u8 {
                // after a leading zero only `.`, `e` or `E` can follow
                // within the token
                assert(k == 1);
                if is_digit_byte(text[1]) {
                    // the scan would have ended the token right here
                    assert(spec_scan_number(text, 0) == Some(1int));
                    assert(false);
                }
            } else {
                assert(!is_digit_byte(text[k]));
            }
            if k < 4 {
                assert(!crate::datetime::all_digit_bytes(buf, 0, 4));
            } else if k == 4 {
                // the byte after four digits is a dot or an exponent
                // mark, not a dash
                lemma_number_byte_after_int(text, k);
                assert(buf[4] != 45u8);
            }
        }
    }
}

/// Inside a number token whose integer part ends at `k` within the
/// token, the byte at `k` is a dot or an exponent mark.
proof fn lemma_number_byte_after_int(text: Seq<u8>, k: int)
    requires
        spec_is_number_token(text),
        0 < k < text.len(),
        text[0] != 45,
        k == (if text[0] == 48u8 {
            1int
        } else {
            spec_scan_digits(text, 0)
        }),
    ensures
        text[k] == 46 || text[k] == 101 || text[k] == 69,
{
    let n = text.len() as int;
    if text[0] != 48u8 {
        crate::number::lemma_scan_digits(text, 0);
    }
    if !(text[k] == 46 || text[k] == 101 || text[k] == 69) {
        // neither fraction nor exponent could start here, so the scan
        // would have ended the token at `k`
        assert(spec_scan_number(text, 0) == Some(k));
        assert(false);
    }
}

/// The escaped form of a string decomposes at the front as well.
proof fn lemma_escape_front(s: Seq<u8>)
    requires
        s.len() > 0,
    ensures
        spec_escape_string(s) == spec_escape_byte(s.first()) + spec_escape_string(s.drop_first()),
    decreases s.len(),
{
    if s.len() == 1 {
        assert(s.drop_last() =~= Seq::<u8>::empty());
        assert(s.drop_first() =~= Seq::<u8>::empty());
        assert(s.first() == s.last());
        assert(spec_escape_string(Seq::<u8>::empty()) =~= Seq::<u8>::empty());
        assert(spec_escape_byte(s.first()) + spec_escape_string(s.drop_first())
            =~= spec_escape_byte(s.last()));
        assert(spec_escape_string(s) =~= spec_escape_byte(s.last()));
    } else {
        let dl = s.drop_last();
        lemma_escape_front(dl);
        assert(dl.first() == s.first());
        assert(dl.drop_first() =~= s.drop_first().drop_last());
        assert(s.drop_first().last() == s.last());
        assert(spec_escape_string(s) == spec_escape_string(dl) + spec_escape_byte(s.last()));
        assert(spec_escape_string(s.drop_first()) == spec_escape_string(s.drop_first().drop_last())
            + spec_escape_byte(s.last()));
        assert(spec_escape_string(s) =~= spec_escape_byte(s.first()) + spec_escape_string(
            s.drop_first(),
        ));
    }
}

/// A string body whose remaining bytes are an escaped string, the
/// closing quote and then anything parses to that string.
proof fn lemma_string_body_parses(buf: Seq<u8>, i: int, s: Seq<u8>, rest: Seq<u8>)
    requires
        0 <= i <= buf.len(),
        buf.subrange(i, buf.len() as int) == spec_escape_string(s) + seq![34u8] + rest,
    ensures
        spec_parse_string_body(buf, i) == Ok::<(Seq<u8>, int), int>(
            (s, i + spec_escape_string(s).len() + 1),
        ),
    decreases s.len(),
{
    let tail = buf.subrange(i, buf.len() as int);
    assert(tail.len() == buf.len() - i);
    assert forall|x: int| 0 <= x < tail.len() implies buf[i + x] == tail[x] by {}
    if s.len() == 0 {
        assert(spec_escape_string(s) =~= Seq::<u8>::empty());
        assert(s =~= Seq::<u8>::empty());
        assert(i < buf.len());
        assert(tail[0] == 34u8);
        assert(buf[i] == tail[0]);
    } else {
        lemma_escape_front(s);
        let c = s.first();
        let eb = spec_escape_byte(c);
        assert(tail =~= eb + (spec_escape_string(s.drop_first()) + seq![34u8] + rest));
        assert forall|x: int| 0 <= x < eb.len() implies buf[i + x] == eb[x] by {
            assert(tail[x] == eb[x]);
        }
        let i2 = i + eb.len();
        assert forall|x: int| 0 <= x < buf.len() - i2 implies buf.subrange(
            i2,
            buf.len() as int,
        )[x] == (spec_escape_string(s.drop_first()) + seq![34u8] + rest)[x] by {
            assert(buf.subrange(i2, buf.len() as int)[x] == buf[i2 + x]);
            assert(buf[i2 + x] == tail[eb.len() + x]);
        }
        assert(buf.subrange(i2, buf.len() as int) =~= spec_escape_string(s.drop_first()) + seq![
            34u8,
        ] + rest);
        lemma_string_body_parses(buf, i2, s.drop_first(), rest);
        if c == 34 || c == 92 || c == 8 || c == 12 || c == 10 || c == 13 || c == 9 {
            assert(i + 1 < buf.len());
            assert(buf[i] == tail[0]);
            assert(buf[i + 1] == tail[1]);
            assert(eb.len() == 2 && eb[0] == 92u8 && is_escape_code(eb[1]) && unescape(eb[1])
                == c);
            assert(seq![c] + s.drop_first() =~= s);
        } else {
            assert(eb =~= seq![c]);
            assert(i < buf.len());
            assert(buf[i] == tail[0]);
            assert(tail[0] == eb[0]);
            assert(buf[i] == c && c != 34u8 && c != 92u8);
            assert(seq![c] + s.drop_first() =~= s);
        }
    }
}

/// Token-level round trip for strings: a quoted, escaped string parses
/// back to the same bytes, whatever follows the closing quote.
#[verifier::rlimit(100)]
#[verifier::spinoff_prover]
pub proof fn lemma_string_token_round_trip(buf: Seq<u8>, i: int, content: Seq<u8>, suffix: Seq<u8>)
    requires
        0 <= i <= buf.len(),
        buf.subrange(i, buf.len() as int) == spec_quote_string(content) + suffix,
    ensures
        spec_parse_literal(buf, i) == Ok::<(SpecLiteral, int), int>(
            (
                SpecLiteral::Value(SpecValue::String(content)),
                i + spec_quote_string(content).len(),
            ),
        ),
{
    reveal_with_fuel(spec_match_kw, 2);
    let tail = buf.subrange(i, buf.len() as int);
    assert(tail.len() == buf.len() - i);
    assert(buf.len() - i == spec_quote_string(content).len() + suffix.len());
    assert forall|x: int| 0 <= x < tail.len() implies buf[i + x] == tail[x] by {}
    assert(tail =~= seq![34u8] + (spec_escape_string(content) + seq![34u8] + suffix));
    assert(i < buf.len());
    assert(buf[i] == tail[0]);
    assert(buf[i] == 34u8);
    assert(crate::parser::to_lower(buf[i]) == buf[i]);
    assert forall|x: int| 0 <= x < buf.len() - (i + 1) implies buf.subrange(
        i + 1,
        buf.len() as int,
    )[x] == (spec_escape_string(content) + seq![34u8] + suffix)[x] by {
        assert(buf.subrange(i + 1, buf.len() as int)[x] == buf[i + 1 + x]);
        assert(buf[i + (1 + x)] == tail[1 + x]);
        assert(tail[1 + x] == (spec_escape_string(content) + seq![34u8] + suffix)[x]);
    }
    assert(buf.subrange(i + 1, buf.len() as int) =~= spec_escape_string(content) + seq![34u8]
        + suffix);
    lemma_string_body_parses(buf, i + 1, content, suffix);
}

/// Token-level round trip for datetimes: one whole datetime token that
/// names an instant parses back to that instant, when what follows is
/// not a digit. (The serializer always follows a datetime with a space,
/// a comma, a bracket or a parenthesis.)
proof fn lemma_datetime_scan_extent(text: Seq<u8>, suffix: Seq<u8>)
    requires
        crate::datetime::spec_is_datetime_token(text),
        suffix.len() == 0 || !is_digit_byte(suffix[0]),
    ensures
        crate::datetime::spec_scan_datetime(text + suffix, 0) == Some(text.len() as int),
{
    if suffix.len() == 0 {
        assert(text + suffix =~= text);
    } else {
        lemma_datetime_scan_extent_nonempty(text, suffix);
    }
}

proof fn lemma_datetime_scan_extent_nonempty(text: Seq<u8>, suffix: Seq<u8>)
    requires
        crate::datetime::spec_is_datetime_token(text),
        suffix.len() > 0,
        !is_digit_byte(suffix[0]),
    ensures
        crate::datetime::spec_scan_datetime(text + suffix, 0) == Some(text.len() as int),
{
    let buf = text + suffix;
    let n = text.len() as int;
    assert(n >= 20);
    assert forall|x: int| 0 <= x < n implies buf[x] == text[x] by {}
    assert(crate::datetime::all_digit_bytes(buf, 0, 4));
    assert(crate::datetime::all_digit_bytes(buf, 5, 7));
    assert(crate::datetime::all_digit_bytes(buf, 8, 10));
    assert(crate::datetime::all_digit_bytes(buf, 11, 13));
    assert(crate::datetime::all_digit_bytes(buf, 14, 16));
    assert(crate::datetime::all_digit_bytes(buf, 17, 19));
    if 19 < n && text[19] == 46u8 && 20 < n && is_digit_byte(text[20]) {
        lemma_scan_digits_extent(text, suffix, 20);
    }
    let k2: int = if 19 < n && text[19] == 46u8 && 20 < n && is_digit_byte(text[20]) {
        let d = spec_scan_digits(text, 20);
        if d > 25 {
            25
        } else {
            d
        }
    } else {
        19
    };
    assert(crate::datetime::spec_scan_datetime(buf, 0) == Some(n)) by {
        if k2 < n && text[k2] == 90u8 {
        } else {
            assert(crate::datetime::all_digit_bytes(buf, k2 + 1, k2 + 3));
            assert(crate::datetime::all_digit_bytes(buf, k2 + 4, k2 + 6));
        }
    }
}

#[verifier::rlimit(100)]
#[verifier::spinoff_prover]
pub proof fn lemma_datetime_token_round_trip(
    buf: Seq<u8>,
    i: int,
    text: Seq<u8>,
    m: i64,
    suffix: Seq<u8>,
)
    requires
        0 <= i <= buf.len(),
        buf.subrange(i, buf.len() as int) == text + suffix,
        crate::datetime::spec_is_datetime_token(text),
        crate::datetime::datetime_micros_of(text) == Some(m),
        suffix.len() == 0 || !is_digit_byte(suffix[0]),
    ensures
        spec_parse_literal(buf, i) == Ok::<(SpecLiteral, int), int>(
            (SpecLiteral::Value(SpecValue::DateTime(m)), i + text.len()),
        ),
{
    reveal_with_fuel(spec_match_kw, 2);
    let tail = buf.subrange(i, buf.len() as int);
    let n = text.len() as int;
    assert(n >= 20);
    assert forall|x: int| 0 <= x < tail.len() implies buf[i + x] == tail[x] by {}
    assert(buf[i] == tail[0]);
    assert(is_digit_byte(buf[i]));
    assert(crate::parser::to_lower(buf[i]) == buf[i]);
    assert(buf.skip(i) == tail);
    lemma_datetime_scan_extent(text, suffix);
    lemma_scan_datetime_shift(buf, i);
    assert forall|x: int| 0 <= x < n implies buf.subrange(i, i + n)[x] == text[x] by {
        assert(buf.subrange(i, i + n)[x] == buf[i + x]);
        assert(buf[i + x] == tail[x]);
    }
    assert(buf.subrange(i, i + n) =~= text);
}

/// The hex-pair text of a byte string decomposes at the front as well.
proof fn lemma_hex_pairs_front(s: Seq<u8>)
    requires
        s.len() >= 2,
    ensures
        spec_hex_pairs(s) == spec_hex_byte(s.first()) + seq![32u8] + spec_hex_pairs(
            s.drop_first(),
        ),
    decreases s.len(),
{
    if s.len() == 2 {
        assert(s.drop_last().first() == s.first());
        assert(s.drop_last() =~= seq![s.first()]);
        assert(spec_hex_pairs(seq![s.first()]) == spec_hex_byte(s.first()));
        assert(s.drop_first() =~= seq![s.last()]);
        assert(spec_hex_pairs(s) =~= spec_hex_byte(s.first()) + seq![32u8] + spec_hex_pairs(
            s.drop_first(),
        ));
    } else {
        let dl = s.drop_last();
        lemma_hex_pairs_front(dl);
        assert(dl.first() == s.first());
        assert(dl.drop_first() =~= s.drop_first().drop_last());
        assert(s.drop_first().last() == s.last());
        assert(spec_hex_pairs(s) =~= spec_hex_byte(s.first()) + seq![32u8] + spec_hex_pairs(
            s.drop_first(),
        ));
    }
}

/// A raw body whose remaining bytes are space-joined hex pairs, a bar
/// and then anything parses to the bytes the pairs spell.
proof fn lemma_raw_body_parses(buf: Seq<u8>, i: int, s: Seq<u8>, rest: Seq<u8>)
    requires
        0 <= i <= buf.len(),
        s.len() >= 1,
        buf.subrange(i, buf.len() as int) == spec_hex_pairs(s) + seq![124u8] + rest,
    ensures
        spec_parse_raw_body(buf, i) == Ok::<(Seq<u8>, int), int>(
            (s, i + spec_hex_pairs(s).len()),
        ),
    decreases s.len(),
{
    let tail = buf.subrange(i, buf.len() as int);
    assert(tail.len() == buf.len() - i);
    assert forall|x: int| 0 <= x < tail.len() implies buf[i + x] == tail[x] by {}
    let b = s.first();
    let hb = spec_hex_byte(b);
    assert(is_hex_byte(spec_hex_digit(b / 16)) && is_hex_byte(spec_hex_digit(b % 16)));
    assert(hex_val(spec_hex_digit(b / 16)) == b / 16 && hex_val(spec_hex_digit(b % 16)) == b
        % 16);
    if s.len() == 1 {
        assert(s.first() == s.last());
        assert(spec_hex_pairs(s) == hb);
        assert(tail[0] == hb[0] && tail[1] == hb[1] && tail[2] == 124u8);
        assert(buf[i] == tail[0] && buf[i + 1] == tail[1] && buf[i + 2] == tail[2]);
        assert(buf[i] == hb[0] && buf[i + 1] == hb[1]);
        assert(buf[i + 2] == 124u8);
        assert((hex_val(buf[i]) * 16 + hex_val(buf[i + 1])) as u8 == b);
        assert(spec_skip_ws(buf, i + 2) == i + 2);
        assert(spec_parse_raw_body(buf, i + 2) is Err);
        assert(seq![b] =~= s);
    } else {
        lemma_hex_pairs_front(s);
        assert(tail[0] == hb[0] && tail[1] == hb[1] && tail[2] == 32u8);
        assert(buf[i] == tail[0] && buf[i + 1] == tail[1] && buf[i + 2] == tail[2]);
        assert(buf[i] == hb[0] && buf[i + 1] == hb[1]);
        assert(buf[i + 2] == 32u8);
        assert((hex_val(buf[i]) * 16 + hex_val(buf[i + 1])) as u8 == b);
        let s2 = s.drop_first();
        assert(spec_hex_pairs(s2).len() >= 2);
        assert(tail[3] == spec_hex_pairs(s2)[0]);
        assert(buf[i + 3] == tail[3]);
        assert(buf[i + 3] == spec_hex_pairs(s2)[0]);
        assert(is_hex_byte(spec_hex_pairs(s2)[0])) by {
            if s2.len() == 1 {
                assert(spec_hex_pairs(s2)[0] == spec_hex_digit(s2.first() / 16));
            } else {
                lemma_hex_pairs_front(s2);
                assert(spec_hex_pairs(s2)[0] == spec_hex_digit(s2.first() / 16));
            }
        }
        assert(spec_skip_ws(buf, i + 2) == i + 3) by {
            reveal_with_fuel(spec_skip_ws, 3);
            assert(is_ws(buf[i + 2]));
            assert(!is_ws(buf[i + 3]));
        }
        assert forall|x: int| 0 <= x < buf.len() - (i + 3) implies buf.subrange(
            i + 3,
            buf.len() as int,
        )[x] == (spec_hex_pairs(s2) + seq![124u8] + rest)[x] by {
            assert(buf.subrange(i + 3, buf.len() as int)[x] == buf[i + 3 + x]);
            assert(buf[i + 3 + x] == tail[hb.len() + 1 + x]);
        }
        assert(buf.subrange(i + 3, buf.len() as int) =~= spec_hex_pairs(s2) + seq![124u8]
            + rest);
        lemma_raw_body_parses(buf, i + 3, s2, rest);
        assert(seq![b] + s2 =~= s);
    }
}

/// Token-level round trip for raw literals: one or more bytes printed
/// as `|hh hh …|` parse back to the same bytes, when what follows is
/// neither whitespace nor a hex digit. (A raw literal with no bytes has
/// no parseable text, and the parser consumes whitespace after the
/// closing bar, so the canonical comma, bracket or parenthesis must
/// follow directly; a space after the bar shifts only the end
/// position.)
#[verifier::rlimit(100)]
#[verifier::spinoff_prover]
pub proof fn lemma_raw_token_round_trip(buf: Seq<u8>, i: int, content: Seq<u8>, suffix: Seq<u8>)
    requires
        0 <= i <= buf.len(),
        buf.subrange(i, buf.len() as int) == spec_raw_text(content) + suffix,
        content.len() >= 1,
    ensures
        spec_parse_literal(buf, i) == Ok::<(SpecLiteral, int), int>(
            (
                SpecLiteral::Value(SpecValue::Raw(content)),
                spec_skip_ws(buf, i + spec_raw_text(content).len()),
            ),
        ),
        i <= spec_skip_ws(buf, i + spec_raw_text(content).len()) <= buf.len(),
{
    reveal_with_fuel(spec_match_kw, 2);
    let tail = buf.subrange(i, buf.len() as int);
    let n = spec_raw_text(content).len() as int;
    assert(tail.len() == buf.len() - i);
    assert(buf.len() - i == n + suffix.len());
    assert forall|x: int| 0 <= x < tail.len() implies buf[i + x] == tail[x] by {}
    assert(tail =~= seq![124u8] + (spec_hex_pairs(content) + seq![124u8] + suffix));
    assert(buf[i] == tail[0]);
    assert(buf[i] == 124u8);
    assert(crate::parser::to_lower(buf[i]) == buf[i]);
    assert(spec_hex_pairs(content).len() >= 2);
    assert(buf[i + 1] == tail[1]);
    assert(tail[1] == spec_hex_pairs(content)[0]);
    assert(is_hex_byte(spec_hex_pairs(content)[0])) by {
        if content.len() == 1 {
            assert(spec_hex_pairs(content)[0] == spec_hex_digit(content.first() / 16));
        } else {
            lemma_hex_pairs_front(content);
            assert(spec_hex_pairs(content)[0] == spec_hex_digit(content.first() / 16));
        }
    }
    assert(spec_skip_ws(buf, i + 1) == i + 1) by {
        assert(!is_ws(buf[i + 1]));
    }
    assert forall|x: int| 0 <= x < buf.len() - (i + 1) implies buf.subrange(
        i + 1,
        buf.len() as int,
    )[x] == (spec_hex_pairs(content) + seq![124u8] + suffix)[x] by {
        assert(buf.subrange(i + 1, buf.len() as int)[x] == buf[i + 1 + x]);
        assert(buf[i + (1 + x)] == tail[1 + x]);
        assert(tail[1 + x] == (spec_hex_pairs(content) + seq![124u8] + suffix)[x]);
    }
    assert(buf.subrange(i + 1, buf.len() as int) =~= spec_hex_pairs(content) + seq![124u8]
        + suffix);
    lemma_raw_body_parses(buf, i + 1, content, suffix);
    let e: int = i + 1 + spec_hex_pairs(content).len() as int;
    assert(buf[e] == tail[e - i]);
    assert(buf[e] == 124u8);
    assert(e + 1 == i + n);
    crate::parser::lemma_skip_ws(buf, e + 1);
}

/// The escaped form of a regex pattern decomposes at the front as well.
proof fn lemma_escape_regex_front(s: Seq<u8>)
    requires
        s.len() > 0,
    ensures
        spec_escape_regex(s) == (if s.first() == 47u8 {
            seq![92u8, 47u8]
        } else {
            seq![s.first()]
        }) + spec_escape_regex(s.drop_first()),
    decreases s.len(),
{
    if s.len() == 1 {
        assert(s.drop_last() =~= Seq::<u8>::empty());
        assert(s.drop_first() =~= Seq::<u8>::empty());
        assert(s.first() == s.last());
        assert(spec_escape_regex(s) =~= (if s.first() == 47u8 {
            seq![92u8, 47u8]
        } else {
            seq![s.first()]
        }) + spec_escape_regex(s.drop_first()));
    } else {
        let dl = s.drop_last();
        lemma_escape_regex_front(dl);
        assert(dl.first() == s.first());
        assert(dl.drop_first() =~= s.drop_first().drop_last());
        assert(s.drop_first().last() == s.last());
        assert(spec_escape_regex(s) =~= (if s.first() == 47u8 {
            seq![92u8, 47u8]
        } else {
            seq![s.first()]
        }) + spec_escape_regex(s.drop_first()));
    }
}

/// A regex body whose remaining bytes are a slash-escaped pattern, the
/// closing slash and then anything parses to that pattern, provided the
/// pattern does not end with a backslash.
proof fn lemma_regex_body_parses(buf: Seq<u8>, i: int, s: Seq<u8>, rest: Seq<u8>)
    requires
        0 <= i <= buf.len(),
        s.len() > 0 ==> s.last() != 92,
        buf.subrange(i, buf.len() as int) == spec_escape_regex(s) + seq![47u8] + rest,
    ensures
        spec_parse_regex_body(buf, i) == Ok::<(Seq<u8>, int), int>(
            (s, i + spec_escape_regex(s).len() + 1),
        ),
    decreases s.len(),
{
    let tail = buf.subrange(i, buf.len() as int);
    assert(tail.len() == buf.len() - i);
    assert forall|x: int| 0 <= x < tail.len() implies buf[i + x] == tail[x] by {}
    if s.len() == 0 {
        assert(spec_escape_regex(s) =~= Seq::<u8>::empty());
        assert(s =~= Seq::<u8>::empty());
        assert(i < buf.len());
        assert(tail[0] == 47u8);
        assert(buf[i] == tail[0]);
    } else {
        lemma_escape_regex_front(s);
        let c = s.first();
        let s2 = s.drop_first();
        let eb = if c == 47u8 {
            seq![92u8, 47u8]
        } else {
            seq![c]
        };
        assert(tail =~= eb + (spec_escape_regex(s2) + seq![47u8] + rest));
        let i2 = i + eb.len();
        assert forall|x: int| 0 <= x < buf.len() - i2 implies buf.subrange(
            i2,
            buf.len() as int,
        )[x] == (spec_escape_regex(s2) + seq![47u8] + rest)[x] by {
            assert(buf.subrange(i2, buf.len() as int)[x] == buf[i2 + x]);
            assert(buf[i2 + x] == tail[eb.len() + x]);
        }
        assert(buf.subrange(i2, buf.len() as int) =~= spec_escape_regex(s2) + seq![47u8] + rest);
        if s.len() > 1 {
            assert(s2.last() == s.last());
        }
        lemma_regex_body_parses(buf, i2, s2, rest);
        if c == 47u8 {
            assert(buf[i] == tail[0] && buf[i + 1] == tail[1]);
            assert(buf[i] == 92u8 && buf[i + 1] == 47u8);
            assert(seq![c] + s2 =~= s);
        } else {
            assert(buf[i] == tail[0]);
            assert(buf[i] == c && c != 47u8);
            if c == 92u8 {
                // a lone backslash is followed by something other than
                // a slash: the escaped form of the next pattern byte
                // starts with a backslash or that byte itself, and the
                // pattern does not end here
                assert(s2.len() > 0);
                let nb = spec_escape_regex(s2)[0];
                assert(nb == (if s2.first() == 47u8 {
                    92u8
                } else {
                    s2.first()
                })) by {
                    lemma_escape_regex_front(s2);
                }
                assert(buf[i + 1] == tail[1]);
                assert(tail[1] == nb);
                assert(nb != 47u8);
            }
            assert(seq![c] + s2 =~= s);
        }
    }
}

/// Token-level round trip for regex literals: a slash-delimited pattern
/// parses back to the same bytes, whatever follows — provided the
/// pattern does not end with a backslash. (The canonical text of such
/// a pattern merges the backslash with the closing slash into an
/// escape on the way back in — and a pattern with a dangling backslash
/// never compiles as a regex anyway.)
#[verifier::rlimit(100)]
#[verifier::spinoff_prover]
pub proof fn lemma_regex_token_round_trip(buf: Seq<u8>, i: int, content: Seq<u8>, suffix: Seq<u8>)
    requires
        0 <= i <= buf.len(),
        buf.subrange(i, buf.len() as int) == spec_regex_text(content) + suffix,
        content.len() > 0 ==> content.last() != 92,
    ensures
        spec_parse_literal(buf, i) == Ok::<(SpecLiteral, int), int>(
            (
                SpecLiteral::Value(SpecValue::Regex(content)),
                i + spec_regex_text(content).len(),
            ),
        ),
{
    reveal_with_fuel(spec_match_kw, 2);
    let tail = buf.subrange(i, buf.len() as int);
    assert(tail.len() == buf.len() - i);
    assert(buf.len() - i == spec_regex_text(content).len() + suffix.len());
    assert forall|x: int| 0 <= x < tail.len() implies buf[i + x] == tail[x] by {}
    assert(tail =~= seq![47u8] + (spec_escape_regex(content) + seq![47u8] + suffix));
    assert(i < buf.len());
    assert(buf[i] == tail[0]);
    assert(buf[i] == 47u8);
    assert(crate::parser::to_lower(buf[i]) == buf[i]);
    assert forall|x: int| 0 <= x < buf.len() - (i + 1) implies buf.subrange(
        i + 1,
        buf.len() as int,
    )[x] == (spec_escape_regex(content) + seq![47u8] + suffix)[x] by {
        assert(buf.subrange(i + 1, buf.len() as int)[x] == buf[i + 1 + x]);
        assert(buf[i + (1 + x)] == tail[1 + x]);
        assert(tail[1 + x] == (spec_escape_regex(content) + seq![47u8] + suffix)[x]);
    }
    assert(buf.subrange(i + 1, buf.len() as int) =~= spec_escape_regex(content) + seq![47u8]
        + suffix);
    lemma_regex_body_parses(buf, i + 1, content, suffix);
}

/// Whitespace skipping is idempotent.
proof fn lemma_skip_ws_idempotent(buf: Seq<u8>, j: int)
    requires
        0 <= j <= buf.len(),
    ensures
        spec_skip_ws(buf, spec_skip_ws(buf, j)) == spec_skip_ws(buf, j),
    decreases buf.len() - j,
{
    if j < buf.len() && is_ws(buf[j]) {
        lemma_skip_ws_idempotent(buf, j + 1);
    }
}

/// A literal whose canonical text parses back to it: every non-list
/// value under the conditions of its token lemma, and every well-formed
/// field path that does not begin with a reserved keyword.
pub open spec fn spec_literal_round_trip_ready(lit: SpecLiteral) -> bool {
    match lit {
        SpecLiteral::Value(v) => match v {
            SpecValue::Number(bits) => crate::number::spec_is_number_token(
                spec_number_text(bits),
            ) && number_bits_of(spec_number_text(bits)) == bits,
            SpecValue::DateTime(m) => spec_is_datetime_token(datetime_text_of(m))
                && datetime_micros_of(datetime_text_of(m)) == Some(m),
            SpecValue::Raw(bytes) => bytes.len() >= 1,
            SpecValue::Regex(p) => p.len() > 0 ==> p.last() != 92,
            SpecValue::String(_) => true,
            SpecValue::Boolean(_) => true,
            SpecValue::Null => true,
            _ => false,
        },
        SpecLiteral::Field(name) => name.len() > 0 && is_field_start(name[0]) && (forall|j: int|
            0 <= j < name.len() ==> is_field_byte(#[trigger] name[j])) && !spec_kw_prefix(
            name,
            kw_null(),
        ) && !spec_kw_prefix(name, kw_true()) && !spec_kw_prefix(name, kw_false()),
    }
}

/// What may follow a literal without extending its token: nothing, or a
/// byte that is not part of a field path, a fraction, an exponent or a
/// sign. The serializer's separators — a space, ` AND `, ` OR `, `, `,
/// `]` and `)` — all qualify.
pub open spec fn spec_literal_suffix_ok(suffix: Seq<u8>) -> bool {
    suffix.len() == 0 || (!is_field_byte(suffix[0]) && suffix[0] != 46 && suffix[0] != 43
        && suffix[0] != 45)
}

/// The canonical text of a round-trip-ready literal is non-empty and
/// opens with a byte that is neither whitespace nor a parenthesis nor a
/// negation mark.
proof fn lemma_literal_text_head(lit: SpecLiteral)
    requires
        spec_literal_round_trip_ready(lit),
    ensures
        spec_serialize_literal(lit).len() > 0,
        !is_ws(spec_serialize_literal(lit)[0]),
        spec_serialize_literal(lit)[0] != 40,
        spec_serialize_literal(lit)[0] != 33,
{
    match lit {
        SpecLiteral::Value(v) => match v {
            SpecValue::Number(bits) => {
                let text = spec_number_text(bits);
                assert(text.len() > 0);
                assert(text[0] == 45u8 || is_digit_byte(text[0]));
            },
            SpecValue::DateTime(m) => {
                let text = datetime_text_of(m);
                assert(text.len() >= 20);
                assert(is_digit_byte(text[0]));
            },
            _ => {},
        },
        SpecLiteral::Field(name) => {},
    }
}

/// Round trip for one literal: its canonical text, followed by nothing
/// or by one of the separators the serializer uses, parses back to the
/// same literal; the parse ends where whitespace skipping from the end
/// of the canonical text ends (a raw literal consumes trailing
/// whitespace itself, every other form stops exactly at its end).
#[verifier::rlimit(100)]
#[verifier::spinoff_prover]
pub proof fn lemma_literal_token_round_trip(buf: Seq<u8>, i: int, lit: SpecLiteral, suffix: Seq<u8>)
    requires
        0 <= i <= buf.len(),
        buf.subrange(i, buf.len() as int) == spec_serialize_literal(lit) + suffix,
        spec_literal_round_trip_ready(lit),
        spec_literal_suffix_ok(suffix),
    ensures
        ({
            let r = spec_parse_literal(buf, i);
            &&& r is Ok
            &&& r->Ok_0.0 == lit
            &&& i <= r->Ok_0.1 <= buf.len()
            &&& spec_skip_ws(buf, r->Ok_0.1) == spec_skip_ws(
                buf,
                i + spec_serialize_literal(lit).len(),
            )
        }),
{
    let n = spec_serialize_literal(lit).len() as int;
    assert(buf.subrange(i, buf.len() as int).len() == buf.len() - i);
    assert((spec_serialize_literal(lit) + suffix).len() == n + suffix.len());
    assert(buf.len() - i == n + suffix.len());
    match lit {
        SpecLiteral::Value(v) => {
            match v {
                SpecValue::String(bytes) => {
                    lemma_string_token_round_trip(buf, i, bytes, suffix);
                },
                SpecValue::Regex(p) => {
                    lemma_regex_token_round_trip(buf, i, p, suffix);
                },
                SpecValue::Number(bits) => {
                    lemma_number_token_round_trip(buf, i, spec_number_text(bits), suffix);
                },
                SpecValue::Boolean(b) => {
                    lemma_boolean_token_round_trip(buf, i, b, suffix);
                },
                SpecValue::Raw(bytes) => {
                    lemma_raw_token_round_trip(buf, i, bytes, suffix);
                    lemma_skip_ws_idempotent(buf, i + n);
                },
                SpecValue::DateTime(m) => {
                    lemma_datetime_token_round_trip(buf, i, datetime_text_of(m), m, suffix);
                },
                SpecValue::Null => {
                    lemma_null_token_round_trip(buf, i, suffix);
                },
                _ => {},
            }
        },
        SpecLiteral::Field(name) => {
            lemma_field_token_round_trip(buf, i, name, suffix);
        },
    }
}

/// A digit run at an offset position is the offset run of the tail.
proof fn lemma_scan_digits_shift(buf: Seq<u8>, i: int, k: int)
    requires
        0 <= i <= k <= buf.len(),
    ensures
        spec_scan_digits(buf, k) == i + spec_scan_digits(buf.skip(i), k - i),
    decreases buf.len() - k,
{
    let t2 = buf.skip(i);
    if k < buf.len() {
        assert(t2[k - i] == buf[k]);
        if is_digit_byte(buf[k]) {
            lemma_scan_digits_shift(buf, i, k + 1);
        }
    }
}

/// A number scan at an offset position is the offset scan of the tail.
proof fn lemma_scan_number_shift(buf: Seq<u8>, i: int)
    requires
        0 <= i <= buf.len(),
    ensures
        spec_scan_number(buf, i) == (match spec_scan_number(buf.skip(i), 0) {
            None => None::<int>,
            Some(e) => Some(i + e),
        }),
{
    let t2 = buf.skip(i);
    assert forall|x: int| 0 <= x < t2.len() implies t2[x] == buf[i + x] by {}
    let j: int = if i < buf.len() && buf[i] == 45u8 {
        i + 1
    } else {
        i
    };
    if !(j < buf.len() && is_digit_byte(buf[j])) {
        if j > i {
            assert(t2[0] == 45u8);
            if j < buf.len() {
                assert(t2[j - i] == buf[j]);
            }
        } else if i < buf.len() {
            assert(t2[0] == buf[i]);
        }
    } else {
        assert(t2[j - i] == buf[j]);
        let k: int = if buf[j] == 48u8 {
            j + 1
        } else {
            spec_scan_digits(buf, j)
        };
        if buf[j] != 48u8 {
            crate::number::lemma_scan_digits(buf, j);
            lemma_scan_digits_shift(buf, i, j);
        }
        assert(j < k <= buf.len()) by {
            if buf[j] != 48u8 {
                crate::number::lemma_scan_digits(buf, j);
                assert(spec_scan_digits(buf, j) == spec_scan_digits(buf, j + 1));
            }
        }
        if k < buf.len() {
            assert(t2[k - i] == buf[k]);
        }
        if k + 1 < buf.len() {
            assert(t2[k + 1 - i] == buf[k + 1]);
        }
        let k2: int = if k < buf.len() && buf[k] == 46u8 && k + 1 < buf.len() && is_digit_byte(
            buf[k + 1],
        ) {
            spec_scan_digits(buf, k + 1)
        } else {
            k
        };
        if k < buf.len() && buf[k] == 46u8 && k + 1 < buf.len() && is_digit_byte(buf[k + 1]) {
            crate::number::lemma_scan_digits(buf, k + 1);
            lemma_scan_digits_shift(buf, i, k + 1);
        }
        assert(k <= k2 <= buf.len());
        if k2 < buf.len() {
            assert(t2[k2 - i] == buf[k2]);
        }
        if buf.len() > k2 && (buf[k2] == 101u8 || buf[k2] == 69u8) {
            let p: int = if k2 + 1 < buf.len() && (buf[k2 + 1] == 43u8 || buf[k2 + 1] == 45u8) {
                k2 + 2
            } else {
                k2 + 1
            };
            if k2 + 1 < buf.len() {
                assert(t2[k2 + 1 - i] == buf[k2 + 1]);
            }
            if p < buf.len() {
                assert(t2[p - i] == buf[p]);
            }
            if p < buf.len() && is_digit_byte(buf[p]) {
                lemma_scan_digits_shift(buf, i, p);
            }
        }
    }
}

/// A digit-range check at an offset position is the offset check of
/// the tail.
proof fn lemma_all_digit_shift(buf: Seq<u8>, i: int, a: int, b: int)
    requires
        0 <= i,
        0 <= a,
        i + b <= buf.len(),
    ensures
        crate::datetime::all_digit_bytes(buf, i + a, i + b) == crate::datetime::all_digit_bytes(
            buf.skip(i),
            a,
            b,
        ),
{
    let t2 = buf.skip(i);
    if crate::datetime::all_digit_bytes(buf, i + a, i + b) {
        assert forall|x: int| a <= x < b implies is_digit_byte(#[trigger] t2[x]) by {
            assert(t2[x] == buf[i + x]);
            assert(is_digit_byte(buf[i + x]));
        }
    }
    if crate::datetime::all_digit_bytes(t2, a, b) {
        assert forall|x: int| i + a <= x < i + b implies is_digit_byte(#[trigger] buf[x]) by {
            assert(t2[x - i] == buf[x]);
            assert(is_digit_byte(t2[x - i]));
        }
    }
}

/// A datetime scan at an offset position is the offset scan of the
/// tail.
proof fn lemma_scan_datetime_shift(buf: Seq<u8>, i: int)
    requires
        0 <= i <= buf.len(),
    ensures
        crate::datetime::spec_scan_datetime(buf, i) == (
        match crate::datetime::spec_scan_datetime(buf.skip(i), 0) {
            None => None::<int>,
            Some(e) => Some(i + e),
        }),
{
    let t2 = buf.skip(i);
    assert forall|x: int| 0 <= x < t2.len() implies t2[x] == buf[i + x] by {}
    if i + 19 <= buf.len() {
        lemma_all_digit_shift(buf, i, 0, 4);
        lemma_all_digit_shift(buf, i, 5, 7);
        lemma_all_digit_shift(buf, i, 8, 10);
        lemma_all_digit_shift(buf, i, 11, 13);
        lemma_all_digit_shift(buf, i, 14, 16);
        lemma_all_digit_shift(buf, i, 17, 19);
        assert(buf[i + 4] == t2[4] && buf[i + 7] == t2[7] && buf[i + 10] == t2[10] && buf[i
            + 13] == t2[13] && buf[i + 16] == t2[16]);
    }
    if i + 19 <= buf.len() && crate::datetime::all_digit_bytes(buf, i, i + 4) && buf[i + 4]
        == 45u8 && crate::datetime::all_digit_bytes(buf, i + 5, i + 7) && buf[i + 7] == 45u8
        && crate::datetime::all_digit_bytes(buf, i + 8, i + 10) && buf[i + 10] == 84u8
        && crate::datetime::all_digit_bytes(buf, i + 11, i + 13) && buf[i + 13] == 58u8
        && crate::datetime::all_digit_bytes(buf, i + 14, i + 16) && buf[i + 16] == 58u8
        && crate::datetime::all_digit_bytes(buf, i + 17, i + 19) {
        let k = i + 19;
        if k < buf.len() {
            assert(buf[k] == t2[19]);
        }
        if k < buf.len() && buf[k] == 46u8 && k + 1 < buf.len() && is_digit_byte(buf[k + 1]) {
            assert(buf[k + 1] == t2[20]);
            lemma_scan_digits_shift(buf, i, k + 1);
            crate::number::lemma_scan_digits(buf, k + 1);
        }
        let k2b: int = if k < buf.len() && buf[k] == 46u8 && k + 1 < buf.len() && is_digit_byte(
            buf[k + 1],
        ) {
            let d = spec_scan_digits(buf, k + 1);
            if d > k + 6 {
                k + 6
            } else {
                d
            }
        } else {
            k
        };
        assert(i <= k2b);
        if k2b < buf.len() {
            assert(buf[k2b] == t2[k2b - i]);
        }
        if !(k2b < buf.len() && buf[k2b] == 90u8) {
            if k2b + 6 <= buf.len() {
                lemma_all_digit_shift(buf, i, k2b - i + 1, k2b - i + 3);
                lemma_all_digit_shift(buf, i, k2b - i + 4, k2b - i + 6);
                assert(i + (k2b - i + 1) == k2b + 1 && i + (k2b - i + 3) == k2b + 3);
                assert(i + (k2b - i + 4) == k2b + 4 && i + (k2b - i + 6) == k2b + 6);
                if k2b + 3 < buf.len() {
                    assert(buf[k2b + 3] == t2[k2b + 3 - i]);
                }
            }
        }
    }
}

/// The operation production assembles what its three parts parsed.
proof fn lemma_operation_parses(
    buf: Seq<u8>,
    i: int,
    lhs: SpecLiteral,
    e1: int,
    o: Operator,
    e2: int,
    rhs: SpecLiteral,
    e3: int,
)
    requires
        spec_parse_literal(buf, i) == Ok::<(SpecLiteral, int), int>((lhs, e1)),
        spec_parse_operator(buf, spec_skip_ws(buf, e1)) == Ok::<(Operator, int), int>((o, e2)),
        spec_parse_literal(buf, spec_skip_ws(buf, e2)) == Ok::<(SpecLiteral, int), int>(
            (rhs, e3),
        ),
    ensures
        spec_parse_operation(buf, i) == Ok::<(SpecOperation, int), int>(
            (SpecOperation { lhs, op: o, rhs }, e3),
        ),
{
}

/// An expression that opens with no parenthesis and no negation mark
/// can only be an operation.
proof fn lemma_expression_from_operation(buf: Seq<u8>, i: int, o: SpecOperation, e: int)
    requires
        0 <= i < buf.len(),
        buf[i] != 40,
        buf[i] != 33,
        spec_parse_operation(buf, i) == Ok::<(SpecOperation, int), int>((o, e)),
    ensures
        crate::parser::spec_parse_expression(buf, i) == Ok::<(SpecExpression, int), int>(
            (SpecExpression::Operation(o), e),
        ),
{
    assert(spec_parse_group(buf, i, kw_and()) is Err);
    assert(spec_parse_group(buf, i, kw_or()) is Err);
    assert(spec_parse_not(buf, i) is Err);
}

/// The parts of an operation's canonical text, each at its place
/// within a larger buffer.
#[verifier::rlimit(100)]
#[verifier::spinoff_prover]
proof fn lemma_operation_text_parts(buf: Seq<u8>, i: int, op: SpecOperation, suffix: Seq<u8>)
    requires
        0 <= i <= buf.len(),
        buf.subrange(i, buf.len() as int) == spec_serialize_operation(op) + suffix,
        spec_literal_round_trip_ready(op.lhs),
        spec_literal_round_trip_ready(op.rhs),
    ensures
        ({
            let lt = spec_serialize_literal(op.lhs);
            let ot = spec_operator_bytes(op.op);
            let rt = spec_serialize_literal(op.rhs);
            let m1 = i + lt.len() as int;
            let m2 = m1 + 1 + ot.len() as int;
            let m3 = m2 + 1;
            &&& buf.len() - i == spec_serialize_operation(op).len() + suffix.len()
            &&& buf.subrange(i, buf.len() as int) == lt + (seq![32u8] + ot + seq![32u8] + (rt
                + suffix))
            &&& buf.subrange(m1 + 1, buf.len() as int) == ot + (seq![32u8] + (rt + suffix))
            &&& buf.subrange(m3, buf.len() as int) == rt + suffix
            &&& buf[m1] == 32u8
            &&& m1 + 1 < buf.len() && buf[m1 + 1] == ot[0]
            &&& buf[m2] == 32u8
            &&& m3 < buf.len() && buf[m3] == rt[0]
            &&& buf[i] == lt[0]
        }),
{
    let lt = spec_serialize_literal(op.lhs);
    let ot = spec_operator_bytes(op.op);
    let rt = spec_serialize_literal(op.rhs);
    let m1 = i + lt.len() as int;
    let m2 = m1 + 1 + ot.len() as int;
    let m3 = m2 + 1;
    lemma_literal_text_head(op.lhs);
    lemma_literal_text_head(op.rhs);
    let tail = buf.subrange(i, buf.len() as int);
    let s1 = seq![32u8] + ot + seq![32u8] + (rt + suffix);
    assert(tail.len() == buf.len() - i);
    assert((spec_serialize_operation(op) + suffix).len() == spec_serialize_operation(op).len()
        + suffix.len());
    assert forall|x: int| 0 <= x < tail.len() implies buf[i + x] == tail[x] by {}
    assert(tail =~= lt + s1);
    assert(buf[m1] == tail[m1 - i]);
    assert(tail[lt.len() as int] == s1[0]);
    assert(buf[m1 + 1] == tail[m1 + 1 - i]);
    assert(s1[1] == ot[0]);
    assert(buf[m2] == tail[m2 - i]);
    assert(s1[1 + ot.len() as int] == 32u8);
    assert(buf[m3] == tail[m3 - i]);
    assert(s1[2 + ot.len() as int] == (rt + suffix)[0]);
    assert(buf[i] == tail[0]);
    assert forall|x: int| 0 <= x < buf.len() - (m1 + 1) implies buf.subrange(
        m1 + 1,
        buf.len() as int,
    )[x] == (ot + (seq![32u8] + (rt + suffix)))[x] by {
        assert(buf.subrange(m1 + 1, buf.len() as int)[x] == buf[m1 + 1 + x]);
        assert(buf[i + (lt.len() + 1 + x)] == tail[lt.len() + 1 + x]);
        assert(tail[lt.len() + 1 + x] == s1[1 + x]);
        assert(s1[1 + x] == (ot + (seq![32u8] + (rt + suffix)))[x]);
    }
    assert(buf.subrange(m1 + 1, buf.len() as int) =~= ot + (seq![32u8] + (rt + suffix)));
    assert forall|x: int| 0 <= x < buf.len() - m3 implies buf.subrange(
        m3,
        buf.len() as int,
    )[x] == (rt + suffix)[x] by {
        assert(buf.subrange(m3, buf.len() as int)[x] == buf[m3 + x]);
        assert(buf[i + (lt.len() + 2 + ot.len() + x)] == tail[lt.len() + 2 + ot.len() + x]);
        assert(tail[lt.len() + 2 + ot.len() + x] == s1[2 + ot.len() as int + x]);
        assert(s1[2 + ot.len() as int + x] == (rt + suffix)[x]);
    }
    assert(buf.subrange(m3, buf.len() as int) =~= rt + suffix);
}

/// Round trip for one operation anywhere in a buffer: its canonical
/// text, followed by nothing or by one of the serializer's separators,
/// parses back to the same operation; the parse ends where whitespace
/// skipping from the end of the canonical text ends.
#[verifier::rlimit(100)]
#[verifier::spinoff_prover]
pub proof fn lemma_operation_text_round_trip(
    buf: Seq<u8>,
    i: int,
    op: SpecOperation,
    suffix: Seq<u8>,
)
    requires
        0 <= i <= buf.len(),
        buf.subrange(i, buf.len() as int) == spec_serialize_operation(op) + suffix,
        spec_literal_round_trip_ready(op.lhs),
        spec_literal_round_trip_ready(op.rhs),
        spec_literal_suffix_ok(suffix),
    ensures
        ({
            let r = spec_parse_operation(buf, i);
            &&& r is Ok
            &&& r->Ok_0.0 == op
            &&& i <= r->Ok_0.1 <= buf.len()
            &&& spec_skip_ws(buf, r->Ok_0.1) == spec_skip_ws(
                buf,
                i + spec_serialize_operation(op).len(),
            )
            &&& i < buf.len() && buf[i] == spec_serialize_literal(op.lhs)[0]
        }),
{
    let lt = spec_serialize_literal(op.lhs);
    let ot = spec_operator_bytes(op.op);
    let rt = spec_serialize_literal(op.rhs);
    let m1 = i + lt.len() as int;
    let m2 = m1 + 1 + ot.len() as int;
    let m3 = m2 + 1;
    lemma_operation_text_parts(buf, i, op, suffix);
    lemma_literal_text_head(op.lhs);
    lemma_literal_text_head(op.rhs);
    assert(ot.len() >= 1);
    assert(ot[0] == 61 || ot[0] == 33 || ot[0] == 62 || ot[0] == 60 || ot[0] == 73);
    // the left literal
    lemma_literal_token_round_trip(buf, i, op.lhs, seq![32u8] + ot + seq![32u8] + (rt + suffix));
    let e1 = spec_parse_literal(buf, i)->Ok_0.1;
    assert(spec_skip_ws(buf, m1) == m1 + 1) by {
        reveal_with_fuel(spec_skip_ws, 3);
        assert(is_ws(buf[m1]));
        assert(!is_ws(buf[m1 + 1]));
    }
    assert(spec_skip_ws(buf, e1) == m1 + 1);
    // the operator
    lemma_operator_token_round_trip(buf, m1 + 1, op.op, seq![32u8] + (rt + suffix));
    // the separator before the right literal
    assert(spec_skip_ws(buf, m2) == m3) by {
        reveal_with_fuel(spec_skip_ws, 3);
        assert(is_ws(buf[m2]));
        assert(!is_ws(buf[m3]));
    }
    // the right literal
    lemma_literal_token_round_trip(buf, m3, op.rhs, suffix);
    let e3 = spec_parse_literal(buf, m3)->Ok_0.1;
    lemma_operation_parses(buf, i, op.lhs, e1, op.op, m2, op.rhs, e3);
    assert(m3 + rt.len() == i + spec_serialize_operation(op).len());
}

/// Round trip through the whole parser for a single comparison: the
/// canonical text of an operation parses back to exactly that
/// operation, whenever both of its literals are round-trip ready.
#[verifier::spinoff_prover]
pub proof fn lemma_operation_round_trip(op: SpecOperation)
    requires
        spec_literal_round_trip_ready(op.lhs),
        spec_literal_round_trip_ready(op.rhs),
    ensures
        spec_parse(spec_serialize_operation(op)) == Ok::<SpecExpression, int>(
            SpecExpression::Operation(op),
        ),
{
    let buf = spec_serialize_operation(op);
    assert(buf.subrange(0, buf.len() as int) =~= buf + Seq::<u8>::empty());
    lemma_operation_text_parts(buf, 0, op, Seq::empty());
    lemma_literal_text_head(op.lhs);
    lemma_operation_text_round_trip(buf, 0, op, Seq::empty());
    let e = spec_parse_operation(buf, 0)->Ok_0.1;
    assert(spec_skip_ws(buf, buf.len() as int) == buf.len());
    assert(spec_skip_ws(buf, e) == buf.len());
    lemma_expression_from_operation(buf, 0, op, e);
    assert(spec_skip_ws(buf, 0) == 0) by {
        assert(!is_ws(buf[0]));
    }
}

/// A whole input of the shape `!(` expression `)` parses to the
/// negation of that expression.
#[verifier::spinoff_prover]
proof fn lemma_parse_negation(buf: Seq<u8>, inner: SpecExpression, e: int)
    requires
        buf.len() >= 4,
        buf[0] == 33,
        buf[1] == 40,
        !is_ws(buf[1]),
        !is_ws(buf[2]),
        buf[buf.len() - 1] == 41,
        crate::parser::spec_parse_expression(buf, 2) == Ok::<(SpecExpression, int), int>(
            (inner, e),
        ),
        spec_skip_ws(buf, e) == buf.len() - 1,
    ensures
        spec_parse(buf) == Ok::<SpecExpression, int>(SpecExpression::Not(Box::new(inner))),
{
    assert(spec_skip_ws(buf, 1) == 1);
    assert(spec_skip_ws(buf, 2) == 2);
    assert(spec_parse_not(buf, 0) == Ok::<(SpecExpression, int), int>(
        (inner, buf.len() as int),
    ));
    assert(spec_parse_group(buf, 0, kw_and()) is Err);
    assert(spec_parse_group(buf, 0, kw_or()) is Err);
    assert(spec_skip_ws(buf, 0) == 0) by {
        assert(!is_ws(buf[0]));
    }
    assert(spec_skip_ws(buf, buf.len() as int) == buf.len());
}

/// Round trip through the whole parser for a negated comparison: the
/// canonical text of `!(lhs OP rhs)` parses back to exactly that tree,
/// whenever both literals are round-trip ready.
#[verifier::rlimit(100)]
#[verifier::spinoff_prover]
proof fn lemma_negation_text_parts(op: SpecOperation)
    ensures
        ({
            let so = spec_serialize_operation(op);
            let buf = crate::serialize::spec_serialize_expression(
                SpecExpression::Not(Box::new(SpecExpression::Operation(op))),
            );
            &&& buf.len() == so.len() + 3
            &&& buf[0] == 33u8
            &&& buf[1] == 40u8
            &&& buf[buf.len() - 1] == 41u8
            &&& buf.subrange(2, buf.len() as int) == so + seq![41u8]
        }),
{
    let so = spec_serialize_operation(op);
    let buf = crate::serialize::spec_serialize_expression(
        SpecExpression::Not(Box::new(SpecExpression::Operation(op))),
    );
    reveal_with_fuel(crate::serialize::spec_serialize_expression, 3);
    assert(buf =~= seq![33u8, 40u8] + so + seq![41u8]);
    assert forall|x: int| 0 <= x < buf.len() - 2 implies buf.subrange(2, buf.len() as int)[x]
        == (so + seq![41u8])[x] by {
        assert(buf.subrange(2, buf.len() as int)[x] == buf[2 + x]);
    }
    assert(buf.subrange(2, buf.len() as int) =~= so + seq![41u8]);
}

pub proof fn lemma_negation_round_trip(op: SpecOperation)
    requires
        spec_literal_round_trip_ready(op.lhs),
        spec_literal_round_trip_ready(op.rhs),
    ensures
        spec_parse(
            crate::serialize::spec_serialize_expression(
                SpecExpression::Not(Box::new(SpecExpression::Operation(op))),
            ),
        ) == Ok::<SpecExpression, int>(
            SpecExpression::Not(Box::new(SpecExpression::Operation(op))),
        ),
{
    let so = spec_serialize_operation(op);
    let buf = crate::serialize::spec_serialize_expression(
        SpecExpression::Not(Box::new(SpecExpression::Operation(op))),
    );
    lemma_negation_text_parts(op);
    lemma_literal_text_head(op.lhs);
    lemma_operation_text_round_trip(buf, 2, op, seq![41u8]);
    let e = spec_parse_operation(buf, 2)->Ok_0.1;
    lemma_expression_from_operation(buf, 2, op, e);
    assert(spec_skip_ws(buf, buf.len() - 1) == buf.len() - 1) by {
        assert(!is_ws(buf[buf.len() - 1]));
    }
    assert(2 + so.len() == buf.len() - 1);
    assert(spec_skip_ws(buf, e) == buf.len() - 1);
    lemma_parse_negation(buf, SpecExpression::Operation(op), e);
}

} // verus!
