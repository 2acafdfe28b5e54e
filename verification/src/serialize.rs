//! The canonical serializer: expression trees back to source text, as
//! bytes. `parse` of the output yields the same tree again (see
//! [`crate::laws`]).

use vstd::prelude::*;

use crate::datetime::{datetime_text_of, datetime_to_text};
use crate::expression::{
    deep_view_seq, And, Expression, Literal, Not, Operation, Operator, Or, SpecExpression,
    SpecLiteral, SpecOperation,
};
use crate::number::{number_to_text, spec_number_text};
use crate::schema::{SpecValue, Value};

verus! {

broadcast use {vstd::std_specs::vec::group_vec_axioms, crate::expression::lemma_deep_view_seq};

/// The canonical token of each operator, as bytes (`IN` uppercase).
pub open spec fn spec_operator_bytes(op: Operator) -> Seq<u8> {
    match op {
        Operator::Eq => seq![61u8, 61u8],
        Operator::Ne => seq![33u8, 61u8],
        Operator::Gt => seq![62u8],
        Operator::Gte => seq![62u8, 61u8],
        Operator::Lt => seq![60u8],
        Operator::Lte => seq![60u8, 61u8],
        Operator::In => seq![73u8, 78u8],
    }
}

/// The escape of one string byte: quote, backslash, backspace, form
/// feed, newline, carriage return and tab get a backslash form; every
/// other byte stands for itself.
pub open spec fn spec_escape_byte(c: u8) -> Seq<u8> {
    if c == 34u8 {
        seq![92u8, 34u8]
    } else if c == 92u8 {
        seq![92u8, 92u8]
    } else if c == 8u8 {
        seq![92u8, 98u8]
    } else if c == 12u8 {
        seq![92u8, 102u8]
    } else if c == 10u8 {
        seq![92u8, 110u8]
    } else if c == 13u8 {
        seq![92u8, 114u8]
    } else if c == 9u8 {
        seq![92u8, 116u8]
    } else {
        seq![c]
    }
}

/// A string body, escaped byte for byte.
pub open spec fn spec_escape_string(s: Seq<u8>) -> Seq<u8>
    decreases s.len(),
{
    if s.len() == 0 {
        Seq::empty()
    } else {
        spec_escape_string(s.drop_last()) + spec_escape_byte(s.last())
    }
}

/// A string literal: double-quoted, escaped.
pub open spec fn spec_quote_string(s: Seq<u8>) -> Seq<u8> {
    seq![34u8] + spec_escape_string(s) + seq![34u8]
}

/// A regex body: embedded `/` escaped as `\/`, all else untouched.
pub open spec fn spec_escape_regex(s: Seq<u8>) -> Seq<u8>
    decreases s.len(),
{
    if s.len() == 0 {
        Seq::empty()
    } else {
        spec_escape_regex(s.drop_last()) + (if s.last() == 47u8 {
            seq![92u8, 47u8]
        } else {
            seq![s.last()]
        })
    }
}

/// A regex literal: slash-delimited.
pub open spec fn spec_regex_text(s: Seq<u8>) -> Seq<u8> {
    seq![47u8] + spec_escape_regex(s) + seq![47u8]
}

/// A lowercase hex digit.
pub open spec fn spec_hex_digit(n: u8) -> u8 {
    if n < 10 {
        (48 + n) as u8
    } else {
        (87 + n) as u8
    }
}

/// Two lowercase hex digits of one byte.
pub open spec fn spec_hex_byte(b: u8) -> Seq<u8> {
    seq![spec_hex_digit(b / 16), spec_hex_digit(b % 16)]
}

/// Hex pairs of a byte string, space-separated.
pub open spec fn spec_hex_pairs(s: Seq<u8>) -> Seq<u8>
    decreases s.len(),
{
    if s.len() == 0 {
        Seq::empty()
    } else if s.len() == 1 {
        spec_hex_byte(s.last())
    } else {
        spec_hex_pairs(s.drop_last()) + seq![32u8] + spec_hex_byte(s.last())
    }
}

/// A raw literal: `|hh hh …|`.
pub open spec fn spec_raw_text(s: Seq<u8>) -> Seq<u8> {
    seq![124u8] + spec_hex_pairs(s) + seq![124u8]
}

/// `true`, `false` or `null`, as bytes.
pub open spec fn spec_bool_text(b: bool) -> Seq<u8> {
    if b {
        seq![116u8, 114u8, 117u8, 101u8]
    } else {
        seq![102u8, 97u8, 108u8, 115u8, 101u8]
    }
}

/// The keyword `null`, as bytes.
pub open spec fn spec_null_text() -> Seq<u8> {
    seq![110u8, 117u8, 108u8, 108u8]
}

/// Already-serialized parts joined with a separator.
pub open spec fn spec_join_parts(parts: Seq<Seq<u8>>, sep: Seq<u8>) -> Seq<u8>
    decreases parts.len(),
{
    if parts.len() == 0 {
        Seq::empty()
    } else if parts.len() == 1 {
        parts.last()
    } else {
        spec_join_parts(parts.drop_last(), sep) + sep + parts.last()
    }
}

/// A list literal: `[p1, p2, …]`.
pub open spec fn spec_list_text(parts: Seq<Seq<u8>>) -> Seq<u8> {
    seq![91u8] + spec_join_parts(parts, seq![44u8, 32u8]) + seq![93u8]
}

/// The canonical text of a value.
pub open spec fn spec_serialize_value(v: SpecValue) -> Seq<u8> {
    match v {
        SpecValue::String(s) => spec_quote_string(s),
        SpecValue::Regex(s) => spec_regex_text(s),
        SpecValue::Number(bits) => spec_number_text(bits),
        SpecValue::Boolean(b) => spec_bool_text(b),
        SpecValue::Raw(s) => spec_raw_text(s),
        SpecValue::DateTime(m) => datetime_text_of(m),
        SpecValue::StringList(l) => spec_list_text(l.map(|_i: int, s: Seq<u8>| spec_quote_string(s))),
        SpecValue::NumberList(l) => spec_list_text(l.map(|_i: int, b: u64| spec_number_text(b))),
        SpecValue::BooleanList(l) => spec_list_text(l.map(|_i: int, b: bool| spec_bool_text(b))),
        SpecValue::RawList(l) => spec_list_text(l.map(|_i: int, s: Seq<u8>| spec_raw_text(s))),
        SpecValue::DateTimeList(l) => spec_list_text(l.map(|_i: int, m: i64| datetime_text_of(m))),
        SpecValue::Null => spec_null_text(),
    }
}

/// The canonical text of a literal: a value, or the field path itself.
pub open spec fn spec_serialize_literal(lit: SpecLiteral) -> Seq<u8> {
    match lit {
        SpecLiteral::Value(v) => spec_serialize_value(v),
        SpecLiteral::Field(name) => name,
    }
}

/// The canonical text of an operation: `lhs OP rhs`, single spaces.
pub open spec fn spec_serialize_operation(op: SpecOperation) -> Seq<u8> {
    spec_serialize_literal(op.lhs) + seq![32u8] + spec_operator_bytes(op.op) + seq![32u8]
        + spec_serialize_literal(op.rhs)
}

/// The canonical text of an expression.
pub open spec fn spec_serialize_expression(e: SpecExpression) -> Seq<u8>
    decreases e,
{
    match e {
        SpecExpression::And(subs) => seq![40u8] + spec_join_exprs(
            subs,
            seq![32u8, 65u8, 78u8, 68u8, 32u8],
        ) + seq![41u8],
        SpecExpression::Or(subs) => seq![40u8] + spec_join_exprs(
            subs,
            seq![32u8, 79u8, 82u8, 32u8],
        ) + seq![41u8],
        SpecExpression::Not(inner) => seq![33u8, 40u8] + spec_serialize_expression(*inner) + seq![
            41u8,
        ],
        SpecExpression::Operation(op) => spec_serialize_operation(op),
    }
}

/// Serialized subexpressions joined with ` AND ` or ` OR `.
pub open spec fn spec_join_exprs(subs: Seq<SpecExpression>, sep: Seq<u8>) -> Seq<u8>
    decreases subs,
{
    if subs.len() == 0 {
        Seq::empty()
    } else if subs.len() == 1 {
        spec_serialize_expression(subs.last())
    } else {
        spec_join_exprs(subs.drop_last(), sep) + sep + spec_serialize_expression(subs.last())
    }
}

/// Canonical textual form, as bytes.
pub trait Serialize {
    /// The text this node serializes to.
    spec fn spec_fmt(&self) -> Seq<u8>;

    /// Serializes this node.
    fn fmt(&self) -> (r: Vec<u8>)
        ensures
            r@ == self.spec_fmt(),
    ;
}

/// Appends all of `src` to `out`.
fn push_all(out: &mut Vec<u8>, src: &[u8])
    ensures
        final(out)@ == old(out)@ + src@,
{
    let mut k: usize = 0;
    while k < src.len()
        invariant
            k <= src@.len(),
            out@ == old(out)@ + src@.take(k as int),
        decreases src@.len() - k,
    {
        out.push(src[k]);
        proof {
            assert(old(out)@ + src@.take(k + 1 as int) =~= (old(out)@ + src@.take(k as int)).push(
                src@[k as int],
            ));
        }
        k = k + 1;
    }
    proof {
        assert(src@.take(src@.len() as int) =~= src@);
    }
}

/// The escaped form of one string byte, appended to `out`.
fn push_escaped_byte(out: &mut Vec<u8>, c: u8)
    ensures
        final(out)@ == old(out)@ + spec_escape_byte(c),
{
    let ghost pre = out@;
    if c == 34 || c == 92 {
        out.push(92);
        out.push(c);
    } else if c == 8 {
        out.push(92);
        out.push(98);
    } else if c == 12 {
        out.push(92);
        out.push(102);
    } else if c == 10 {
        out.push(92);
        out.push(110);
    } else if c == 13 {
        out.push(92);
        out.push(114);
    } else if c == 9 {
        out.push(92);
        out.push(116);
    } else {
        out.push(c);
    }
    proof {
        assert(out@ =~= pre + spec_escape_byte(c));
    }
}

/// `/…/` with embedded slashes escaped.
pub fn format_regex(val: &Vec<u8>) -> (r: Vec<u8>)
    ensures
        r@ == spec_regex_text(val@),
{
    let mut out: Vec<u8> = Vec::new();
    out.push(47);
    let mut k: usize = 0;
    while k < val.len()
        invariant
            k <= val@.len(),
            out@ == seq![47u8] + spec_escape_regex(val@.take(k as int)),
        decreases val@.len() - k,
    {
        let ghost pre = out@;
        let c = val[k];
        if c == 47 {
            out.push(92);
            out.push(47);
        } else {
            out.push(c);
        }
        proof {
            assert(val@.take(k + 1 as int).drop_last() =~= val@.take(k as int));
            assert(out@ =~= seq![47u8] + spec_escape_regex(val@.take(k + 1 as int)));
        }
        k = k + 1;
    }
    out.push(47);
    proof {
        assert(val@.take(val@.len() as int) =~= val@);
        assert(out@ =~= spec_regex_text(val@));
    }
    out
}

/// `|hh hh …|`, lowercase hex.
pub fn format_raw(val: &Vec<u8>) -> (r: Vec<u8>)
    ensures
        r@ == spec_raw_text(val@),
{
    let mut out: Vec<u8> = Vec::new();
    out.push(124);
    let mut k: usize = 0;
    while k < val.len()
        invariant
            k <= val@.len(),
            out@ == seq![124u8] + spec_hex_pairs(val@.take(k as int)),
        decreases val@.len() - k,
    {
        let ghost pre = out@;
        if k > 0 {
            out.push(32);
        }
        let b = val[k];
        let hi = b / 16;
        let lo = b % 16;
        out.push(if hi < 10 { 48 + hi } else { 87 + hi });
        out.push(if lo < 10 { 48 + lo } else { 87 + lo });
        proof {
            assert(val@.take(k + 1 as int).drop_last() =~= val@.take(k as int));
            assert(val@.take(k + 1 as int).last() == val@[k as int]);
            assert(out@ =~= seq![124u8] + spec_hex_pairs(val@.take(k + 1 as int)));
        }
        k = k + 1;
    }
    out.push(124);
    proof {
        assert(val@.take(val@.len() as int) =~= val@);
        assert(out@ =~= spec_raw_text(val@));
    }
    out
}

/// A quoted, escaped string literal.
fn format_string(val: &Vec<u8>) -> (r: Vec<u8>)
    ensures
        r@ == spec_quote_string(val@),
{
    let mut out: Vec<u8> = Vec::new();
    out.push(34);
    let mut k: usize = 0;
    while k < val.len()
        invariant
            k <= val@.len(),
            out@ == seq![34u8] + spec_escape_string(val@.take(k as int)),
        decreases val@.len() - k,
    {
        push_escaped_byte(&mut out, val[k]);
        proof {
            assert(val@.take(k + 1 as int).drop_last() =~= val@.take(k as int));
            assert(out@ =~= seq![34u8] + spec_escape_string(val@.take(k + 1 as int)));
        }
        k = k + 1;
    }
    out.push(34);
    proof {
        assert(val@.take(val@.len() as int) =~= val@);
        assert(out@ =~= spec_quote_string(val@));
    }
    out
}

impl Serialize for Value {
    open spec fn spec_fmt(&self) -> Seq<u8> {
        spec_serialize_value(self.deep_view())
    }

    fn fmt(&self) -> (r: Vec<u8>)
        ensures
            r@ == self.spec_fmt(),
    {
        match self {
            Value::String(val) => format_string(val),
            Value::Regex(val) => format_regex(val),
            Value::Number(bits) => number_to_text(*bits),
            Value::Boolean(val) => {
                let mut out: Vec<u8> = Vec::new();
                if *val {
                    push_all(&mut out, &[116, 114, 117, 101]);
                } else {
                    push_all(&mut out, &[102, 97, 108, 115, 101]);
                }
                proof {
                    assert(out@ =~= spec_bool_text(*val));
                }
                out
            },
            Value::Raw(val) => format_raw(val),
            Value::DateTime(m) => datetime_to_text(*m),
            Value::StringList(items) => {
                let ghost parts = items.deep_view().map(
                    |_i: int, s: Seq<u8>| spec_quote_string(s),
                );
                let mut out: Vec<u8> = Vec::new();
                out.push(91);
                let mut k: usize = 0;
                while k < items.len()
                    invariant
                        k <= items@.len(),
                        parts == items.deep_view().map(
                            |_i: int, s: Seq<u8>| spec_quote_string(s),
                        ),
                        parts.len() == items@.len(),
                        out@ == seq![91u8] + spec_join_parts(
                            parts.take(k as int),
                            seq![44u8, 32u8],
                        ),
                    decreases items@.len() - k,
                {
                    if k > 0 {
                        out.push(44);
                        out.push(32);
                    }
                    let piece = format_string(&items[k]);
                    push_all(&mut out, piece.as_slice());
                    proof {
                        assert(items.deep_view()[k as int] == items@[k as int]@);
                        assert(parts.take(k + 1 as int).drop_last() =~= parts.take(k as int));
                        assert(parts.take(k + 1 as int).last() == parts[k as int]);
                        assert(out@ =~= seq![91u8] + spec_join_parts(
                            parts.take(k + 1 as int),
                            seq![44u8, 32u8],
                        ));
                    }
                    k = k + 1;
                }
                out.push(93);
                proof {
                    assert(parts.take(parts.len() as int) =~= parts);
                    assert(out@ =~= spec_list_text(parts));
                }
                out
            },
            Value::NumberList(items) => {
                let ghost parts = items@.map(|_i: int, b: u64| spec_number_text(b));
                let mut out: Vec<u8> = Vec::new();
                out.push(91);
                let mut k: usize = 0;
                while k < items.len()
                    invariant
                        k <= items@.len(),
                        parts == items@.map(|_i: int, b: u64| spec_number_text(b)),
                        parts.len() == items@.len(),
                        out@ == seq![91u8] + spec_join_parts(
                            parts.take(k as int),
                            seq![44u8, 32u8],
                        ),
                    decreases items@.len() - k,
                {
                    if k > 0 {
                        out.push(44);
                        out.push(32);
                    }
                    let piece = number_to_text(items[k]);
                    push_all(&mut out, piece.as_slice());
                    proof {
                        assert(parts.take(k + 1 as int).drop_last() =~= parts.take(k as int));
                        assert(parts.take(k + 1 as int).last() == parts[k as int]);
                        assert(out@ =~= seq![91u8] + spec_join_parts(
                            parts.take(k + 1 as int),
                            seq![44u8, 32u8],
                        ));
                    }
                    k = k + 1;
                }
                out.push(93);
                proof {
                    assert(parts.take(parts.len() as int) =~= parts);
                    assert(out@ =~= spec_list_text(parts));
                }
                out
            },
            Value::BooleanList(items) => {
                let ghost parts = items@.map(|_i: int, b: bool| spec_bool_text(b));
                let mut out: Vec<u8> = Vec::new();
                out.push(91);
                let mut k: usize = 0;
                while k < items.len()
                    invariant
                        k <= items@.len(),
                        parts == items@.map(|_i: int, b: bool| spec_bool_text(b)),
                        parts.len() == items@.len(),
                        out@ == seq![91u8] + spec_join_parts(
                            parts.take(k as int),
                            seq![44u8, 32u8],
                        ),
                    decreases items@.len() - k,
                {
                    if k > 0 {
                        out.push(44);
                        out.push(32);
                    }
                    if items[k] {
                        push_all(&mut out, &[116, 114, 117, 101]);
                    } else {
                        push_all(&mut out, &[102, 97, 108, 115, 101]);
                    }
                    proof {
                        assert(parts.take(k + 1 as int).drop_last() =~= parts.take(k as int));
                        assert(parts.take(k + 1 as int).last() == parts[k as int]);
                        assert(out@ =~= seq![91u8] + spec_join_parts(
                            parts.take(k + 1 as int),
                            seq![44u8, 32u8],
                        ));
                    }
                    k = k + 1;
                }
                out.push(93);
                proof {
                    assert(parts.take(parts.len() as int) =~= parts);
                    assert(out@ =~= spec_list_text(parts));
                }
                out
            },
            Value::RawList(items) => {
                let ghost parts = items.deep_view().map(|_i: int, s: Seq<u8>| spec_raw_text(s));
                let mut out: Vec<u8> = Vec::new();
                out.push(91);
                let mut k: usize = 0;
                while k < items.len()
                    invariant
                        k <= items@.len(),
                        parts == items.deep_view().map(|_i: int, s: Seq<u8>| spec_raw_text(s)),
                        parts.len() == items@.len(),
                        out@ == seq![91u8] + spec_join_parts(
                            parts.take(k as int),
                            seq![44u8, 32u8],
                        ),
                    decreases items@.len() - k,
                {
                    if k > 0 {
                        out.push(44);
                        out.push(32);
                    }
                    let piece = format_raw(&items[k]);
                    push_all(&mut out, piece.as_slice());
                    proof {
                        assert(items.deep_view()[k as int] == items@[k as int]@);
                        assert(parts.take(k + 1 as int).drop_last() =~= parts.take(k as int));
                        assert(parts.take(k + 1 as int).last() == parts[k as int]);
                        assert(out@ =~= seq![91u8] + spec_join_parts(
                            parts.take(k + 1 as int),
                            seq![44u8, 32u8],
                        ));
                    }
                    k = k + 1;
                }
                out.push(93);
                proof {
                    assert(parts.take(parts.len() as int) =~= parts);
                    assert(out@ =~= spec_list_text(parts));
                }
                out
            },
            Value::DateTimeList(items) => {
                let ghost parts = items@.map(|_i: int, m: i64| datetime_text_of(m));
                let mut out: Vec<u8> = Vec::new();
                out.push(91);
                let mut k: usize = 0;
                while k < items.len()
                    invariant
                        k <= items@.len(),
                        parts == items@.map(|_i: int, m: i64| datetime_text_of(m)),
                        parts.len() == items@.len(),
                        out@ == seq![91u8] + spec_join_parts(
                            parts.take(k as int),
                            seq![44u8, 32u8],
                        ),
                    decreases items@.len() - k,
                {
                    if k > 0 {
                        out.push(44);
                        out.push(32);
                    }
                    let piece = datetime_to_text(items[k]);
                    push_all(&mut out, piece.as_slice());
                    proof {
                        assert(parts.take(k + 1 as int).drop_last() =~= parts.take(k as int));
                        assert(parts.take(k + 1 as int).last() == parts[k as int]);
                        assert(out@ =~= seq![91u8] + spec_join_parts(
                            parts.take(k + 1 as int),
                            seq![44u8, 32u8],
                        ));
                    }
                    k = k + 1;
                }
                out.push(93);
                proof {
                    assert(parts.take(parts.len() as int) =~= parts);
                    assert(out@ =~= spec_list_text(parts));
                }
                out
            },
            Value::Null => {
                let mut out: Vec<u8> = Vec::new();
                push_all(&mut out, &[110, 117, 108, 108]);
                proof {
                    assert(out@ =~= spec_null_text());
                }
                out
            },
        }
    }
}

impl Serialize for Literal {
    open spec fn spec_fmt(&self) -> Seq<u8> {
        spec_serialize_literal(self.deep_view())
    }

    fn fmt(&self) -> (r: Vec<u8>)
        ensures
            r@ == self.spec_fmt(),
    {
        match self {
            Literal::LiteralValue(value) => value.fmt(),
            Literal::LiteralField(field_name) => crate::schema::clone_bytes(field_name),
        }
    }
}

impl Serialize for Operator {
    open spec fn spec_fmt(&self) -> Seq<u8> {
        spec_operator_bytes(*self)
    }

    fn fmt(&self) -> (r: Vec<u8>)
        ensures
            r@ == self.spec_fmt(),
    {
        let mut out: Vec<u8> = Vec::new();
        match self {
            Operator::Eq => push_all(&mut out, &[61, 61]),
            Operator::Ne => push_all(&mut out, &[33, 61]),
            Operator::Gt => push_all(&mut out, &[62]),
            Operator::Gte => push_all(&mut out, &[62, 61]),
            Operator::Lt => push_all(&mut out, &[60]),
            Operator::Lte => push_all(&mut out, &[60, 61]),
            Operator::In => push_all(&mut out, &[73, 78]),
        }
        proof {
            assert(out@ =~= spec_operator_bytes(*self));
        }
        out
    }
}

impl Serialize for Operation {
    open spec fn spec_fmt(&self) -> Seq<u8> {
        spec_serialize_operation(self.deep_view())
    }

    fn fmt(&self) -> (r: Vec<u8>)
        ensures
            r@ == self.spec_fmt(),
    {
        let mut out = self.lhs.fmt();
        out.push(32);
        let op = self.op.fmt();
        push_all(&mut out, op.as_slice());
        out.push(32);
        let rhs = self.rhs.fmt();
        push_all(&mut out, rhs.as_slice());
        proof {
            assert(out@ =~= spec_serialize_operation(self.deep_view()));
        }
        out
    }
}

/// Serializes a subexpression list with the given separator between
/// elements, appending to `out`.
fn fmt_join(out: &mut Vec<u8>, subs: &Vec<Expression>, sep: &[u8])
    ensures
        final(out)@ == old(out)@ + spec_join_exprs(deep_view_seq(subs@), sep@),
    decreases subs,
{
    let ghost dvs = deep_view_seq(subs@);
    let mut k: usize = 0;
    while k < subs.len()
        invariant
            k <= subs@.len(),
            dvs == deep_view_seq(subs@),
            dvs.len() == subs@.len(),
            out@ == old(out)@ + spec_join_exprs(dvs.take(k as int), sep@),
        decreases subs@.len() - k,
    {
        if k > 0 {
            push_all(out, sep);
        }
        let piece = subs[k].fmt();
        push_all(out, piece.as_slice());
        proof {
            assert(dvs.take(k + 1 as int).drop_last() =~= dvs.take(k as int));
            assert(dvs.take(k + 1 as int).last() == dvs[k as int]);
            assert(dvs[k as int] == subs@[k as int].deep_view());
            assert(out@ =~= old(out)@ + spec_join_exprs(dvs.take(k + 1 as int), sep@));
        }
        k = k + 1;
    }
    proof {
        assert(dvs.take(dvs.len() as int) =~= dvs);
    }
}

impl Serialize for And {
    open spec fn spec_fmt(&self) -> Seq<u8> {
        spec_serialize_expression(self.deep_view())
    }

    fn fmt(&self) -> (r: Vec<u8>)
        ensures
            r@ == self.spec_fmt(),
        decreases self,
    {
        let mut out: Vec<u8> = Vec::new();
        out.push(40);
        fmt_join(&mut out, &self.0, &[32, 65, 78, 68, 32]);
        out.push(41);
        proof {
            assert(out@ =~= spec_serialize_expression(self.deep_view()));
        }
        out
    }
}

impl Serialize for Or {
    open spec fn spec_fmt(&self) -> Seq<u8> {
        spec_serialize_expression(self.deep_view())
    }

    fn fmt(&self) -> (r: Vec<u8>)
        ensures
            r@ == self.spec_fmt(),
        decreases self,
    {
        let mut out: Vec<u8> = Vec::new();
        out.push(40);
        fmt_join(&mut out, &self.0, &[32, 79, 82, 32]);
        out.push(41);
        proof {
            assert(out@ =~= spec_serialize_expression(self.deep_view()));
        }
        out
    }
}

impl Serialize for Not {
    open spec fn spec_fmt(&self) -> Seq<u8> {
        spec_serialize_expression(self.deep_view())
    }

    fn fmt(&self) -> (r: Vec<u8>)
        ensures
            r@ == self.spec_fmt(),
        decreases self,
    {
        let mut out: Vec<u8> = Vec::new();
        out.push(33);
        out.push(40);
        let inner = self.0.fmt();
        push_all(&mut out, inner.as_slice());
        out.push(41);
        proof {
            assert(out@ =~= spec_serialize_expression(self.deep_view()));
        }
        out
    }
}

impl Serialize for Expression {
    open spec fn spec_fmt(&self) -> Seq<u8> {
        spec_serialize_expression(self.deep_view())
    }

    fn fmt(&self) -> (r: Vec<u8>)
        ensures
            r@ == self.spec_fmt(),
        decreases self,
    {
        match self {
            Expression::And(and) => and.fmt(),
            Expression::Or(or) => or.fmt(),
            Expression::Not(not) => not.fmt(),
            Expression::Operation(operation) => operation.fmt(),
        }
    }
}

impl Expression {
    /// The canonical text of this expression, as bytes.
    pub fn serialize_bytes(&self) -> (r: Vec<u8>)
        ensures
            r@ == spec_serialize_expression(self.deep_view()),
    {
        self.fmt()
    }

    /// The canonical text of this expression. Byte values that are not
    /// valid UTF-8 (possible only in values built programmatically) are
    /// replaced as by `String::from_utf8_lossy`.
    pub fn serialize(&self) -> (r: String)
        ensures
            vstd::utf8::valid_utf8(spec_serialize_expression(self.deep_view()))
                ==> r@ == vstd::utf8::decode_utf8(spec_serialize_expression(self.deep_view())),
    {
        let bytes = self.fmt();
        bytes_to_string_lossy(bytes)
    }
}

/// Relies on `String::from_utf8_lossy`: valid UTF-8 decodes unchanged.
#[verifier::external_body]
fn bytes_to_string_lossy(v: Vec<u8>) -> (r: String)
    ensures
        vstd::utf8::valid_utf8(v@) ==> r@ == vstd::utf8::decode_utf8(v@),
{
    String::from_utf8_lossy(&v).into_owned()
}

} // verus!
