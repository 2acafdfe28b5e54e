//! Serializer tests: canonical text and the parse/serialize round trip.

use expression::expression::{Expression, Literal, Operation, Operator};
use expression::schema::Value;
use expression::serialize::{format_raw, format_regex, Serialize};
use expression::Parser;

fn micros(text: &str) -> i64 {
    chrono::DateTime::parse_from_rfc3339(text)
        .unwrap()
        .to_utc()
        .timestamp_micros()
}

fn value_expr(v: Value) -> Expression {
    Expression::Operation(Operation::new(
        Literal::LiteralField(b"x".to_vec()),
        Operator::Eq,
        Literal::LiteralValue(v),
    ))
}

#[test]
fn canonical_text_of_each_value_kind() {
    assert_eq!(value_expr(Value::Null).serialize(), "x == null");
    assert_eq!(value_expr(Value::Boolean(true)).serialize(), "x == true");
    assert_eq!(value_expr(Value::Boolean(false)).serialize(), "x == false");
    assert_eq!(
        value_expr(Value::String(b"a\nb".to_vec())).serialize(),
        "x == \"a\\nb\""
    );
    assert_eq!(
        value_expr(Value::Regex(b"a/b".to_vec())).serialize(),
        "x == /a\\/b/"
    );
    assert_eq!(
        value_expr(Value::Raw(vec![0x0a, 0xff])).serialize(),
        "x == |0a ff|"
    );
    assert_eq!(value_expr(Value::Number(10.0f64.to_bits())).serialize(), "x == 10");
    assert_eq!(value_expr(Value::Number(1.5f64.to_bits())).serialize(), "x == 1.5");
    assert_eq!(
        value_expr(Value::Number((-2.25f64).to_bits())).serialize(),
        "x == -2.25"
    );
    // The shortest decimal that round-trips, not a fixed digit count.
    assert_eq!(value_expr(Value::Number(0.1f64.to_bits())).serialize(), "x == 0.1");
    assert_eq!(value_expr(Value::Number(0.3f64.to_bits())).serialize(), "x == 0.3");
    assert_eq!(
        value_expr(Value::Number(0.015f64.to_bits())).serialize(),
        "x == 0.015"
    );
    assert_eq!(
        value_expr(Value::Number(1e21f64.to_bits())).serialize(),
        "x == 1.0E+21"
    );
    assert_eq!(
        value_expr(Value::DateTime(micros("1999-07-13T00:00:00Z"))).serialize(),
        "x == 1999-07-13T00:00:00Z"
    );
    assert_eq!(
        value_expr(Value::DateTime(micros("1999-07-13T00:00:00.250Z"))).serialize(),
        "x == 1999-07-13T00:00:00.250Z"
    );
    assert_eq!(
        value_expr(Value::StringList(vec![b"a".to_vec(), b"b".to_vec()])).serialize(),
        "x == [\"a\", \"b\"]"
    );
    assert_eq!(
        value_expr(Value::NumberList(vec![
            1.0f64.to_bits(),
            2.0f64.to_bits(),
            3.0f64.to_bits()
        ]))
        .serialize(),
        "x == [1, 2, 3]"
    );
    assert_eq!(
        value_expr(Value::BooleanList(vec![true, false])).serialize(),
        "x == [true, false]"
    );
    assert_eq!(
        value_expr(Value::RawList(vec![vec![0x01], vec![0x02, 0x03]])).serialize(),
        "x == [|01|, |02 03|]"
    );
}

#[test]
fn operators_and_groups_print_canonically() {
    let text = "(name == \"a\" AND age >= 10)";
    let parsed = Parser::parse(text).unwrap();
    assert_eq!(parsed.serialize(), text);
    let or_text = "(a < 1 OR b > 2 OR c != 3)";
    assert_eq!(Parser::parse(or_text).unwrap().serialize(), or_text);
    let not_text = "!(a <= 1)";
    assert_eq!(Parser::parse(not_text).unwrap().serialize(), not_text);
    assert_eq!(Operator::In.fmt_static(), "IN");
    assert_eq!(Operator::Gte.fmt_static(), ">=");
}

#[test]
fn round_trip_preserves_the_tree() {
    for text in [
        "(name == \"a\" AND age >= 10)",
        "x == 0.1",
        "(x in [1, 2.5, -3e2] OR y != null)",
        "!(tag == |0a 0b|)",
        "/[Jj].../ IN name",
        "((a == 1 OR b == 2) AND !(c == true))",
        "birthday in [1990-01-01T00:00:00Z, 2000-01-01T00:00:00Z]",
        "x == \"quote \\\" backslash \\\\ tab \\t\"",
        "lower in UPPER_case:sub9",
    ] {
        let first = Parser::parse(text).unwrap();
        let printed = first.serialize();
        let second = Parser::parse(&printed).unwrap();
        assert_eq!(
            format!("{:?}", first),
            format!("{:?}", second),
            "round trip changed the tree for {:?}",
            text
        );
        // The canonical form is a fixed point.
        assert_eq!(second.serialize(), printed);
    }
}

#[test]
fn case_normalizes_on_round_trip() {
    // Lowercase keywords and uppercase hex come out canonical.
    let parsed = Parser::parse("(x == TRUE and y == |AB CD| and z == NULL)").unwrap();
    assert_eq!(
        parsed.serialize(),
        "(x == true AND y == |ab cd| AND z == null)"
    );
}

#[test]
fn formatting_helpers_escape_and_hex() {
    assert_eq!(format_regex(&b"a/b/c".to_vec()), b"/a\\/b\\/c/".to_vec());
    assert_eq!(format_regex(&b"plain".to_vec()), b"/plain/".to_vec());
    assert_eq!(format_raw(&vec![0x00, 0x7f, 0xa5]), b"|00 7f a5|".to_vec());
    assert_eq!(format_raw(&Vec::new()), b"||".to_vec());
    let bytes = value_expr(Value::Boolean(true)).fmt();
    assert_eq!(bytes, b"x == true".to_vec());
}
