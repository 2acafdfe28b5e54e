//! Parser tests: literal forms, grouping, case-insensitivity and error
//! positions.

use expression::expression::{Expression, Literal, Operator};
use expression::number::{num_is_nan, number_from_decimal};
use expression::schema::Value;
use expression::Parser;

fn micros(text: &str) -> i64 {
    chrono::DateTime::parse_from_rfc3339(text)
        .unwrap()
        .to_utc()
        .timestamp_micros()
}

fn parse_operation(text: &str) -> (Literal, Operator, Literal) {
    match Parser::parse(text).unwrap() {
        Expression::Operation(op) => (op.lhs, op.op, op.rhs),
        other => panic!("expected an operation, got {:?}", other),
    }
}

fn rhs_value(text: &str) -> Value {
    match parse_operation(text).2 {
        Literal::LiteralValue(v) => v,
        other => panic!("expected a value literal, got {:?}", other),
    }
}

#[test]
fn parse_error_position_stays_within_input() {
    for bad in ["", "(", "(a AND)", "a ==", "1 == 2 trailing", "!()", "[1, 2]"] {
        let err = Parser::parse(bad).unwrap_err();
        assert!(err.position <= bad.len(), "position out of range for {:?}", bad);
    }
}

#[test]
fn unfinished_group_reports_the_stuck_position() {
    // `(a AND)` reads as a group sketch — a literal, then the separator —
    // that stops where its next part was expected: the closing
    // parenthesis at byte 6.
    let err = Parser::parse("(a AND)").unwrap_err();
    assert_eq!(err.position, 6);
    // Trailing content is reported where it starts.
    let err = Parser::parse("a == 1 junk").unwrap_err();
    assert_eq!(err.position, 7);
}

#[test]
fn group_separators_need_whitespace() {
    // The separator keyword must be delimited by whitespace (or the
    // closing parenthesis, on its right).
    assert!(Parser::parse("(x == 1ANDy == 2)").is_err());
    assert!(Parser::parse("(x == 1 ANDy == 2)").is_err());
    assert!(Parser::parse("(x == 1AND y == 2)").is_err());
    assert!(Parser::parse("(x == 1 AND y == 2)").is_ok());
    assert!(Parser::parse("(x == 1\tAND\ny == 2)").is_ok());
}

#[test]
fn keywords_are_case_insensitive() {
    assert!(matches!(
        rhs_value("x == null"),
        Value::Null
    ));
    assert!(matches!(rhs_value("x == NULL"), Value::Null));
    assert!(matches!(rhs_value("x == True"), Value::Boolean(true)));
    assert!(matches!(rhs_value("x == FALSE"), Value::Boolean(false)));
    let (_, op, _) = parse_operation("\"a\" In x");
    assert_eq!(op, Operator::In);
    assert!(Parser::parse("(x == 1 and y == 2)").is_ok());
    assert!(Parser::parse("(x == 1 Or y == 2)").is_ok());
}

#[test]
fn string_escapes_unescape() {
    match rhs_value(r#"x == "a\nb\t\"\\\/c""#) {
        Value::String(bytes) => assert_eq!(bytes, b"a\nb\t\"\\/c".to_vec()),
        other => panic!("expected a string, got {:?}", other),
    }
}

#[test]
fn regex_literal_unescapes_slashes() {
    match parse_operation(r#"/a\/b/ IN x"#).0 {
        Literal::LiteralValue(Value::Regex(bytes)) => assert_eq!(bytes, b"a/b".to_vec()),
        other => panic!("expected a regex, got {:?}", other),
    }
}

#[test]
fn raw_literal_reads_hex_pairs() {
    match rhs_value("x == |0a FF 07|") {
        Value::Raw(bytes) => assert_eq!(bytes, vec![0x0a, 0xff, 0x07]),
        other => panic!("expected raw bytes, got {:?}", other),
    }
    assert!(Parser::parse("x == ||").is_err());
}

#[test]
fn number_literals_parse_to_binary64() {
    for (text, value) in [
        ("0", 0.0f64),
        ("-0", -0.0f64),
        ("10", 10.0),
        ("1.5", 1.5),
        ("-2.25", -2.25),
        ("1e3", 1000.0),
        ("1.5e-2", 0.015),
        ("0.1", 0.1),
    ] {
        match rhs_value(&format!("x == {}", text)) {
            Value::Number(bits) => {
                assert_eq!(bits, value.to_bits(), "for {:?}", text);
            }
            other => panic!("expected a number for {:?}, got {:?}", text, other),
        }
    }
    // A leading zero ends the integer part: "01" is not one number token.
    assert!(Parser::parse("x == 01").is_err());
}

#[test]
fn datetime_literals_normalize_to_utc() {
    match rhs_value("x == 1999-07-13T12:30:00+02:00") {
        Value::DateTime(m) => assert_eq!(m, micros("1999-07-13T10:30:00Z")),
        other => panic!("expected a datetime, got {:?}", other),
    }
    match rhs_value("x == 1999-07-13T00:00:00.25Z") {
        Value::DateTime(m) => assert_eq!(m, micros("1999-07-13T00:00:00.250Z")),
        other => panic!("expected a datetime, got {:?}", other),
    }
    // A shape-valid token that names no real instant is rejected.
    assert!(Parser::parse("x == 1999-13-45T99:99:99Z").is_err());
}

#[test]
fn list_literals_parse_per_element() {
    match rhs_value(r#"x == ["a", "b"]"#) {
        Value::StringList(items) => {
            assert_eq!(items, vec![b"a".to_vec(), b"b".to_vec()]);
        }
        other => panic!("expected a string list, got {:?}", other),
    }
    match rhs_value("x == [|01|, |02 03|]") {
        Value::RawList(items) => {
            assert_eq!(items, vec![vec![0x01], vec![0x02, 0x03]]);
        }
        other => panic!("expected a raw list, got {:?}", other),
    }
    match rhs_value("x == [1990-01-01T00:00:00Z]") {
        Value::DateTimeList(items) => {
            assert_eq!(items, vec![micros("1990-01-01T00:00:00Z")]);
        }
        other => panic!("expected a datetime list, got {:?}", other),
    }
    match rhs_value("x == [1, 2.5]") {
        Value::NumberList(items) => {
            assert_eq!(items, vec![1.0f64.to_bits(), 2.5f64.to_bits()]);
        }
        other => panic!("expected a number list, got {:?}", other),
    }
    // Lists need at least one element.
    assert!(Parser::parse("x == []").is_err());
}

#[test]
fn reserved_words_do_not_become_fields() {
    // `null`, `true` and `false` are committed before field references,
    // so a field name cannot begin that way.
    assert!(Parser::parse("null == x").is_ok());
    assert!(Parser::parse("nullx == 1").is_err());
    match parse_operation("x == y").2 {
        Literal::LiteralField(name) => assert_eq!(name, b"y".to_vec()),
        other => panic!("expected a field, got {:?}", other),
    }
}

#[test]
fn group_separator_is_optional_after_the_first() {
    let parsed = Parser::parse("(a == 1 AND b == 2 c == 3)").unwrap();
    match parsed {
        Expression::And(and) => assert_eq!(and.get_subexpressions().len(), 3),
        other => panic!("expected a conjunction, got {:?}", other),
    }
    // But the first separator is mandatory: arity one is unreachable
    // through the parser.
    assert!(Parser::parse("(a == 1)").is_err());
    // A dangling separator before the closing parenthesis is tolerated.
    let parsed = Parser::parse("(a == 1 AND b == 2 AND)").unwrap();
    match parsed {
        Expression::And(and) => assert_eq!(and.get_subexpressions().len(), 2),
        other => panic!("expected a conjunction, got {:?}", other),
    }
}

#[test]
fn expression_trees_clone_deeply() {
    let parsed = Parser::parse("((a == 1 OR b == 2) AND !(c == [1, 2]))").unwrap();
    let copy = parsed.clone();
    assert_eq!(format!("{:?}", parsed), format!("{:?}", copy));
    assert_eq!(parsed.serialize(), copy.serialize());
}

#[test]
fn decimal_tokens_convert_through_the_public_door() {
    assert_eq!(number_from_decimal(b"10"), Some(10.0f64.to_bits()));
    assert_eq!(number_from_decimal(b"-2.25"), Some((-2.25f64).to_bits()));
    assert_eq!(number_from_decimal(b"1e3"), Some(1000.0f64.to_bits()));
    assert_eq!(number_from_decimal(b"ten"), None);
    assert_eq!(number_from_decimal(b"1.5 "), None);
    assert!(!num_is_nan(number_from_decimal(b"0").unwrap()));
}

#[test]
fn groups_nest_and_stay_homogeneous() {
    let parsed = Parser::parse("((a == 1 OR b == 2) AND !(c == 3))").unwrap();
    match parsed {
        Expression::And(and) => {
            let subs = and.get_subexpressions();
            assert_eq!(subs.len(), 2);
            assert!(matches!(subs[0], Expression::Or(_)));
            assert!(matches!(subs[1], Expression::Not(_)));
        }
        other => panic!("expected a conjunction, got {:?}", other),
    }
    // Leading and trailing whitespace are insignificant.
    assert!(Parser::parse("  a == 1\t\r\n").is_ok());
}
