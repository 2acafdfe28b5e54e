//! Scenario tests: schema building, validation and execution.

use expression::engine::{ExecutionError, InvalidOperatorError, ValidationError};
use expression::expression::{And, Expression, Literal, Not, Operation, Operator};
use expression::schema::{FieldValues, SchemaBuilder, Type, Value};
use expression::{Engine, Parser};

/// A record with one field of every kind the engine supports.
#[derive(Clone)]
struct Person {
    name: String,
    age: f64,
    birthday_micros: i64,
    street_name: Option<String>,
    num_list: Vec<f64>,
    tag: Vec<u8>,
}

/// Snapshots a person into the engine's field-value form.
fn target(p: &Person) -> FieldValues {
    let mut values = FieldValues::new()
        .with_value("name", Value::String(p.name.as_bytes().to_vec()))
        .with_value("age", Value::Number(p.age.to_bits()))
        .with_value("birthday", Value::DateTime(p.birthday_micros))
        .with_value(
            "num_list",
            Value::NumberList(p.num_list.iter().map(|n| n.to_bits()).collect()),
        )
        .with_value("tag", Value::Raw(p.tag.clone()));
    if let Some(street) = &p.street_name {
        values = values.with_value(
            "address:street_info:street_name",
            Value::String(street.as_bytes().to_vec()),
        );
    }
    values
}

fn micros(text: &str) -> i64 {
    chrono::DateTime::parse_from_rfc3339(text)
        .unwrap()
        .to_utc()
        .timestamp_micros()
}

fn person_engine() -> Engine {
    let schema = SchemaBuilder::new()
        .with_string_field("name")
        .with_number_field("age")
        .with_datetime_field("birthday")
        .with_string_field("address:street_info:street_name")
        .with_number_list_field("num_list")
        .with_raw_field("tag")
        .build();
    Engine::new(schema)
}

fn jeff() -> Person {
    Person {
        name: "Jeff".to_string(),
        age: 25.0,
        birthday_micros: micros("1999-07-13T00:00:00Z"),
        street_name: Some("Funny Rd.".to_string()),
        num_list: vec![1.0, 2.0, 3.0],
        tag: vec![0x01, 0x02, 0x03],
    }
}

fn run(engine: &Engine, text: &str, person: &Person) -> bool {
    let expr = Parser::parse(text).unwrap();
    engine.validate(&expr).unwrap();
    engine.execute(&expr, &target(person)).unwrap()
}

#[test]
fn datetime_range_inclusive_start_exclusive_end() {
    let engine = person_engine();
    let expr = "birthday in [1990-01-01T00:00:00Z, 2000-01-01T00:00:00Z]";
    let mut p = jeff();
    assert!(run(&engine, expr, &p));
    p.birthday_micros = micros("2000-01-01T00:00:00Z");
    assert!(!run(&engine, expr, &p));
    p.birthday_micros = micros("1990-01-01T00:00:00Z");
    assert!(run(&engine, expr, &p));
}

#[test]
fn nested_path_resolves_or_yields_null() {
    let engine = person_engine();
    let expr = r#"address:street_info:street_name == "Funny Rd.""#;
    let mut p = jeff();
    assert!(run(&engine, expr, &p));
    p.street_name = None;
    assert!(!run(&engine, expr, &p));
}

#[test]
fn regex_membership() {
    let engine = person_engine();
    let expr = "/[Jj].../ IN name";
    let mut p = jeff();
    assert!(run(&engine, expr, &p));
    p.name = "Bob".to_string();
    assert!(!run(&engine, expr, &p));
}

#[test]
fn substring_membership() {
    let engine = person_engine();
    let mut p = jeff();
    p.name = "Foobar".to_string();
    assert!(run(&engine, "\"oo\" IN name", &p));
    assert!(!run(&engine, "\"xy\" IN name", &p));
}

#[test]
fn list_equality_is_ordered() {
    let engine = person_engine();
    let mut p = jeff();
    assert!(run(&engine, "num_list == [1, 2, 3]", &p));
    p.num_list = vec![1.0, 3.0, 2.0];
    assert!(!run(&engine, "num_list == [1, 2, 3]", &p));
    assert!(run(&engine, "num_list != [1, 2, 3]", &p));
}

#[test]
fn validation_rejects_mismatched_operand_types() {
    let engine = person_engine();
    let expr = Parser::parse("age > \"x\"").unwrap();
    match engine.validate(&expr) {
        Err(ValidationError::InvalidOperatorError(e)) => {
            assert_eq!(e, InvalidOperatorError(Type::Number, Operator::Gt, Type::String));
            assert_eq!(e.message(), "Cannot check if Number > String");
        }
        other => panic!("expected an invalid-operator error, got {:?}", other),
    }
}

#[test]
fn validation_rejects_unknown_fields() {
    let engine = person_engine();
    let expr = Parser::parse("unknown == 1").unwrap();
    match engine.validate(&expr) {
        Err(ValidationError::InvalidFieldError(name)) => {
            assert_eq!(name, b"unknown".to_vec());
        }
        other => panic!("expected an invalid-field error, got {:?}", other),
    }
    match engine.execute(&expr, &target(&jeff())) {
        Err(ExecutionError::InvalidFieldError(name)) => {
            assert_eq!(name, b"unknown".to_vec());
        }
        other => panic!("expected an invalid-field error, got {:?}", other),
    }
}

#[test]
fn datetime_range_needs_exactly_two_bounds() {
    let engine = person_engine();
    let expr = Parser::parse(
        "birthday in [1990-01-01T00:00:00Z, 2000-01-01T00:00:00Z, 2010-01-01T00:00:00Z]",
    )
    .unwrap();
    engine.validate(&expr).unwrap();
    match engine.execute(&expr, &target(&jeff())) {
        Err(ExecutionError::InvalidDateRangeError) => {}
        other => panic!("expected an invalid-date-range error, got {:?}", other),
    }
}

#[test]
fn invalid_regex_surfaces_as_execution_error() {
    let engine = person_engine();
    let expr = Parser::parse("/[/ IN name").unwrap();
    engine.validate(&expr).unwrap();
    match engine.execute(&expr, &target(&jeff())) {
        Err(ExecutionError::InvalidRegexError) => {}
        other => panic!("expected an invalid-regex error, got {:?}", other),
    }
}

#[test]
fn executor_is_defensive_about_misdeclared_targets() {
    // A target that holds a string under a field declared as a number.
    let rogue = FieldValues::new().with_value("age", Value::String(b"not a number".to_vec()));
    let engine = Engine::new(SchemaBuilder::new().with_number_field("age").build());
    let expr = Parser::parse("age > 3").unwrap();
    engine.validate(&expr).unwrap();
    match engine.execute(&expr, &rogue) {
        Err(ExecutionError::InvalidOperatorError(_)) => {}
        other => panic!("expected an invalid-operator error, got {:?}", other),
    }
}

#[test]
fn null_comparisons_are_symmetric() {
    let engine = person_engine();
    let mut p = jeff();
    p.street_name = None;
    // Absent field against the null literal, both ways.
    assert!(run(&engine, "address:street_info:street_name == null", &p));
    assert!(run(&engine, "null == address:street_info:street_name", &p));
    assert!(!run(&engine, "address:street_info:street_name != null", &p));
    assert!(!run(&engine, "null != address:street_info:street_name", &p));
    // Present field against the null literal, both ways.
    assert!(!run(&engine, "name == null", &p));
    assert!(!run(&engine, "null == name", &p));
    assert!(run(&engine, "name != null", &p));
    assert!(run(&engine, "null != name", &p));
}

#[test]
fn double_negation_and_singleton_groups() {
    let engine = person_engine();
    let p = jeff();
    let values = target(&p);
    let inner = Parser::parse("name == \"Jeff\"").unwrap();
    let plain = engine.execute(&inner, &values).unwrap();
    let double = Expression::Not(Not::new(Expression::Not(Not::new(
        Parser::parse("name == \"Jeff\"").unwrap(),
    ))));
    assert_eq!(engine.execute(&double, &values).unwrap(), plain);
    let single_and = Expression::And(And::new(vec![Parser::parse("name == \"Jeff\"").unwrap()]));
    assert_eq!(engine.execute(&single_and, &values).unwrap(), plain);
}

#[test]
fn execution_is_repeatable() {
    let engine = person_engine();
    let p = jeff();
    let values = target(&p);
    let expr = Parser::parse("(name == \"Jeff\" AND age >= 10)").unwrap();
    let first = engine.execute(&expr, &values).unwrap();
    for _ in 0..3 {
        assert_eq!(engine.execute(&expr, &values).unwrap(), first);
    }
    assert!(first);
}

#[test]
fn and_or_short_circuit_and_boolean_dispatch() {
    let engine = person_engine();
    let p = jeff();
    assert!(run(&engine, "(name == \"Jeff\" AND age == 25)", &p));
    assert!(!run(&engine, "(name == \"Jeff\" AND age == 26)", &p));
    assert!(run(&engine, "(name == \"Bob\" OR age == 25)", &p));
    assert!(!run(&engine, "(name == \"Bob\" OR age == 26)", &p));
    assert!(run(&engine, "!(name == \"Bob\")", &p));
    assert!(run(&engine, "true == true", &p));
    assert!(!run(&engine, "true != TRUE", &p));
}

#[test]
fn raw_values_compare_and_contain() {
    let engine = person_engine();
    let p = jeff();
    assert!(run(&engine, "tag == |01 02 03|", &p));
    assert!(!run(&engine, "tag == |01 02|", &p));
    // lhs IN rhs: the literal is a contiguous run of the field's bytes.
    assert!(run(&engine, "|02 03| IN tag", &p));
    assert!(!run(&engine, "|03 02| IN tag", &p));
}

#[test]
fn number_comparisons_follow_ieee() {
    let engine = person_engine();
    let p = jeff();
    assert!(run(&engine, "age >= 25", &p));
    assert!(run(&engine, "age <= 25", &p));
    assert!(!run(&engine, "age < 25", &p));
    assert!(run(&engine, "age > 24.5", &p));
    assert!(run(&engine, "age in [24, 25, 26]", &p));
    assert!(!run(&engine, "age in [24, 26]", &p));
    // NaN compares unequal to everything, itself included.
    let values = target(&p);
    let nan = || Literal::LiteralValue(Value::Number(f64::NAN.to_bits()));
    let expr = Expression::Operation(Operation::new(nan(), Operator::Eq, nan()));
    assert!(!engine.execute(&expr, &values).unwrap());
    let expr = Expression::Operation(Operation::new(nan(), Operator::Ne, nan()));
    assert!(engine.execute(&expr, &values).unwrap());
    // The two zeroes are equal.
    let pz = Literal::LiteralValue(Value::Number(0.0f64.to_bits()));
    let nz = Literal::LiteralValue(Value::Number((-0.0f64).to_bits()));
    let expr = Expression::Operation(Operation::new(pz, Operator::Eq, nz));
    assert!(engine.execute(&expr, &values).unwrap());
}

#[test]
fn sub_schemas_flatten_under_their_prefix() {
    let street_info = SchemaBuilder::new()
        .with_string_field("street_name")
        .with_number_field("house_number")
        .build();
    let address = SchemaBuilder::new()
        .with_sub_field("street_info", &street_info)
        .build();
    let schema = SchemaBuilder::new()
        .with_string_field("name")
        .with_sub_field("address", &address)
        .build();
    assert_eq!(
        schema
            .get_field("address:street_info:street_name")
            .unwrap()
            .field_type,
        Type::String
    );
    assert_eq!(
        schema
            .get_field("address:street_info:house_number")
            .unwrap()
            .field_type,
        Type::Number
    );
    assert!(schema.get_field("street_name").is_none());
    assert!(schema.get_field("address:street_name").is_none());

    // The flattened schema drives validation and execution as usual.
    let engine = Engine::new(schema);
    let expr = Parser::parse("address:street_info:street_name == \"Funny Rd.\"").unwrap();
    engine.validate(&expr).unwrap();
    let values = FieldValues::new().with_value(
        "address:street_info:street_name",
        Value::String(b"Funny Rd.".to_vec()),
    );
    assert!(engine.execute(&expr, &values).unwrap());
}

#[test]
fn builder_overwrites_repeated_names() {
    let schema = SchemaBuilder::new()
        .with_string_field("x")
        .with_number_field("x")
        .build();
    let field = schema.get_field("x").unwrap();
    assert_eq!(field.field_type, Type::Number);
    assert!(schema.get_field("y").is_none());
}
