//! Inference from parsed source text, value by value.

use json_shape::error::Error;
use json_shape::parser::Parser;
use json_shape::shape::parse_cst;
use json_shape::Value;

fn obj(pairs: Vec<(&str, Value)>, optional: bool) -> Value {
    Value::object(
        pairs.into_iter().map(|(k, v)| (k.to_string(), v)).collect(),
        optional,
    )
}

fn parse(source: &str) -> Result<Value, Error> {
    let cst = Parser::parse(source);
    parse_cst(&cst, source)
}

#[test]
fn parse_null() {
    let source = "null";
    let value = parse(source).unwrap();
    assert_eq!(value, Value::Null);
}

#[test]
fn parse_number() {
    let source = "123";
    let value = parse(source).unwrap();
    assert_eq!(value, Value::Number { optional: false });
}

#[test]
fn parse_string() {
    let source = "\"123\"";
    let value = parse(source).unwrap();
    assert_eq!(value, Value::String { optional: false });
}

#[test]
fn parse_bool() {
    let source = "true";
    let value = parse(source).unwrap();
    assert_eq!(value, Value::Bool { optional: false });
}

#[test]
fn parse_array() {
    let source = "[12, 34, 56, 78]";
    let value = parse(source).unwrap();
    assert_eq!(
        value,
        Value::Array {
            element: Box::new(Value::Number { optional: false }),
            optional: false
        }
    );
}

#[test]
fn parse_array_other() {
    let source = "[true, false, true]";
    let value = parse(source).unwrap();
    assert_eq!(
        value,
        Value::Array {
            element: Box::new(Value::Bool { optional: false }),
            optional: false
        }
    );
}

#[test]
fn parse_tuple() {
    let source = "[12, true, \"str\"]";
    let value = parse(source).unwrap();
    assert_eq!(
        value,
        Value::Tuple {
            elements: vec![
                Value::Number { optional: false },
                Value::Bool { optional: false },
                Value::String { optional: false }
            ],
            optional: false
        }
    );
}

#[test]
fn parse_object() {
    let source = "{\"key\": 123, \"key2\": true}";
    let value = parse(source).unwrap();
    assert_eq!(
        value,
        obj(
            vec![
                ("key", Value::Number { optional: false }),
                ("key2", Value::Bool { optional: false })
            ],
            false
        )
    );
}

#[test]
fn parse_array_of_objects_diff() {
    let source = "[{\"a\": 1}, {\"b\": 2}, {\"c\": 3}, {}]";
    let value = parse(source).unwrap();
    assert_eq!(
        value,
        Value::Array {
            element: Box::new(obj(
                vec![
                    ("a", Value::Number { optional: true }),
                    ("b", Value::Number { optional: true }),
                    ("c", Value::Number { optional: true })
                ],
                false
            )),
            optional: false
        }
    );
}

#[test]
fn parse_array_of_objects_same() {
    let source = "[{\"a\": 1}, {\"a\": 2}, {\"a\": 3}]";
    let value = parse(source).unwrap();
    assert_eq!(
        value,
        Value::Array {
            element: Box::new(obj(vec![("a", Value::Number { optional: false })], false)),
            optional: false
        }
    );
}

#[test]
fn parse_array_of_objects_diff_single_key() {
    let source = "[{\"a\": 1}, {\"a\": 4, \"b\": 2}, {\"a\" : 5, \"c\": 3}]";
    let value = parse(source).unwrap();
    assert_eq!(
        value,
        Value::Array {
            element: Box::new(obj(
                vec![
                    ("a", Value::Number { optional: false }),
                    ("b", Value::Number { optional: true }),
                    ("c", Value::Number { optional: true })
                ],
                false
            )),
            optional: false
        }
    );
}

#[test]
fn parse_array_of_emptyobject() {
    let source = "[{}]";
    let value = parse(source).unwrap();
    assert_eq!(
        value,
        Value::Array {
            element: Box::new(obj(vec![], false)),
            optional: false
        }
    );
}

#[test]
fn parse_multiple_roots() {
    let source = "123 true \"str\"";
    let err = parse(source).unwrap_err();
    assert_eq!(err.message(), "invalid JSON `true \"str\"`: 4..14");
}

#[test]
fn parse_only_ws() {
    let source = "         ";
    let err = parse(source).unwrap_err();
    assert_eq!(err.message(), "invalid JSON `         `: 0..9");
}

#[test]
fn parse_only_mismatch() {
    let source = "{ 123: 123 }";
    let err = parse(source).unwrap_err();
    assert_eq!(err.message(), "invalid JSON `123: 123 }`: 2..12");
}

#[test]
fn parse_only_mismatch_unterminated_key() {
    let source = "{ \"123: 123 }";
    let err = parse(source).unwrap_err();
    assert_eq!(err.message(), "invalid JSON `\"123: 123 }`: 2..13");
}

#[test]
fn parse_unterminated_string() {
    let source = "\"123";
    let err = parse(source).unwrap_err();
    assert_eq!(err.message(), "invalid JSON `\"123`: 0..4");
}

#[test]
fn parse_uninit_string() {
    let source = "123\"";
    let err = parse(source).unwrap_err();
    assert_eq!(err.message(), "invalid JSON `\"`: 3..4");
}

#[test]
fn parse_invalid_number() {
    let source = "123..43";
    let err = parse(source).unwrap_err();
    assert_eq!(err.message(), "invalid JSON `.`: 3..4");
}

#[test]
fn parse_object_key_is_the_text_between_the_quotes() {
    // A member key is taken as written in the source, quotes stripped and
    // escape sequences kept: `a\nb` here is four characters.
    let source = r#"{"a\nb": 1}"#;
    let value = parse(source).unwrap();
    let expected = obj(
        vec![("a\\nb", Value::Number { optional: false })],
        false,
    );
    assert_eq!(value, expected);
}
