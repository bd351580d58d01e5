//! Inference from an already materialized generic JSON tree.

use json_shape::JsonShape;
use json_shape::JsonValue;
use json_shape::JsonVisitor;
use json_shape::Value;

fn jnum(text: &str) -> JsonValue {
    JsonValue::Number(text.to_string())
}

fn jstr(text: &str) -> JsonValue {
    JsonValue::String(text.to_string())
}

fn jobj(pairs: Vec<(&str, JsonValue)>) -> JsonValue {
    JsonValue::Object(pairs.into_iter().map(|(k, v)| (k.to_string(), v)).collect())
}

fn obj(pairs: Vec<(&str, Value)>, optional: bool) -> Value {
    Value::object(
        pairs.into_iter().map(|(k, v)| (k.to_string(), v)).collect(),
        optional,
    )
}

#[test]
fn test_from_json_null() {
    let json = JsonValue::Null;
    let ref_shape = JsonShape::from(&json);
    let shape = JsonShape::from(&json);
    assert_eq!(shape, JsonShape::Null);
    assert_eq!(ref_shape, JsonShape::Null);
}

#[test]
fn test_from_json_number() {
    let json = jnum("123.456");
    let ref_shape = JsonShape::from(&json);
    let shape = JsonShape::from(&json);
    assert_eq!(shape, JsonShape::Number { optional: false });
    assert_eq!(ref_shape, JsonShape::Number { optional: false });
}

#[test]
fn test_from_json_string() {
    let json = jstr("string");
    let ref_shape = JsonShape::from(&json);
    let shape = JsonShape::from(&json);
    assert_eq!(shape, JsonShape::String { optional: false });
    assert_eq!(ref_shape, JsonShape::String { optional: false });
}

#[test]
fn test_from_json_bool() {
    let json = JsonValue::Bool(true);
    let ref_shape = JsonShape::from(&json);
    let shape = JsonShape::from(&json);
    assert_eq!(shape, JsonShape::Bool { optional: false });
    assert_eq!(ref_shape, JsonShape::Bool { optional: false });
}

#[test]
fn test_from_json_array() {
    let json = JsonValue::Array(vec![jnum("1"), jnum("2"), jnum("3")]);
    let ref_shape = JsonShape::from(&json);
    let shape = JsonShape::from(&json);
    assert_eq!(
        shape,
        JsonShape::Array {
            element: Box::new(JsonShape::Number { optional: false }),
            optional: false
        }
    );
    assert_eq!(
        ref_shape,
        JsonShape::Array {
            element: Box::new(JsonShape::Number { optional: false }),
            optional: false
        }
    );
}

#[test]
fn test_from_json_tuple() {
    let json = JsonValue::Array(vec![
        jnum("1"),
        jstr("string"),
        JsonValue::Bool(true),
        JsonValue::Null,
    ]);
    let ref_shape = JsonShape::from(&json);
    let shape = JsonShape::from(&json);
    let expected = JsonShape::Tuple {
        elements: vec![
            JsonShape::Number { optional: false },
            JsonShape::String { optional: false },
            JsonShape::Bool { optional: false },
            JsonShape::Null,
        ],
        optional: false,
    };
    assert_eq!(shape, expected);
    assert_eq!(ref_shape, expected);
}

#[test]
fn from_value_null() {
    let value = JsonValue::Null;
    let visitor = JsonVisitor::from(&value);
    assert!(matches!(visitor.value(), JsonValue::Null));
    assert_eq!(visitor.shape(), &JsonShape::Null);
}

#[test]
fn from_value_number() {
    let value = jnum("3");
    let visitor = JsonVisitor::from(&value);
    assert!(matches!(visitor.value(), JsonValue::Number(_)));
    assert_eq!(visitor.shape(), &JsonShape::Number { optional: false });
}

#[test]
fn tree_and_text_inference_agree_on_records() {
    let tree = jobj(vec![
        ("a", jnum("1")),
        ("b", jstr("x")),
        ("c", JsonValue::Array(vec![jnum("1"), jnum("2")])),
    ]);
    let from_tree = JsonShape::from(&tree);
    let from_text = JsonShape::from_str("{\"a\": 1, \"b\": \"x\", \"c\": [1, 2]}").unwrap();
    assert_eq!(from_tree, from_text);
}

#[test]
fn tree_inference_widens_arrays_of_records() {
    let tree = JsonValue::Array(vec![
        jobj(vec![("a", jnum("1")), ("b", jstr("s"))]),
        jobj(vec![("a", jnum("2")), ("c", JsonValue::Bool(true))]),
    ]);
    let shape = JsonShape::from(&tree);
    assert_eq!(
        shape,
        JsonShape::Array {
            element: Box::new(obj(
                vec![
                    ("a", JsonShape::Number { optional: false }),
                    ("b", JsonShape::String { optional: true }),
                    ("c", JsonShape::Bool { optional: true })
                ],
                false
            )),
            optional: false
        }
    );
}

#[test]
fn tree_inference_keeps_empty_array_placeholder() {
    let tree = JsonValue::Array(vec![]);
    let shape = JsonShape::from(&tree);
    assert_eq!(
        shape,
        JsonShape::Array {
            element: Box::new(JsonShape::Null),
            optional: true
        }
    );
}
