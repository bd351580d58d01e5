//! Concrete end-to-end scenarios of inference, merging and subsumption.

use json_shape::error::Error;
use json_shape::IsSubset;
use json_shape::JsonShape;
use json_shape::Value;

fn obj(pairs: Vec<(&str, Value)>, optional: bool) -> Value {
    Value::object(
        pairs.into_iter().map(|(k, v)| (k.to_string(), v)).collect(),
        optional,
    )
}

fn one(variants: Vec<Value>, optional: bool) -> Value {
    Value::one_of(variants, optional)
}

#[test]
fn numbers_array_infers_to_array_of_number() {
    let shape = JsonShape::from_str("[12, 34, 56]").unwrap();
    assert_eq!(
        shape,
        JsonShape::Array {
            element: Box::new(JsonShape::Number { optional: false }),
            optional: false
        }
    );
}

#[test]
fn merging_a_record_with_a_null_field_makes_it_optional() {
    let shape = JsonShape::from_sources(&["{\"a\":1}", "{\"a\":null}"]).unwrap();
    assert_eq!(
        shape,
        obj(vec![("a", JsonShape::Number { optional: true })], false)
    );
}

#[test]
fn merging_mixed_arrays_collapses_into_a_union_element() {
    let shape = JsonShape::from_sources(&["[1,2,3]", "[\"string\", true]"]).unwrap();
    assert_eq!(
        shape,
        JsonShape::Array {
            element: Box::new(one(
                vec![
                    JsonShape::Bool { optional: false },
                    JsonShape::Number { optional: false },
                    JsonShape::String { optional: false }
                ],
                false
            )),
            optional: false
        }
    );
}

#[test]
fn malformed_source_reports_the_offending_span() {
    let err = JsonShape::from_str("{ invalid json }").unwrap_err();
    match err {
        Error::InvalidJson { value, span } => {
            assert_eq!(value, "invalid");
            assert_eq!(span, (2, 9));
        }
        other => panic!("expected InvalidJson, got {other:?}"),
    }
}

#[test]
fn merging_zero_documents_is_the_empty_file_error() {
    let sources: [&str; 0] = [];
    assert_eq!(
        JsonShape::from_sources(&sources).unwrap_err(),
        Error::EmptyFile
    );
}

#[test]
fn inferred_record_is_subset_of_a_union_with_that_record() {
    let inferred = JsonShape::from_str("{\"number\":1,\"state\":\"x\"}").unwrap();
    let reference = one(
        vec![
            obj(
                vec![
                    ("number", JsonShape::Number { optional: false }),
                    ("state", JsonShape::String { optional: false }),
                ],
                false,
            ),
            JsonShape::Array {
                element: Box::new(JsonShape::Number { optional: false }),
                optional: false,
            },
        ],
        false,
    );
    assert!(inferred.is_subset(&reference));
}

#[test]
fn every_inferred_shape_is_its_own_superset() {
    let sources = [
        "null",
        "true",
        "12.5",
        "\"text\"",
        "[1, 2]",
        "[1, \"two\", null]",
        "{\"a\": [1], \"b\": {\"c\": null}}",
    ];
    for source in sources {
        let shape = JsonShape::from_str(source).unwrap();
        assert!(shape.is_superset(source), "failed for {source}");
    }
}

#[test]
fn optional_widening_keeps_subsets_for_non_union_targets() {
    let s = JsonShape::from_str("{\"a\": 1}").unwrap();
    let t = obj(vec![("a", JsonShape::Number { optional: true })], false);
    assert!(s.is_subset(&t));
    assert!(s
        .clone()
        .as_optional()
        .is_subset(&t.clone().as_optional()));
}

#[test]
fn empty_array_infers_to_the_placeholder_shape() {
    let shape = JsonShape::from_str("[]").unwrap();
    assert_eq!(
        shape,
        JsonShape::Array {
            element: Box::new(JsonShape::Null),
            optional: true
        }
    );
}

#[test]
fn unquoted_and_quoted_keys_render_differently() {
    let shape = obj(
        vec![
            ("plain_key-1", JsonShape::Null),
            ("needs quoting", JsonShape::Null),
        ],
        false,
    );
    assert_eq!(
        shape.render(),
        "Object{\"needs quoting\": Null, plain_key-1: Null}"
    );
}

#[test]
fn duplicate_key_against_union_accepts_contained_shape() {
    let source = "{\"a\": [1, \"x\", true], \"a\": [2, \"y\", false]}";
    let shape = JsonShape::from_str(source);
    assert!(shape.is_ok());
}

#[test]
fn error_messages_render_each_taxonomy_entry() {
    assert_eq!(Error::Unknown.message(), "unknown error has occurred");
    assert_eq!(Error::EmptyFile.message(), "JSON content is empty");
    assert_eq!(
        Error::TooManyRootNodes.message(),
        "invalid JSON: Too many root nodes, expected 1."
    );
    assert_eq!(
        Error::InvalidType("SYSNULL".to_string()).message(),
        "invalid type `SYSNULL`. Expected number, string, boolean, null, array or object."
    );
    assert_eq!(
        Error::InvalidObjectKey.message(),
        "JSON::object requires key value pairs. Key missing"
    );
    assert_eq!(
        Error::InvalidObjectValue.message(),
        "JSON::object requires value to be one of `Boolean`, `String`, `Number`, `Null`, `Array`, `Object`, `OneOf`"
    );
    assert_eq!(
        Error::InvalidObjectValueType(
            Value::Bool { optional: false },
            Value::Number { optional: false }
        )
        .message(),
        "invalid type `Boolean`. Expected `Number`."
    );
    assert_eq!(
        Error::CannotMerge(Value::Null, Value::Number { optional: false }).message(),
        "not able to merge `Null` with `Number`."
    );
    assert_eq!(
        Error::InvalidJson {
            value: "xyz".to_string(),
            span: (10, 13)
        }
        .message(),
        "invalid JSON `xyz`: 10..13"
    );
}

#[test]
fn member_without_value_is_an_invalid_json_error() {
    let err = JsonShape::from_str("{\"a\": }").unwrap_err();
    assert!(matches!(err, Error::InvalidJson { .. }));
}

#[test]
fn nested_depth_beyond_the_ceiling_is_rejected() {
    let mut source = String::new();
    for _ in 0..300 {
        source.push('[');
    }
    source.push('1');
    for _ in 0..300 {
        source.push(']');
    }
    assert!(JsonShape::from_str(&source).is_err());
}
