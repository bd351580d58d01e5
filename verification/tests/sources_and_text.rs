//! End-to-end inference from source texts: single documents, merged
//! collections, and conformance checks.

use json_shape::error::Error;
use json_shape::IsSubset;
use json_shape::JsonShape;
use json_shape::Value;

fn obj(pairs: Vec<(&str, Value)>, optional: bool) -> Value {
    Value::object(
        pairs.into_iter().map(|(k, v)| (k.to_string(), v)).collect(),
        optional,
    )
}

fn one(variants: Vec<Value>, optional: bool) -> Value {
    Value::one_of(variants, optional)
}

#[test]
fn parse_nil_shape() {
    let source = "null";
    let value = JsonShape::from_str(source).unwrap();

    assert_eq!(value, JsonShape::Null);
}

#[test]
fn parse_true_shape() {
    let source = "true";
    let value = JsonShape::from_str(source).unwrap();

    assert_eq!(value, JsonShape::Bool { optional: false });
}

#[test]
fn parse_false_shape() {
    let source = "false";
    let value = JsonShape::from_str(source).unwrap();

    assert_eq!(value, JsonShape::Bool { optional: false });
}

#[test]
fn parse_number_shape() {
    let source = "123.456";
    let value = JsonShape::from_str(source).unwrap();

    assert_eq!(value, JsonShape::Number { optional: false });
}

#[test]
fn parse_string_shape() {
    let source = "\"this is a string\"";
    let value = JsonShape::from_str(source).unwrap();

    assert_eq!(value, JsonShape::String { optional: false });
}

#[test]
fn parse_something_else_shape_error() {
    let source = "random";
    let err = JsonShape::from_str(source).unwrap_err();

    assert_eq!(
        err,
        Error::InvalidJson {
            value: "random".to_string(),
            span: (0, 6)
        }
    );
}

#[test]
fn parse_array_shape() {
    let source = "[\"string\", 123.456, 234, true, false, null]";
    let value = JsonShape::from_str(source).unwrap();

    assert_eq!(
        value,
        JsonShape::Tuple {
            elements: vec![
                JsonShape::String { optional: false },
                JsonShape::Number { optional: false },
                JsonShape::Number { optional: false },
                JsonShape::Bool { optional: false },
                JsonShape::Bool { optional: false },
                JsonShape::Null,
            ],
            optional: false
        }
    );
}

#[test]
fn parse_map_shape() {
    let source = "{
    \"a\" : 1234,
    \"b\": true
    }";
    let value = JsonShape::from_str(source).unwrap();
    let content = obj(
        vec![
            ("a", JsonShape::Number { optional: false }),
            ("b", JsonShape::Bool { optional: false }),
        ],
        false,
    );
    assert_eq!(value, content);
}

#[test]
fn complex_json_shape() {
    let source = r#"{
        "str": "this is a string",
        "number": 123.456,
        "bool_true": true,
        "bool_false": false,
        "nil": null,
        "array": [1, 2, 3, 4],
        "tuple": [123, "string", true],
        "map": {
          "a": "b",
          "c": 123
        },
        "array of maps": [
            {
                "a": "b",
                "c": 123
            },
            {
                "a": "b",
                "b": true
            }
        ]
    }"#;

    let value = JsonShape::from_str(source).unwrap();
    assert_eq!(
        value,
        obj(
            vec![
                (
                    "array",
                    JsonShape::Array {
                        element: Box::new(JsonShape::Number { optional: false }),
                        optional: false
                    }
                ),
                (
                    "tuple",
                    JsonShape::Tuple {
                        elements: vec![
                            JsonShape::Number { optional: false },
                            JsonShape::String { optional: false },
                            JsonShape::Bool { optional: false }
                        ],
                        optional: false
                    },
                ),
                (
                    "array of maps",
                    JsonShape::Array {
                        element: Box::new(obj(
                            vec![
                                ("a", JsonShape::String { optional: false }),
                                ("c", JsonShape::Number { optional: true }),
                                ("b", JsonShape::Bool { optional: true })
                            ],
                            false
                        )),
                        optional: false
                    }
                ),
                ("bool_false", JsonShape::Bool { optional: false }),
                ("bool_true", JsonShape::Bool { optional: false }),
                (
                    "map",
                    obj(
                        vec![
                            ("a", JsonShape::String { optional: false }),
                            ("c", JsonShape::Number { optional: false })
                        ],
                        false
                    )
                ),
                ("nil", JsonShape::Null),
                ("number", JsonShape::Number { optional: false }),
                ("str", JsonShape::String { optional: false })
            ],
            false
        )
    );
}

#[test]
fn parse_duplicated_keys_object_shape() {
    let source = "{\"a\": 123, \"a\": true}";
    let err = JsonShape::from_str(source).unwrap_err();

    assert_eq!(err.message(), "invalid type `Boolean`. Expected `Number`.");
}

#[test]
fn complex_json_shape_from_sources() {
    let source_1 = r#"{
        "str": "this is a string",
        "number": 123.456,
        "nil": null,
        "array": [123, "string", true],
        "map": {
          "a": "b",
          "c": 123,
          "d": 1
        },
        "array of maps": [
            {
                "a": "b",
                "c": 123
            }
        ]
    }"#;

    let source_2 = r#"{
        "str": "this is a string",
        "bool": true,
        "nil": null,
        "array": [123, "string"],
        "map": {
          "a": "b",
          "c": 123,
          "e": 2
        },
        "array of maps": [
            {
                "a": "b",
                "b": true
            }
        ]
    }"#;

    let shape = JsonShape::from_sources(&[source_1, source_2]).unwrap();
    assert!(shape.is_object());
}

#[test]
fn from_sources_manages_option_in_tuples() {
    let tuple_1 = "[1, 2, \"string\", true]".to_string();
    let tuple_2 = "[1, 2, \"string\", null]".to_string();

    let shape = JsonShape::from_sources(&[tuple_1.as_str(), tuple_2.as_str()]).unwrap();

    assert_eq!(
        shape,
        JsonShape::Tuple {
            elements: vec![
                JsonShape::Number { optional: false },
                JsonShape::Number { optional: false },
                JsonShape::String { optional: false },
                JsonShape::Bool { optional: true },
            ],
            optional: false
        }
    );
}

#[test]
fn from_sources_manages_option_in_tuples_2() {
    let tuple_1 = "[1, 2, \"string\", true]".to_string();
    let tuple_2 = "[1, null, \"string\", false]".to_string();

    let shape = JsonShape::from_sources(&[tuple_1.as_str(), tuple_2.as_str()]).unwrap();

    assert_eq!(
        shape,
        JsonShape::Tuple {
            elements: vec![
                JsonShape::Number { optional: false },
                JsonShape::Number { optional: true },
                JsonShape::String { optional: false },
                JsonShape::Bool { optional: false },
            ],
            optional: false
        }
    );
}

#[test]
fn from_sources_tuples_become_array_when_differ() {
    let tuple_1 = "[1, 2, \"string\", true]".to_string();
    let tuple_2 = "[1, \"string\", 2, false]".to_string();

    let shape = JsonShape::from_sources(&[tuple_1.as_str(), tuple_2.as_str()]).unwrap();

    assert_eq!(
        shape,
        JsonShape::Array {
            element: Box::new(one(
                vec![
                    JsonShape::Bool { optional: false },
                    JsonShape::Number { optional: false },
                    JsonShape::String { optional: false }
                ],
                false
            )),
            optional: false
        }
    );
}

#[test]
fn test_invalid_json_from_str() {
    let source = "{ invalid json }";
    let result = JsonShape::from_str(source);
    assert_eq!(result.unwrap_err().message(), "invalid JSON `invalid`: 2..9");
}

#[test]
fn test_empty_array_from_sources_should_return_empty_json_error() {
    let sources: [&str; 0] = [];
    let result = JsonShape::from_sources(&sources).unwrap_err();
    assert_eq!(result.message(), "JSON content is empty");
}

#[test]
fn test_incompatible_merge_from_sources() {
    let sources = ["{\"a\": 1}", "{\"a\": \"string\"}"];
    let result = JsonShape::from_sources(&sources);
    assert!(
        result.is_ok(),
        "Merge should still succeed with OneOf variant"
    );
}

#[test]
fn test_superset_true() {
    let shape = JsonShape::from_str("{\"a\": 1, \"b\": \"x\"}").unwrap();
    assert!(shape.is_superset("{\"a\": 1, \"b\": \"x\"}"));
}

#[test]
fn test_superset_false() {
    let shape = JsonShape::from_str("{\"a\": 1, \"b\": \"x\"}").unwrap();
    assert!(!shape.is_superset("{\"a\": 1}"));
}

#[test]
fn test_superset_with_extra_fields() {
    let shape = JsonShape::from_str("{\"a\": 1}").unwrap();
    let result = shape.is_superset("{\"a\": 1, \"extra\": 99}");
    println!("Extra fields superset: {result}");
}

#[test]
fn test_superset_checked_invalid_json() {
    let shape = JsonShape::from_str("{\"a\": 1}").unwrap();
    let result = shape.is_superset_checked("not json");
    assert!(result.is_err());
}

#[test]
fn test_is_subset_self() {
    let shape = JsonShape::from_str("{\"a\": 1, \"b\": \"x\"}").unwrap();
    assert!(shape.is_subset(&shape));
}

#[test]
fn test_nullable_field_merging() {
    let sources = ["{\"a\": 1}", "{\"a\": null}"];
    let result = JsonShape::from_sources(&sources).unwrap();
    let shape_json = result.to_tagged_pretty();
    assert_eq!(
        shape_json,
        "{
  \"Object\": {
    \"content\": {
      \"a\": {
        \"Number\": {
          \"optional\": true
        }
      }
    },
    \"optional\": false
  }
}"
    );
}

#[test]
fn test_array_merging_with_mixed_types() {
    let sources = ["[1, 2, 3]", "[\"string\", true]"];
    let result = JsonShape::from_sources(&sources).unwrap();
    let shape_json = result.to_tagged_pretty();
    assert_eq!(
        shape_json,
        "{
  \"Array\": {
    \"type\": {
      \"OneOf\": {
        \"variants\": [
          {
            \"Bool\": {
              \"optional\": false
            }
          },
          {
            \"Number\": {
              \"optional\": false
            }
          },
          {
            \"String\": {
              \"optional\": false
            }
          }
        ],
        \"optional\": false
      }
    },
    \"optional\": false
  }
}"
    );
}

#[test]
fn json_is_subset_of_json_shape() {
    let shape = obj(
        vec![
            ("name", JsonShape::String { optional: false }),
            ("surname", JsonShape::String { optional: false }),
            ("middle name", JsonShape::String { optional: true }),
            ("age", JsonShape::Number { optional: false }),
            (
                "id",
                one(
                    vec![
                        obj(
                            vec![
                                ("number", JsonShape::Number { optional: false }),
                                ("state", JsonShape::String { optional: false }),
                            ],
                            false,
                        ),
                        JsonShape::Array {
                            element: Box::new(JsonShape::Number { optional: false }),
                            optional: false,
                        },
                    ],
                    false,
                ),
            ),
        ],
        false,
    );

    let json_1 = r#"{
    "name": "lorem",
    "surname": "ipsum",
    "age": 30,
    "id": {
        "number": 123456,
        "state": "st"
    }
}"#;

    let shape_1 = JsonShape::from_str(json_1).unwrap();

    assert!(shape_1.is_subset(&shape));
    assert!(shape.is_superset(json_1));
}

#[test]
fn json_is_subset_of_json_shape_checked() {
    let shape = obj(
        vec![
            ("name", JsonShape::String { optional: false }),
            ("surname", JsonShape::String { optional: false }),
            ("middle name", JsonShape::String { optional: true }),
            ("age", JsonShape::Number { optional: false }),
            (
                "id",
                one(
                    vec![
                        obj(
                            vec![
                                ("number", JsonShape::Number { optional: false }),
                                ("state", JsonShape::String { optional: false }),
                            ],
                            false,
                        ),
                        JsonShape::Array {
                            element: Box::new(JsonShape::Number { optional: false }),
                            optional: false,
                        },
                    ],
                    false,
                ),
            ),
        ],
        false,
    );

    let json_1 = r#"{
    "name": "lorem",
    "surname": "ipsum",
    "age": 30,
    "id": {
        "number": 123456,
        "state": "st"
    }
}"#;

    assert!(shape.is_superset_checked(json_1).unwrap());
}

#[test]
fn json_is_subset_of_json_shape_checked_json_error() {
    let shape = obj(
        vec![
            ("name", JsonShape::String { optional: false }),
            ("surname", JsonShape::String { optional: false }),
            ("middle name", JsonShape::String { optional: true }),
            ("age", JsonShape::Number { optional: false }),
            (
                "id",
                one(
                    vec![
                        obj(
                            vec![
                                ("number", JsonShape::Number { optional: false }),
                                ("state", JsonShape::String { optional: false }),
                            ],
                            false,
                        ),
                        JsonShape::Array {
                            element: Box::new(JsonShape::Number { optional: false }),
                            optional: false,
                        },
                    ],
                    false,
                ),
            ),
        ],
        false,
    );

    let json_1 = r#"{
    "name": "lorem",
    "surname": "ipsum",
    "age": 30,
    "id": {
        "number": 123456,
        "state": "st
    }
}"#;

    assert_eq!(
        shape.is_superset_checked(json_1).unwrap_err(),
        Error::InvalidJson {
            value: "\"st\n    }\n}".to_string(),
            span: (117, 128)
        }
    );
}
