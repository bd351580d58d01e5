//! Operations on the shape value model, exercised again through the
//! re-exported alias.

use json_shape::render::display_object_content;
use json_shape::IsSubset;
use json_shape::JsonShape;
use json_shape::Value;

fn obj(pairs: Vec<(&str, Value)>, optional: bool) -> Value {
    Value::object(
        pairs.into_iter().map(|(k, v)| (k.to_string(), v)).collect(),
        optional,
    )
}

fn one(variants: Vec<Value>, optional: bool) -> Value {
    Value::one_of(variants, optional)
}

#[test]
fn value_is_optional_returns_true_when_values_are_optional() {
    assert!(JsonShape::Null.is_optional());
    assert!(JsonShape::Bool { optional: true }.is_optional());
    assert!(JsonShape::Number { optional: true }.is_optional());
    assert!(JsonShape::String { optional: true }.is_optional());
    assert!(JsonShape::Array {
        optional: true,
        element: Box::new(JsonShape::Null)
    }
    .is_optional());
    assert!(JsonShape::Tuple {
        optional: true,
        elements: vec![JsonShape::Null]
    }
    .is_optional());
    assert!(obj(vec![], true).is_optional());
    assert!(one(vec![], true).is_optional());
}

#[test]
fn value_is_optional_returns_false_when_values_are_not_optional() {
    assert!(!JsonShape::Bool { optional: false }.is_optional());
    assert!(!JsonShape::Number { optional: false }.is_optional());
    assert!(!JsonShape::String { optional: false }.is_optional());
    assert!(!JsonShape::Array {
        optional: false,
        element: Box::new(JsonShape::Null)
    }
    .is_optional());
    assert!(!JsonShape::Tuple {
        optional: false,
        elements: vec![JsonShape::Null]
    }
    .is_optional());
    assert!(!obj(vec![], false).is_optional());
    assert!(!one(vec![], false).is_optional());
}

#[test]
fn value_as_optional_returns_optional_version_of_values() {
    assert!(JsonShape::Bool { optional: false }
        .as_optional()
        .is_optional());
    assert!(JsonShape::Number { optional: false }
        .as_optional()
        .is_optional());
    assert!(JsonShape::String { optional: false }
        .as_optional()
        .is_optional());
    assert!(JsonShape::Array {
        optional: false,
        element: Box::new(JsonShape::Null)
    }
    .as_optional()
    .is_optional());
    assert!(obj(vec![], false).as_optional().is_optional());
    assert!(one(vec![], false).as_optional().is_optional());
    assert!(JsonShape::Tuple {
        optional: false,
        elements: vec![JsonShape::Null]
    }
    .as_optional()
    .is_optional());
}

#[test]
fn value_keys_returns_keys_only_for_object() {
    assert!(JsonShape::Null.keys().is_none());
    assert!(JsonShape::Bool { optional: true }.keys().is_none());
    assert!(JsonShape::Number { optional: true }.keys().is_none());
    assert!(JsonShape::String { optional: true }.keys().is_none());
    assert!(JsonShape::Array {
        optional: true,
        element: Box::new(JsonShape::Null)
    }
    .keys()
    .is_none());
    assert!(one(vec![], true).keys().is_none());
    assert!(JsonShape::Tuple {
        optional: true,
        elements: Vec::new()
    }
    .keys()
    .is_none());
    assert_eq!(
        obj(
            vec![("key_1", JsonShape::Null), ("key_2", JsonShape::Null)],
            true
        )
        .keys()
        .unwrap(),
        vec!["key_1".to_string(), "key_2".to_string()]
    );
}

#[test]
fn value_to_string_for_optional_values() {
    assert_eq!(JsonShape::Null.render(), "Null");
    assert_eq!(
        JsonShape::Bool { optional: true }.render(),
        "Option<Boolean>"
    );
    assert_eq!(
        JsonShape::Number { optional: true }.render(),
        "Option<Number>"
    );
    assert_eq!(
        JsonShape::String { optional: true }.render(),
        "Option<String>"
    );
    assert_eq!(
        JsonShape::Array {
            optional: true,
            element: Box::new(JsonShape::Null)
        }
        .render(),
        "Option<Array<Null>>"
    );
    assert_eq!(obj(vec![], true).render(), "Option<Object{}>");
    assert_eq!(
        obj(
            vec![
                ("key_1", JsonShape::Null),
                ("key_2", JsonShape::Number { optional: true }),
                ("key_3", JsonShape::Number { optional: false })
            ],
            true
        )
        .render(),
        "Option<Object{key_1: Null, key_2: Option<Number>, key_3: Number}>"
    );
    assert_eq!(
        one(
            vec![
                JsonShape::Null,
                JsonShape::Number { optional: true },
                JsonShape::Number { optional: false }
            ],
            true
        )
        .render(),
        "Option<OneOf[Null | Number | Option<Number>]>"
    );
    assert_eq!(
        JsonShape::Tuple {
            optional: true,
            elements: vec![
                JsonShape::Null,
                JsonShape::Number { optional: true },
                JsonShape::Number { optional: false }
            ]
        }
        .render(),
        "Option<Tuple(Null, Option<Number>, Number)>"
    );
}

#[test]
fn value_to_string_for_non_optional_values() {
    assert_eq!(JsonShape::Bool { optional: false }.render(), "Boolean");
    assert_eq!(JsonShape::Number { optional: false }.render(), "Number");
    assert_eq!(JsonShape::String { optional: false }.render(), "String");
    assert_eq!(
        JsonShape::Array {
            optional: false,
            element: Box::new(JsonShape::Null)
        }
        .render(),
        "Array<Null>"
    );
    assert_eq!(obj(vec![], false).render(), "Object{}");
    assert_eq!(
        obj(
            vec![
                ("key_1", JsonShape::Null),
                ("key_2", JsonShape::Number { optional: true }),
                ("key_3", JsonShape::Number { optional: false })
            ],
            false
        )
        .render(),
        "Object{key_1: Null, key_2: Option<Number>, key_3: Number}"
    );
    assert_eq!(
        one(
            vec![
                JsonShape::Null,
                JsonShape::Number { optional: false },
                JsonShape::Number { optional: true }
            ],
            false
        )
        .render(),
        "OneOf[Null | Number | Option<Number>]"
    );
    assert_eq!(
        JsonShape::Tuple {
            optional: false,
            elements: vec![
                JsonShape::Null,
                JsonShape::Number { optional: true },
                JsonShape::Number { optional: false }
            ]
        }
        .render(),
        "Tuple(Null, Option<Number>, Number)"
    );
}

#[test]
fn value_to_optional_mut_transforms_value_inline_as_ref_mut() {
    let mut v = JsonShape::Bool { optional: false };
    assert!(!v.is_optional());
    v.to_optional_mut();
    assert!(v.is_optional());
    let mut v = JsonShape::Number { optional: false };
    assert!(!v.is_optional());
    v.to_optional_mut();
    assert!(v.is_optional());
    let mut v = JsonShape::String { optional: false };
    assert!(!v.is_optional());
    v.to_optional_mut();
    assert!(v.is_optional());
}

#[test]
fn value_parse_multiple_keys() {
    let map = obj(
        vec![
            ("key_value_1", JsonShape::Null),
            ("key-value-1", JsonShape::Null),
            ("KeyValue1", JsonShape::Null),
            ("key value 1", JsonShape::Null),
            ("key_value?", JsonShape::Null),
            ("key_value!", JsonShape::Null),
        ],
        false,
    );

    let s = match &map {
        JsonShape::Object { content, .. } => display_object_content(content),
        _ => unreachable!(),
    };

    assert_eq!(
        s,
        "KeyValue1: Null, \"key value 1\": Null, key-value-1: Null, \"key_value!\": Null, \"key_value?\": Null, key_value_1: Null"
    );
}

#[test]
fn subset_when_null_is_subset_of_null() {
    assert!(JsonShape::Null.is_subset(&JsonShape::Null));
}

#[test]
fn subset_when_null_is_subset_of_optional() {
    assert!(JsonShape::Null.is_subset(&JsonShape::Number { optional: true }));
}

#[test]
fn subset_when_null_is_not_subset_of_number() {
    assert!(!JsonShape::Null.is_subset(&JsonShape::Number { optional: false }));
}
