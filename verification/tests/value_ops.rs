//! Operations on the shape value model.

use json_shape::render::display_object_content;
use json_shape::Similar;
use json_shape::Value;

fn obj(pairs: Vec<(&str, Value)>, optional: bool) -> Value {
    Value::object(
        pairs.into_iter().map(|(k, v)| (k.to_string(), v)).collect(),
        optional,
    )
}

fn one(variants: Vec<Value>, optional: bool) -> Value {
    Value::one_of(variants, optional)
}

#[test]
fn is_optional_returns_true_when_values_are_optional() {
    assert!(Value::Null.is_optional());
    assert!(Value::Bool { optional: true }.is_optional());
    assert!(Value::Number { optional: true }.is_optional());
    assert!(Value::String { optional: true }.is_optional());
    assert!(Value::Array {
        optional: true,
        element: Box::new(Value::Null)
    }
    .is_optional());
    assert!(Value::Tuple {
        optional: true,
        elements: vec![Value::Null]
    }
    .is_optional());
    assert!(obj(vec![], true).is_optional());
    assert!(one(vec![], true).is_optional());
}

#[test]
fn is_optional_returns_false_when_values_are_not_optional() {
    assert!(!Value::Bool { optional: false }.is_optional());
    assert!(!Value::Number { optional: false }.is_optional());
    assert!(!Value::String { optional: false }.is_optional());
    assert!(!Value::Array {
        optional: false,
        element: Box::new(Value::Null)
    }
    .is_optional());
    assert!(!Value::Tuple {
        optional: false,
        elements: vec![Value::Null]
    }
    .is_optional());
    assert!(!obj(vec![], false).is_optional());
    assert!(!one(vec![], false).is_optional());
}

#[test]
fn as_optional_returns_optional_version_of_values() {
    assert!(Value::Bool { optional: false }.as_optional().is_optional());
    assert!(Value::Number { optional: false }.as_optional().is_optional());
    assert!(Value::String { optional: false }.as_optional().is_optional());
    assert!(Value::Array {
        optional: false,
        element: Box::new(Value::Null)
    }
    .as_optional()
    .is_optional());
    assert!(obj(vec![], false).as_optional().is_optional());
    assert!(one(vec![], false).as_optional().is_optional());
    assert!(Value::Tuple {
        optional: false,
        elements: vec![Value::Null]
    }
    .as_optional()
    .is_optional());
}

#[test]
fn keys_returns_keys_only_for_object() {
    assert!(Value::Null.keys().is_none());
    assert!(Value::Bool { optional: true }.keys().is_none());
    assert!(Value::Number { optional: true }.keys().is_none());
    assert!(Value::String { optional: true }.keys().is_none());
    assert!(Value::Array {
        optional: true,
        element: Box::new(Value::Null)
    }
    .keys()
    .is_none());
    assert!(one(vec![], true).keys().is_none());
    assert!(Value::Tuple {
        optional: true,
        elements: Vec::new()
    }
    .keys()
    .is_none());
    assert_eq!(
        obj(
            vec![("key_1", Value::Null), ("key_2", Value::Null)],
            true
        )
        .keys()
        .unwrap(),
        vec!["key_1".to_string(), "key_2".to_string()]
    );
}

#[test]
fn to_string_for_optional_values() {
    assert_eq!(Value::Null.render(), "Null");
    assert_eq!(Value::Bool { optional: true }.render(), "Option<Boolean>");
    assert_eq!(Value::Number { optional: true }.render(), "Option<Number>");
    assert_eq!(Value::String { optional: true }.render(), "Option<String>");
    assert_eq!(
        Value::Array {
            optional: true,
            element: Box::new(Value::Null)
        }
        .render(),
        "Option<Array<Null>>"
    );
    assert_eq!(obj(vec![], true).render(), "Option<Object{}>");
    assert_eq!(
        obj(
            vec![
                ("key_1", Value::Null),
                ("key_2", Value::Number { optional: true }),
                ("key_3", Value::Number { optional: false })
            ],
            true
        )
        .render(),
        "Option<Object{key_1: Null, key_2: Option<Number>, key_3: Number}>"
    );
    assert_eq!(
        one(
            vec![
                Value::Null,
                Value::Number { optional: true },
                Value::Number { optional: false }
            ],
            true
        )
        .render(),
        "Option<OneOf[Null | Number | Option<Number>]>"
    );
    assert_eq!(
        Value::Tuple {
            optional: true,
            elements: vec![
                Value::Null,
                Value::Number { optional: true },
                Value::Number { optional: false }
            ]
        }
        .render(),
        "Option<Tuple(Null, Option<Number>, Number)>"
    );
}

#[test]
fn to_string_for_non_optional_values() {
    assert_eq!(Value::Bool { optional: false }.render(), "Boolean");
    assert_eq!(Value::Number { optional: false }.render(), "Number");
    assert_eq!(Value::String { optional: false }.render(), "String");
    assert_eq!(
        Value::Array {
            optional: false,
            element: Box::new(Value::Null)
        }
        .render(),
        "Array<Null>"
    );
    assert_eq!(obj(vec![], false).render(), "Object{}");
    assert_eq!(
        obj(
            vec![
                ("key_1", Value::Null),
                ("key_2", Value::Number { optional: true }),
                ("key_3", Value::Number { optional: false })
            ],
            false
        )
        .render(),
        "Object{key_1: Null, key_2: Option<Number>, key_3: Number}"
    );
    assert_eq!(
        one(
            vec![
                Value::Null,
                Value::Number { optional: false },
                Value::Number { optional: true }
            ],
            false
        )
        .render(),
        "OneOf[Null | Number | Option<Number>]"
    );
    assert_eq!(
        Value::Tuple {
            optional: false,
            elements: vec![
                Value::Null,
                Value::Number { optional: true },
                Value::Number { optional: false }
            ]
        }
        .render(),
        "Tuple(Null, Option<Number>, Number)"
    );
}

#[test]
fn to_optional_mut_transforms_value_inline_as_ref_mut() {
    let mut v = Value::Bool { optional: false };
    assert!(!v.is_optional());
    v.to_optional_mut();
    assert!(v.is_optional());
    let mut v = Value::Number { optional: false };
    assert!(!v.is_optional());
    v.to_optional_mut();
    assert!(v.is_optional());
    let mut v = Value::String { optional: false };
    assert!(!v.is_optional());
    v.to_optional_mut();
    assert!(v.is_optional());
}

#[test]
fn parse_multiple_keys() {
    let map = obj(
        vec![
            ("key_value_1", Value::Null),
            ("key-value-1", Value::Null),
            ("KeyValue1", Value::Null),
            ("key value 1", Value::Null),
            ("key_value?", Value::Null),
            ("key_value!", Value::Null),
        ],
        false,
    );

    let s = match &map {
        Value::Object { content, .. } => display_object_content(content),
        _ => unreachable!(),
    };

    assert_eq!(
        s,
        "KeyValue1: Null, \"key value 1\": Null, key-value-1: Null, \"key_value!\": Null, \"key_value?\": Null, key_value_1: Null"
    );
}

#[test]
fn only_string_is_a_string() {
    assert!(Value::String { optional: false }.is_string());
    assert!(Value::String { optional: true }.is_string());
    assert!(!Value::Null.is_string());
    assert!(!Value::Bool { optional: false }.is_string());
    assert!(!Value::Number { optional: false }.is_string());
    assert!(!Value::Array {
        optional: false,
        element: Box::new(Value::Null)
    }
    .is_string());
    assert!(!obj(vec![], false).is_string());
    assert!(!one(vec![], false).is_string());
    assert!(!Value::Tuple {
        optional: false,
        elements: Vec::new()
    }
    .is_string());
}

#[test]
fn only_number_is_a_number() {
    assert!(!Value::String { optional: false }.is_number());
    assert!(!Value::Null.is_number());
    assert!(!Value::Bool { optional: false }.is_number());
    assert!(Value::Number { optional: false }.is_number());
    assert!(Value::Number { optional: true }.is_number());
    assert!(!Value::Array {
        optional: false,
        element: Box::new(Value::Null)
    }
    .is_number());
    assert!(!obj(vec![], false).is_number());
    assert!(!one(vec![], false).is_number());
    assert!(!Value::Tuple {
        optional: false,
        elements: Vec::new()
    }
    .is_number());
}

#[test]
fn only_null_is_null() {
    assert!(!Value::String { optional: false }.is_null());
    assert!(Value::Null.is_null());
    assert!(!Value::Bool { optional: false }.is_null());
    assert!(!Value::Number { optional: true }.is_null());
    assert!(!Value::Array {
        optional: false,
        element: Box::new(Value::Null)
    }
    .is_null());
    assert!(!obj(vec![], false).is_null());
    assert!(!one(vec![], false).is_null());
    assert!(!Value::Tuple {
        optional: false,
        elements: Vec::new()
    }
    .is_null());
}

#[test]
fn only_bool_is_bool() {
    assert!(!Value::String { optional: false }.is_boolean());
    assert!(!Value::Null.is_boolean());
    assert!(Value::Bool { optional: false }.is_boolean());
    assert!(!Value::Number { optional: true }.is_boolean());
    assert!(!Value::Array {
        optional: false,
        element: Box::new(Value::Null)
    }
    .is_boolean());
    assert!(!obj(vec![], false).is_boolean());
    assert!(!one(vec![], false).is_boolean());
    assert!(!Value::Tuple {
        optional: false,
        elements: Vec::new()
    }
    .is_boolean());
}

#[test]
fn only_array_is_array() {
    assert!(!Value::String { optional: false }.is_array());
    assert!(!Value::Null.is_array());
    assert!(!Value::Bool { optional: false }.is_array());
    assert!(!Value::Number { optional: true }.is_array());
    assert!(Value::Array {
        optional: false,
        element: Box::new(Value::Null)
    }
    .is_array());
    assert!(!obj(vec![], false).is_array());
    assert!(!one(vec![], false).is_array());
    assert!(!Value::Tuple {
        optional: false,
        elements: Vec::new()
    }
    .is_array());
}

#[test]
fn only_object_is_object() {
    assert!(!Value::String { optional: false }.is_object());
    assert!(!Value::Null.is_object());
    assert!(!Value::Bool { optional: false }.is_object());
    assert!(!Value::Number { optional: true }.is_object());
    assert!(!Value::Array {
        optional: false,
        element: Box::new(Value::Null)
    }
    .is_object());
    assert!(obj(vec![], false).is_object());
    assert!(!one(vec![], false).is_object());
    assert!(!Value::Tuple {
        optional: false,
        elements: Vec::new()
    }
    .is_object());
}

#[test]
fn only_one_of_is_one_of() {
    assert!(!Value::String { optional: false }.is_oneof());
    assert!(!Value::Null.is_oneof());
    assert!(!Value::Bool { optional: false }.is_oneof());
    assert!(!Value::Number { optional: true }.is_oneof());
    assert!(!Value::Array {
        optional: false,
        element: Box::new(Value::Null)
    }
    .is_oneof());
    assert!(!obj(vec![], false).is_oneof());
    assert!(one(vec![], false).is_oneof());
    assert!(!Value::Tuple {
        optional: false,
        elements: Vec::new()
    }
    .is_oneof());
}

#[test]
fn only_tuple_is_tuple() {
    assert!(!Value::String { optional: false }.is_tuple());
    assert!(!Value::Null.is_tuple());
    assert!(!Value::Bool { optional: false }.is_tuple());
    assert!(!Value::Number { optional: true }.is_tuple());
    assert!(!Value::Array {
        optional: false,
        element: Box::new(Value::Null)
    }
    .is_tuple());
    assert!(!obj(vec![], false).is_tuple());
    assert!(!one(vec![], false).is_tuple());
    assert!(Value::Tuple {
        optional: false,
        elements: Vec::new()
    }
    .is_tuple());
}

#[test]
fn null_is_similar_to_null() {
    assert!(Value::Null.similar(&Value::Null).is_some());
    assert!(Value::Null
        .similar(&Value::String { optional: false })
        .is_none());
}

#[test]
fn str_is_similar_to_str() {
    assert_eq!(
        Value::String { optional: false }.similar(&Value::String { optional: false }),
        Some(Value::String { optional: false })
    );
    assert_eq!(
        Value::String { optional: false }.similar(&Value::String { optional: true }),
        Some(Value::String { optional: true })
    );
    assert_eq!(
        Value::String { optional: false }.similar(&Value::Number { optional: true }),
        None
    );
}

#[test]
fn bool_is_similar_to_bool() {
    assert_eq!(
        Value::Bool { optional: false }.similar(&Value::Bool { optional: false }),
        Some(Value::Bool { optional: false })
    );
    assert_eq!(
        Value::Bool { optional: false }.similar(&Value::Bool { optional: true }),
        Some(Value::Bool { optional: true })
    );
    assert_eq!(
        Value::Bool { optional: false }.similar(&Value::Number { optional: true }),
        None
    );
}

#[test]
fn number_is_similar_to_number() {
    assert_eq!(
        Value::Number { optional: false }.similar(&Value::Number { optional: false }),
        Some(Value::Number { optional: false })
    );
    assert_eq!(
        Value::Number { optional: false }.similar(&Value::Number { optional: true }),
        Some(Value::Number { optional: true })
    );
    assert_eq!(
        Value::Number { optional: false }.similar(&Value::Bool { optional: true }),
        None
    );
}

#[test]
fn object_is_similar_to_object() {
    assert_eq!(
        obj(vec![], false).similar(&obj(vec![], false)),
        Some(obj(vec![], false))
    );
    assert_eq!(
        obj(vec![], false).similar(&obj(vec![], true)),
        Some(obj(vec![], true))
    );
    assert_eq!(
        obj(vec![], false).similar(&Value::Bool { optional: true }),
        None
    );
}

#[test]
fn array_is_similar_to_array() {
    assert_eq!(
        Value::Array {
            element: Box::new(Value::Null),
            optional: false
        }
        .similar(&Value::Array {
            element: Box::new(Value::Null),
            optional: false
        }),
        Some(Value::Array {
            element: Box::new(Value::Null),
            optional: false
        })
    );
    assert_eq!(
        Value::Array {
            element: Box::new(Value::Null),
            optional: false
        }
        .similar(&Value::Array {
            element: Box::new(Value::Null),
            optional: true
        }),
        Some(Value::Array {
            element: Box::new(Value::Null),
            optional: true
        })
    );
    assert_eq!(
        Value::Array {
            element: Box::new(Value::Null),
            optional: false
        }
        .similar(&Value::Bool { optional: true }),
        None
    );
}

#[test]
fn oneof_is_similar_to_oneof() {
    assert_eq!(
        one(vec![], false).similar(&one(vec![], false)),
        Some(one(vec![], false))
    );
    assert_eq!(
        one(vec![], false).similar(&one(vec![], true)),
        Some(one(vec![], true))
    );
    assert_eq!(
        one(vec![], false).similar(&Value::Bool { optional: true }),
        None
    );
}

#[test]
fn tuple_is_similar_to_tuple() {
    assert_eq!(
        Value::Tuple {
            elements: Vec::new(),
            optional: false
        }
        .similar(&Value::Tuple {
            elements: Vec::new(),
            optional: false
        }),
        Some(Value::Tuple {
            elements: Vec::new(),
            optional: false
        })
    );
    assert_eq!(
        Value::Tuple {
            elements: Vec::new(),
            optional: false
        }
        .similar(&Value::Tuple {
            elements: Vec::new(),
            optional: true
        }),
        Some(Value::Tuple {
            elements: Vec::new(),
            optional: true
        })
    );
    assert_eq!(
        Value::Tuple {
            elements: Vec::new(),
            optional: false
        }
        .similar(&Value::Bool { optional: true }),
        None
    );
}
