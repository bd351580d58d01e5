//! Marker-driven subtype queries.

use json_shape::subtypes::{
    Boolean, IsArrayOf, IsObjectOf, IsOneOf, Null, Number, OneOf, Optional, Str,
};
use json_shape::Value;

fn obj(pairs: Vec<(&str, Value)>, optional: bool) -> Value {
    Value::object(
        pairs.into_iter().map(|(k, v)| (k.to_string(), v)).collect(),
        optional,
    )
}

fn one(variants: Vec<Value>, optional: bool) -> Value {
    Value::one_of(variants, optional)
}

fn arr(element: Value, optional: bool) -> Value {
    Value::Array {
        element: Box::new(element),
        optional,
    }
}

#[test]
fn is_array_of_null() {
    assert!(IsArrayOf::<Null>::is_array_of(&arr(Value::Null, false)));
    assert!(!IsArrayOf::<Null>::is_array_of(&arr(
        Value::Number { optional: true },
        false
    )));
}

#[test]
fn is_array_of_number() {
    assert!(IsArrayOf::<Number>::is_array_of(&arr(
        Value::Number { optional: false },
        false
    )));
    assert!(!IsArrayOf::<Number>::is_array_of(&arr(
        Value::Bool { optional: true },
        false
    )));
}

#[test]
fn is_array_of_string() {
    assert!(IsArrayOf::<Str>::is_array_of(&arr(
        Value::String { optional: false },
        false
    )));
    assert!(!IsArrayOf::<Str>::is_array_of(&arr(
        Value::Bool { optional: true },
        false
    )));
}

#[test]
fn is_array_of_bool() {
    assert!(IsArrayOf::<Boolean>::is_array_of(&arr(
        Value::Bool { optional: false },
        false
    )));
    assert!(!IsArrayOf::<Boolean>::is_array_of(&arr(
        Value::String { optional: true },
        false
    )));
}

#[test]
fn is_oneof_of_number() {
    assert!(IsOneOf::<Optional<Number>>::is_one_of(&one(
        vec![
            Value::Number { optional: false },
            Value::Bool { optional: false },
            Value::String { optional: false },
            Value::Null
        ],
        false
    )));
    assert!(IsOneOf::<Number>::is_one_of(&one(
        vec![
            Value::Number { optional: false },
            Value::Bool { optional: false },
            Value::String { optional: false }
        ],
        false
    )));
}

#[test]
fn is_oneof_of_bool() {
    assert!(IsOneOf::<Optional<Boolean>>::is_one_of(&one(
        vec![
            Value::Number { optional: true },
            Value::Bool { optional: true },
            Value::String { optional: true },
            Value::Null
        ],
        false
    )));
    assert!(IsOneOf::<Boolean>::is_one_of(&one(
        vec![
            Value::Number { optional: false },
            Value::Bool { optional: false },
            Value::String { optional: false }
        ],
        false
    )));
}

#[test]
fn is_oneof_of_string() {
    assert!(IsOneOf::<Optional<Str>>::is_one_of(&one(
        vec![
            Value::Number { optional: false },
            Value::Bool { optional: false },
            Value::String { optional: false },
            Value::Null
        ],
        false
    )));
    assert!(IsOneOf::<Str>::is_one_of(&one(
        vec![
            Value::Number { optional: false },
            Value::Bool { optional: false },
            Value::String { optional: false }
        ],
        false
    )));
}

#[test]
fn is_object_of_number() {
    assert!(IsObjectOf::<Number>::is_object_of(
        &obj(vec![("key", Value::Number { optional: false })], false),
        "key"
    ));

    assert!(IsObjectOf::<Optional<Number>>::is_object_of(
        &obj(vec![("key", Value::Number { optional: true })], false),
        "key"
    ));
}

#[test]
fn is_object_of_string() {
    assert!(IsObjectOf::<Str>::is_object_of(
        &obj(vec![("key", Value::String { optional: false })], false),
        "key"
    ));

    assert!(IsObjectOf::<Optional<Str>>::is_object_of(
        &obj(vec![("key", Value::String { optional: true })], false),
        "key"
    ));
}

#[test]
fn is_object_of_bool() {
    assert!(IsObjectOf::<Boolean>::is_object_of(
        &obj(vec![("key", Value::Bool { optional: false })], false),
        "key"
    ));

    assert!(IsObjectOf::<Optional<Boolean>>::is_object_of(
        &obj(vec![("key", Value::Bool { optional: true })], false),
        "key"
    ));
}

#[test]
fn value_is_oneof_number() {
    let value = one(
        vec![
            Value::Number { optional: false },
            Value::String { optional: false },
        ],
        false,
    );
    assert!(IsOneOf::<Number>::is_one_of(&value));
}

#[test]
fn value_is_not_oneof_string() {
    let value = one(
        vec![
            Value::Number { optional: false },
            Value::Bool { optional: false },
        ],
        false,
    );
    assert!(!IsOneOf::<Str>::is_one_of(&value));
}

#[test]
fn value_is_oneof_optional_number() {
    let value = one(vec![Value::Null, Value::Number { optional: false }], false);
    assert!(IsOneOf::<Optional<Number>>::is_one_of(&value));
}

#[test]
fn value_is_not_oneof_optional_string() {
    let value = one(
        vec![
            Value::Bool { optional: false },
            Value::Number { optional: false },
            Value::Null,
        ],
        false,
    );
    assert!(!IsOneOf::<Optional<Str>>::is_one_of(&value));
}

#[test]
fn value_is_not_oneof_optional_oneof() {
    let value = one(
        vec![
            Value::Bool { optional: false },
            Value::Number { optional: false },
            Value::Null,
        ],
        false,
    );
    assert!(!IsOneOf::<Optional<OneOf>>::is_one_of(&value));
}

#[test]
fn value_is_oneof_optional_oneof() {
    let value = one(
        vec![
            Value::Bool { optional: false },
            Value::Number { optional: false },
            Value::Null,
        ],
        true,
    );
    assert!(IsOneOf::<Optional<OneOf>>::is_one_of(&value));
}

#[test]
fn value_is_arrayof_number() {
    let value = arr(Value::Number { optional: false }, false);
    assert!(IsArrayOf::<Number>::is_array_of(&value));
}

#[test]
fn value_is_not_arrayof_string() {
    let value = arr(Value::Number { optional: false }, false);
    assert!(!IsArrayOf::<Str>::is_array_of(&value));
}

#[test]
fn value_is_arrayof_optional_number() {
    let value = arr(Value::Number { optional: true }, false);
    assert!(IsArrayOf::<Optional<Number>>::is_array_of(&value));
}

#[test]
fn value_is_not_arrayof_optional_string() {
    let value = arr(Value::Number { optional: true }, false);
    assert!(!IsArrayOf::<Optional<Str>>::is_array_of(&value));
}

#[test]
fn value_is_objectof_number() {
    let value = obj(vec![("key", Value::Number { optional: false })], false);
    assert!(IsObjectOf::<Number>::is_object_of(&value, "key"));
}

#[test]
fn value_is_not_objectof_string() {
    let value = obj(vec![("key", Value::Number { optional: false })], false);
    assert!(!IsObjectOf::<Str>::is_object_of(&value, "key"));
}

#[test]
fn test_is_tuple_of_match() {
    let value = Value::Tuple {
        elements: vec![
            Value::Number { optional: false },
            Value::String { optional: false },
        ],
        optional: false,
    };
    let types = vec![
        Value::Number { optional: false },
        Value::String { optional: false },
    ];
    assert!(value.is_tuple_of(&types));
}

#[test]
fn test_is_tuple_of_match_with_optional() {
    let value = Value::Tuple {
        elements: vec![
            Value::Number { optional: true },
            Value::String { optional: false },
        ],
        optional: false,
    };
    let types = vec![
        Value::Number { optional: false },
        Value::String { optional: false },
    ];
    assert!(!value.is_tuple_of(&types));
}

#[test]
fn test_is_tuple_of_mismatch() {
    let value = Value::Tuple {
        elements: vec![
            Value::Number { optional: false },
            Value::String { optional: false },
        ],
        optional: false,
    };
    let types = vec![
        Value::Number { optional: false },
        Value::Bool { optional: false },
    ];
    assert!(!value.is_tuple_of(&types));
}

#[test]
fn test_is_tuple_of_length_mismatch() {
    let value = Value::Tuple {
        elements: vec![
            Value::Number { optional: false },
            Value::String { optional: false },
        ],
        optional: false,
    };
    let types = vec![Value::Number { optional: false }];
    assert!(!value.is_tuple_of(&types));
}

#[test]
fn test_is_tuple_of_not_tuple() {
    let value = Value::Number { optional: false };
    let types = vec![
        Value::Number { optional: false },
        Value::String { optional: false },
    ];
    assert!(!value.is_tuple_of(&types));
}
