//! The structural subset relation, case by case.

use json_shape::IsSubset;
use json_shape::Value;

fn obj(pairs: Vec<(&str, Value)>, optional: bool) -> Value {
    Value::object(
        pairs.into_iter().map(|(k, v)| (k.to_string(), v)).collect(),
        optional,
    )
}

fn one(variants: Vec<Value>, optional: bool) -> Value {
    Value::one_of(variants, optional)
}

fn num(optional: bool) -> Value {
    Value::Number { optional }
}

fn txt(optional: bool) -> Value {
    Value::String { optional }
}

fn boo(optional: bool) -> Value {
    Value::Bool { optional }
}

fn arr(element: Value, optional: bool) -> Value {
    Value::Array { element: Box::new(element), optional }
}

#[test]
fn when_null_is_subset_of_null() {
    assert!(Value::Null.is_subset(&Value::Null));
}

#[test]
fn when_null_is_subset_of_optional() {
    assert!(Value::Null.is_subset(&num(true)));
}

#[test]
fn when_null_is_not_subset_of_number() {
    assert!(!Value::Null.is_subset(&num(false)));
}

#[test]
fn when_number_is_subset_of_number() {
    assert!(num(false).is_subset(&num(false)));
}

#[test]
fn when_number_is_subset_of_optional_number() {
    assert!(num(false).is_subset(&num(true)));
}

#[test]
fn when_optional_number_is_subset_of_optional_number() {
    assert!(num(true).is_subset(&num(true)));
}

#[test]
fn when_optional_number_is_not_subset_of_number() {
    assert!(!num(true).is_subset(&num(false)));
}

#[test]
fn when_number_is_not_subset_of_string() {
    assert!(!num(false).is_subset(&txt(false)));
}

#[test]
fn when_number_is_subset_of_oneof_with_number_variant() {
    assert!(num(false).is_subset(&one(vec![num(false), Value::Null], false)));
}

#[test]
fn when_number_is_subset_of_oneof_with_optional_number_variant() {
    assert!(num(false).is_subset(&one(vec![num(true), Value::Null], false)));
}

#[test]
fn when_string_is_subset_of_string() {
    assert!(txt(false).is_subset(&txt(false)));
}

#[test]
fn when_string_is_subset_of_optional_string() {
    assert!(txt(false).is_subset(&txt(true)));
}

#[test]
fn when_optional_string_is_subset_of_optional_string() {
    assert!(txt(true).is_subset(&txt(true)));
}

#[test]
fn when_optional_string_is_not_subset_of_string() {
    assert!(!txt(true).is_subset(&txt(false)));
}

#[test]
fn when_string_is_not_subset_of_string() {
    assert!(!txt(false).is_subset(&num(false)));
}

#[test]
fn when_string_is_subset_of_oneof_with_string_variant() {
    assert!(txt(false).is_subset(&one(vec![txt(false), Value::Null], false)));
}

#[test]
fn when_string_is_subset_of_oneof_with_optional_string_variant() {
    assert!(txt(false).is_subset(&one(vec![txt(true), Value::Null], false)));
}

#[test]
fn when_bool_is_subset_of_bool() {
    assert!(boo(false).is_subset(&boo(false)));
}

#[test]
fn when_bool_is_subset_of_optional_bool() {
    assert!(boo(false).is_subset(&boo(true)));
}

#[test]
fn when_optional_bool_is_subset_of_optional_bool() {
    assert!(boo(true).is_subset(&boo(true)));
}

#[test]
fn when_optional_bool_is_not_subset_of_bool() {
    assert!(!boo(true).is_subset(&boo(false)));
}

#[test]
fn when_bool_is_not_subset_of_string() {
    assert!(!boo(false).is_subset(&txt(false)));
}

#[test]
fn when_bool_is_subset_of_oneof_with_bool_variant() {
    assert!(boo(false).is_subset(&one(vec![boo(false), Value::Null], false)));
}

#[test]
fn when_bool_is_subset_of_oneof_with_optional_bool_variant() {
    assert!(boo(false).is_subset(&one(vec![boo(true), Value::Null], false)));
}

#[test]
fn when_array_number_is_subset_of_array_number() {
    assert!(arr(num(false), false).is_subset(&arr(num(false), false)));
}

#[test]
fn when_array_number_is_subset_of_optional_array_number() {
    assert!(arr(num(false), false).is_subset(&arr(num(false), true)));
}

#[test]
fn when_array_number_is_subset_of_array_optional_number() {
    assert!(arr(num(false), false).is_subset(&arr(num(true), false)));
}

#[test]
fn when_array_number_is_subset_of_optional_array_optional_number() {
    assert!(arr(num(false), false).is_subset(&arr(num(true), true)));
}

#[test]
fn when_array_optional_number_is_subset_of_array_number() {
    assert!(!arr(num(true), false).is_subset(&arr(num(false), false)));
}

#[test]
fn when_array_optional_number_is_subset_of_optional_array_number() {
    assert!(!arr(num(true), false).is_subset(&arr(num(false), true)));
}

#[test]
fn when_array_optional_number_is_subset_of_array_optional_number() {
    assert!(arr(num(true), false).is_subset(&arr(num(true), false)));
}

#[test]
fn when_array_optional_number_is_subset_of_optional_array_optional_number() {
    assert!(arr(num(true), false).is_subset(&arr(num(true), true)));
}

#[test]
fn when_optional_array_number_is_subset_of_array_number() {
    assert!(!arr(num(false), true).is_subset(&arr(num(false), false)));
}

#[test]
fn when_optional_array_number_is_subset_of_optional_array_number() {
    assert!(arr(num(false), true).is_subset(&arr(num(false), true)));
}

#[test]
fn when_optional_array_number_is_subset_of_array_optional_number() {
    assert!(!arr(num(false), true).is_subset(&arr(num(true), false)));
}

#[test]
fn when_optional_array_number_is_subset_of_optional_array_optional_number() {
    assert!(arr(num(false), true).is_subset(&arr(num(true), true)));
}

#[test]
fn when_optional_array_optional_number_is_subset_of_array_number() {
    assert!(!arr(num(true), true).is_subset(&arr(num(false), false)));
}

#[test]
fn when_optional_array_optional_number_is_subset_of_optional_array_number() {
    assert!(!arr(num(true), true).is_subset(&arr(num(false), true)));
}

#[test]
fn when_optional_array_optional_number_is_subset_of_array_optional_number() {
    assert!(!arr(num(true), true).is_subset(&arr(num(true), false)));
}

#[test]
fn when_optional_array_optional_number_is_subset_of_optional_array_optional_number() {
    assert!(arr(num(true), true).is_subset(&arr(num(true), true)));
}

#[test]
fn when_oneof_is_subset_of_equal_oneof() {
    assert!(one(vec![num(false)], false).is_subset(&one(vec![num(false)], false)));
}

#[test]
fn when_oneof_is_subset_of_equal_optional_oneof() {
    assert!(one(vec![num(false)], false).is_subset(&one(vec![num(false)], true)));
}

#[test]
fn when_oneof_is_subset_of_larger_oneof() {
    assert!(one(vec![num(false)], false).is_subset(&one(vec![num(false), txt(false)], false)));
}

#[test]
fn when_oneof_is_subset_of_larger_oneof_with_optional_superset() {
    assert!(one(vec![num(false)], false).is_subset(&one(vec![num(true), txt(false)], false)));
}

#[test]
fn when_oneof_is_subset_of_diff_oneof() {
    assert!(!one(vec![num(false)], false).is_subset(&one(vec![boo(false), txt(false)], false)));
}

#[test]
fn when_optional_oneof_is_subset_of_equal_oneof() {
    assert!(one(vec![num(false)], true).is_subset(&one(vec![num(false)], true)));
}

#[test]
fn when_optional_oneof_is_not_subset_of_non_optional_oneof() {
    assert!(!one(vec![num(false)], true).is_subset(&one(vec![num(false)], false)));
}

#[test]
fn when_optional_oneof_is_subset_of_equal_optional_oneof() {
    assert!(one(vec![num(false)], true).is_subset(&one(vec![num(false)], true)));
}

#[test]
fn when_optional_oneof_is_subset_of_larger_oneof() {
    assert!(one(vec![num(false)], true).is_subset(&one(vec![num(false), txt(false)], true)));
}

#[test]
fn when_optional_oneof_is_subset_of_larger_oneof_with_optional_superset() {
    assert!(one(vec![num(false)], true).is_subset(&one(vec![num(true), txt(false)], true)));
}

#[test]
fn when_optional_oneof_is_not_subset_of_diff_oneof() {
    assert!(!one(vec![num(false)], true).is_subset(&one(vec![boo(false), txt(false)], false)));
}

#[test]
fn when_empty_obj_is_subset_of_empty_obj() {
    assert!(obj(vec![], false).is_subset(&obj(vec![], false)));
}

#[test]
fn when_optional_empty_obj_is_subset_of_empty_obj() {
    assert!(!obj(vec![], true).is_subset(&obj(vec![], false)));
}

#[test]
fn when_empty_obj_is_subset_of_obj_with_null() {
    assert!(obj(vec![], false).is_subset(&obj(vec![("key", Value::Null)], false)));
}

#[test]
fn when_empty_obj_is_subset_of_obj_with_optional() {
    assert!(obj(vec![], false).is_subset(&obj(vec![("key", num(true))], false)));
}

#[test]
fn when_empty_obj_is_not_subset_of_obj_with_value() {
    assert!(!obj(vec![], false).is_subset(&obj(vec![("key", num(false))], false)));
}

#[test]
fn when_obj_is_subset_of_obj_with_same_optional() {
    assert!(obj(vec![("key", num(false))], false).is_subset(&obj(vec![("key", num(true))], false)));
}

#[test]
fn when_obj_of_optionalis_subset_of_obj_with_same() {
    assert!(obj(vec![("key", num(true))], false).is_subset(&obj(vec![("key", num(true))], false)));
}

#[test]
fn when_obj_is_not_subset_of_obj_with_different_same_key() {
    assert!(!obj(vec![("key", num(false))], false).is_subset(&obj(vec![("key", boo(true))], false)));
}

#[test]
fn when_obj_is_subset_of_obj_with_same_key_superset() {
    assert!(obj(vec![("key", num(false))], false).is_subset(&obj(
        vec![("key", one(vec![num(false), boo(false), Value::Null], false))],
        false
    )));
}

#[test]
fn when_large_obj_is_subset_of_larger_obj() {
    assert!(obj(
        vec![
            ("key", num(false)),
            ("b", boo(false)),
            ("s", txt(true)),
        ],
        true
    )
    .is_subset(&obj(
        vec![
            ("key", num(true)),
            ("b", boo(false)),
            ("s", txt(true)),
            ("z", txt(true)),
            ("n", num(true)),
        ],
        true
    )));
}

#[test]
fn object_as_subset_of_oneof() {
    let shape = one(
        vec![
            obj(
                vec![("number", num(false)), ("state", txt(false))],
                false,
            ),
            arr(num(false), false),
        ],
        false,
    );

    let value = obj(vec![("number", num(false)), ("state", txt(false))], false);

    assert!(value.is_subset(&shape));
}

#[test]
fn null_is_subset_of_null() {
    assert!(Value::Null.is_subset(&Value::Null));
}

#[test]
fn null_is_not_subset_of_number() {
    assert!(!Value::Null.is_subset(&num(false)));
}

#[test]
fn null_is_not_subset_of_string() {
    assert!(!Value::Null.is_subset(&txt(false)));
}

#[test]
fn number_is_subset_of_number() {
    assert!(num(false).is_subset(&num(false)));
}

#[test]
fn number_is_not_subset_of_string() {
    assert!(!num(false).is_subset(&txt(false)));
}

#[test]
fn number_is_not_subset_of_null() {
    assert!(!num(false).is_subset(&Value::Null));
}

#[test]
fn string_is_subset_of_string() {
    assert!(txt(false).is_subset(&txt(false)));
}

#[test]
fn string_is_not_subset_of_number() {
    assert!(!txt(false).is_subset(&num(false)));
}

#[test]
fn string_is_not_subset_of_null() {
    assert!(!txt(false).is_subset(&Value::Null));
}

#[test]
fn boolean_is_subset_of_boolean() {
    assert!(boo(false).is_subset(&boo(false)));
}

#[test]
fn boolean_is_not_subset_of_number() {
    assert!(!boo(false).is_subset(&num(false)));
}

#[test]
fn boolean_is_not_subset_of_string() {
    assert!(!boo(false).is_subset(&txt(false)));
}

#[test]
fn when_number_is_subset_of_oneof_holding_only_its_optional_form() {
    assert!(num(false).is_subset(&one(vec![num(true)], false)));
    assert!(num(true).is_subset(&one(vec![num(true)], false)));
}

#[test]
fn when_optional_number_is_not_subset_of_oneof_without_its_optional_form() {
    assert!(!num(true).is_subset(&one(vec![num(false), txt(false)], false)));
    assert!(num(true).is_subset(&one(vec![num(false), Value::Null], false)));
}

#[test]
fn when_array_is_subset_of_oneof_through_a_wider_array_variant() {
    let target = one(vec![arr(one(vec![num(false), boo(false)], false), false)], false);
    assert!(arr(num(false), false).is_subset(&target));
    assert!(!arr(txt(false), false).is_subset(&target));
}

#[test]
fn when_tuple_is_subset_of_oneof_through_a_wider_tuple_variant() {
    let target = one(
        vec![Value::Tuple {
            elements: vec![num(true), txt(false)],
            optional: false,
        }],
        false,
    );
    let narrow = Value::Tuple {
        elements: vec![num(false), txt(false)],
        optional: false,
    };
    assert!(narrow.is_subset(&target));
}

#[test]
fn when_obj_keys_missing_from_the_target_are_ignored() {
    assert!(obj(vec![("a", num(false))], false).is_subset(&obj(vec![], false)));
    assert!(obj(vec![("a", num(false)), ("b", txt(false))], false)
        .is_subset(&obj(vec![("b", txt(true))], false)));
}
