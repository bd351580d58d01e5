//! Merging shapes: the join case table.

use json_shape::merge::{merge, merger};
use json_shape::Value;

fn obj(pairs: Vec<(&str, Value)>, optional: bool) -> Value {
    Value::object(
        pairs.into_iter().map(|(k, v)| (k.to_string(), v)).collect(),
        optional,
    )
}

fn one(variants: Vec<Value>, optional: bool) -> Value {
    Value::one_of(variants, optional)
}

fn num(optional: bool) -> Value {
    Value::Number { optional }
}

fn txt(optional: bool) -> Value {
    Value::String { optional }
}

fn boo(optional: bool) -> Value {
    Value::Bool { optional }
}

fn arr(element: Value, optional: bool) -> Value {
    Value::Array { element: Box::new(element), optional }
}

fn tup(elements: Vec<Value>, optional: bool) -> Value {
    Value::Tuple { elements, optional }
}

#[test]
fn merge_simple_json_objects_as_one_of() {
    let value_1 = Value::Null;
    let value_2 = boo(false);
    let value_3 = num(false);
    let value_4 = txt(false);

    let result = merge(&[value_1, value_2, value_3, value_4]).unwrap();

    assert_eq!(
        result,
        one(vec![Value::Null, boo(false), num(false), txt(false)], false)
    );
}

#[test]
fn merge_simple_json_objects_with_optional_as_one_of() {
    let value_2 = boo(false);
    let value_3 = num(false);
    let value_4 = txt(false);
    let value_5 = num(true);

    let result = merge(&[value_2, value_3, value_4, value_5]).unwrap();

    assert_eq!(
        result,
        one(vec![Value::Null, boo(false), num(false), txt(false)], false)
    );
}

#[test]
fn merge_one_ofs() {
    let value_1 = one(vec![num(false), boo(false)], true);
    let value_2 = one(vec![num(false), txt(false)], false);

    let expected = one(vec![num(false), boo(false), txt(false)], true);

    assert_eq!(merge(&[value_1, value_2]).unwrap(), expected);
}

#[test]
fn merge_objects() {
    let value_1 = obj(
        vec![
            ("same_kv", boo(false)),
            ("same_k_diff_v", num(false)),
            ("key", txt(false)),
        ],
        false,
    );
    let value_2 = obj(
        vec![
            ("same_kv", boo(false)),
            ("same_k_diff_v", txt(false)),
            ("other_key", boo(false)),
        ],
        false,
    );

    let expected = obj(
        vec![
            ("same_kv", boo(false)),
            ("same_k_diff_v", one(vec![txt(false), num(false)], false)),
            ("other_key", boo(true)),
            ("key", txt(true)),
        ],
        false,
    );

    assert_eq!(merge(&[value_1, value_2]).unwrap(), expected);
}

#[test]
fn merge_diff_arrays() {
    let value_1 = arr(txt(true), true);
    let value_2 = arr(boo(false), false);

    let expected = arr(one(vec![txt(false), boo(false), Value::Null], false), true);

    assert_eq!(merge(&[value_1, value_2]).unwrap(), expected);
}

#[test]
fn merge_same_arrays() {
    let value_1 = arr(txt(true), false);
    let value_2 = arr(txt(false), false);

    let expected = arr(txt(true), false);

    assert_eq!(merge(&[value_1, value_2]).unwrap(), expected);
}

#[test]
fn merge_objects_with_different_keys() {
    let value_1 = obj(
        vec![("key1", txt(false)), ("key2", num(false))],
        false,
    );
    let value_2 = obj(
        vec![("key3", boo(false)), ("key4", arr(txt(false), false))],
        false,
    );

    let expected = obj(
        vec![
            ("key1", txt(true)),
            ("key2", num(true)),
            ("key3", boo(true)),
            ("key4", arr(txt(false), true)),
        ],
        false,
    );

    assert_eq!(merge(&[value_1, value_2]).unwrap(), expected);
}

#[test]
fn merge_arrays_with_different_types() {
    let value_1 = arr(num(false), false);
    let value_2 = arr(txt(false), false);

    let expected = arr(one(vec![num(false), txt(false)], false), false);

    assert_eq!(merge(&[value_1, value_2]).unwrap(), expected);
}

#[test]
fn merge_value_with_itself() {
    let value = num(false);
    assert_eq!(merge(&[value.clone(), value.clone()]).unwrap(), value);
}

#[test]
fn merge_empty_array_with_non_empty_array() {
    let value_1 = arr(num(false), false);
    let value_2 = arr(num(false), false);

    let expected = arr(num(false), false);

    assert_eq!(merge(&[value_1, value_2]).unwrap(), expected);
}

#[test]
fn merge_tuples_with_same_length() {
    let value_1 = tup(vec![num(false), txt(true)], false);
    let value_2 = tup(vec![num(true), txt(false)], false);

    let expected = tup(vec![num(true), txt(true)], false);

    assert_eq!(merge(&[value_1, value_2]).unwrap(), expected);
}

#[test]
fn merge_tuples_with_same_length_optional_tuples() {
    let value_1 = tup(vec![num(false), txt(false)], false);
    let value_2 = tup(vec![num(false), txt(false)], true);

    let expected = tup(vec![num(false), txt(false)], true);

    assert_eq!(merge(&[value_1, value_2]).unwrap(), expected);
}

#[test]
fn merge_tuples_with_different_lengths() {
    let value_1 = tup(vec![num(false), txt(false)], false);
    let value_2 = tup(vec![boo(false), num(false), txt(true)], false);

    let expected = arr(
        one(
            vec![boo(false), num(false), txt(false), Value::Null],
            false,
        ),
        false,
    );

    assert_eq!(merge(&[value_1, value_2]).unwrap(), expected);
}

#[test]
fn merge_tuple_with_array() {
    let value_1 = tup(vec![num(false), txt(false)], false);
    let value_2 = arr(num(false), false);

    let expected = arr(one(vec![num(false), txt(false)], false), false);

    assert_eq!(merge(&[value_1, value_2]).unwrap(), expected);
}

#[test]
fn merge_arrays_with_same_type() {
    let value_1 = arr(num(false), false);
    let value_2 = arr(num(false), false);

    let expected = arr(num(false), false);

    assert_eq!(merge(&[value_1, value_2]).unwrap(), expected);
}

#[test]
fn merge_arrays_with_same_type_but_one_optional() {
    let value_1 = arr(num(false), false);
    let value_2 = arr(num(true), false);

    let expected = arr(num(true), false);

    assert_eq!(merge(&[value_1, value_2]).unwrap(), expected);
}

#[test]
fn merger_null_with_null_stays_null() {
    assert_eq!(merger(Value::Null, Value::Null).unwrap(), Value::Null);
}

#[test]
fn merger_null_widens_the_other_operand() {
    assert_eq!(merger(Value::Null, num(false)).unwrap(), num(true));
    assert_eq!(merger(txt(false), Value::Null).unwrap(), txt(true));
}

#[test]
fn merge_of_zero_documents_is_the_empty_file_error() {
    let none: [Value; 0] = [];
    assert_eq!(merge(&none).unwrap_err(), json_shape::error::Error::EmptyFile);
}

#[test]
fn merge_left_fold_matches_pairwise_merges() {
    let a = num(false);
    let b = txt(false);
    let c = boo(true);

    let folded = merge(&[a.clone(), b.clone(), c.clone()]).unwrap();
    let ab = merger(a, b).unwrap();
    let pairwise = merger(ab, c).unwrap();

    assert_eq!(folded, pairwise);
}

#[test]
fn merge_object_with_null_key_value() {
    let value_1 = obj(vec![("a", num(false))], false);
    let value_2 = obj(vec![("a", Value::Null)], false);

    let expected = obj(vec![("a", num(true))], false);

    assert_eq!(merge(&[value_1, value_2]).unwrap(), expected);
}

#[test]
fn merge_optional_array_with_tuple_collapses_symmetrically() {
    let array = arr(num(false), true);
    let tuple = tup(vec![num(false)], false);

    let expected = arr(one(vec![Value::Null, num(false)], false), true);

    assert_eq!(
        merge(&[array.clone(), tuple.clone()]).unwrap(),
        expected,
        "array-first order"
    );
    assert_eq!(
        merge(&[tuple, array]).unwrap(),
        expected,
        "tuple-first order"
    );
}

#[test]
fn merge_array_with_tuple_drops_element_optionality_into_the_union() {
    let array = arr(num(true), false);
    let tuple = tup(vec![txt(false)], false);

    let expected = arr(one(vec![num(false), txt(false)], false), false);

    assert_eq!(merge(&[array, tuple]).unwrap(), expected);
}
