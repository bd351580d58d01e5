//! Marker-driven checks for one specific subtype of a shape.
//!
//! The phantom marker types select, at the type level, which variant a query
//! asks about: `IsArrayOf::<Number>::is_array_of(&value)` or
//! `IsOneOf::<Null>::is_one_of(&value)`.

use vstd::prelude::*;
use vstd::string::StrSliceExecFns;

use crate::order::{kind_code, kind_idx, value_eq, Ord3};
use crate::value::{shapes_model, shapes_model_props, fields_model, fields_model_props, Shape,
    Value};

verus! {

/// Simple helper phantom struct to determine if a shape is of subtype `Null`.
pub struct Null;

/// Simple helper phantom struct to determine if a shape is of subtype `Number`.
pub struct Number;

/// Simple helper phantom struct to determine if a shape is of subtype `Boolean`.
pub struct Boolean;

/// Simple helper phantom struct to determine if a shape is of subtype `String`.
pub struct Str;

/// Simple helper phantom struct to determine if a shape is of subtype `Array`.
pub struct Array;

/// Simple helper phantom struct to determine if a shape is of subtype `Tuple`.
pub struct Tuple;

/// Simple helper phantom struct to determine if a shape is of subtype `Object`.
pub struct Object;

/// Simple helper phantom struct to determine if a shape is of subtype `OneOf`.
pub struct OneOf;

/// Simple helper struct to determine if a shape is of a specific optional
/// subtype.
#[verifier::reject_recursive_types(U)]
pub struct Optional<U> {
    marker: core::marker::PhantomData<U>,
}

/// Implementation detail: the subtype queries are offered for [`Value`] only.
pub trait Sealed {

}

impl Sealed for Value {

}

/// Whether a shape has the given kind rank, with the given optionality when
/// one is demanded.
pub open spec fn variant_matches(s: Shape, k: int, opt: Option<bool>) -> bool {
    kind_idx(s) == k && (match opt {
        Option::Some(b) => s.opt() == b,
        Option::None => true,
    })
}

/// Whether the shape is an array whose element matches the kind and
/// optionality.
fn array_elem_matches(v: &Value, k: u8, opt: Option<bool>) -> (r: bool)
    ensures
        r == (v@ matches Shape::Array { element, .. } && variant_matches(
            *element,
            k as int,
            opt,
        )),
{
    if let Value::Array { element, .. } = v {
        let km = kind_code(element) == k;
        let om = match opt {
            Some(b) => element.is_optional() == b,
            None => true,
        };
        km && om
    } else {
        false
    }
}

/// Whether the shape is a union with a variant matching the kind and
/// optionality.
#[verifier::loop_isolation(false)]
fn oneof_has_variant(v: &Value, k: u8, opt: Option<bool>) -> (r: bool)
    ensures
        r == (v@ matches Shape::OneOf { variants, .. } && exists|i: int|
            0 <= i < variants.len() && variant_matches(#[trigger] variants[i], k as int, opt)),
{
    if let Value::OneOf { variants, .. } = v {
        proof {
            shapes_model_props(variants@);
        }
        let ghost m = shapes_model(variants@);
        proof {
            assert(v@ matches Shape::OneOf { variants: vv, .. } && vv == m);
        }
        let mut i: usize = 0;
        while i < variants.len()
            invariant
                i <= variants.len(),
                forall|j: int|
                    0 <= j < i as int ==> !variant_matches(#[trigger] m[j], k as int, opt),
            decreases variants.len() - i,
        {
            let km = kind_code(&variants[i]) == k;
            let om = match opt {
                Some(b) => variants[i].is_optional() == b,
                None => true,
            };
            if km && om {
                proof {
                    assert(variant_matches(m[i as int], k as int, opt));
                }
                return true;
            }
            i += 1;
        }
        proof {
            if exists|j: int|
                0 <= j < m.len() && variant_matches(#[trigger] m[j], k as int, opt) {
                let j = choose|j: int|
                    0 <= j < m.len() && variant_matches(#[trigger] m[j], k as int, opt);
                assert(false);
            }
        }
        false
    } else {
        false
    }
}

/// Whether the shape is a union with `Null` among its variants.
fn oneof_has_null(v: &Value) -> (r: bool)
    ensures
        r == (v@ matches Shape::OneOf { variants, .. } && variants.contains(Shape::Null)),
{
    if let Value::OneOf { variants, .. } = v {
        crate::canon::contains_value(variants, &Value::Null)
    } else {
        false
    }
}

/// Whether the shape is an object binding the key to a shape matching the
/// kind and optionality.
#[verifier::loop_isolation(false)]
fn object_value_matches(v: &Value, key: &str, k: u8, opt: Option<bool>) -> (r: bool)
    ensures
        r == (v@ matches Shape::Object { content, .. } && exists|i: int|
            0 <= i < content.len() && (#[trigger] content[i]).0 == key@ && variant_matches(
                content[i].1,
                k as int,
                opt,
            )),
{
    if let Value::Object { content, .. } = v {
        proof {
            fields_model_props(content@);
        }
        let ghost m = fields_model(content@);
        proof {
            assert(v@ matches Shape::Object { content: cc, .. } && cc == m);
        }
        let mut i: usize = 0;
        while i < content.len()
            invariant
                i <= content.len(),
                forall|j: int|
                    0 <= j < i as int ==> !((#[trigger] m[j]).0 == key@ && variant_matches(
                        m[j].1,
                        k as int,
                        opt,
                    )),
            decreases content.len() - i,
        {
            let keq = matches!(crate::order::cmp_keys(content[i].0.as_str(), key), Ord3::Eq);
            let km = kind_code(&content[i].1) == k;
            let om = match opt {
                Some(b) => content[i].1.is_optional() == b,
                None => true,
            };
            if keq && km && om {
                proof {
                    crate::order::lemma_chars_cmp_eq(content@[i as int].0@, key@);
                    assert(m[i as int].0 == key@ && variant_matches(m[i as int].1, k as int, opt));
                }
                return true;
            }
            proof {
                if m[i as int].0 == key@ && variant_matches(m[i as int].1, k as int, opt) {
                    crate::order::lemma_chars_cmp_refl(key@);
                }
            }
            i += 1;
        }
        proof {
            if exists|j: int|
                0 <= j < m.len() && (#[trigger] m[j]).0 == key@ && variant_matches(
                    m[j].1,
                    k as int,
                    opt,
                ) {
                let j = choose|j: int|
                    0 <= j < m.len() && (#[trigger] m[j]).0 == key@ && variant_matches(
                        m[j].1,
                        k as int,
                        opt,
                    );
                assert(false);
            }
        }
        false
    } else {
        false
    }
}

/// Whether the shape is a tuple whose position matches the kind and
/// optionality.
fn tuple_elem_matches(v: &Value, i: usize, k: u8, opt: Option<bool>) -> (r: bool)
    ensures
        r == (v@ matches Shape::Tuple { elements, .. } && i < elements.len() && variant_matches(
            elements[i as int],
            k as int,
            opt,
        )),
{
    if let Value::Tuple { elements, .. } = v {
        proof {
            shapes_model_props(elements@);
        }
        if i >= elements.len() {
            return false;
        }
        let km = kind_code(&elements[i]) == k;
        let om = match opt {
            Some(b) => elements[i].is_optional() == b,
            None => true,
        };
        km && om
    } else {
        false
    }
}

impl Value {
    /// Checks if the shape is a tuple of exactly these shapes, in the same
    /// order.
    #[verifier::loop_isolation(false)]
    pub fn is_tuple_of(&self, types: &[Value]) -> (r: bool)
        ensures
            r == (self@ matches Shape::Tuple { elements, .. } && elements == shapes_model(
                types@,
            )),
    {
        if let Value::Tuple { elements, .. } = self {
            proof {
                shapes_model_props(elements@);
                shapes_model_props(types@);
            }
            let ghost ma = shapes_model(elements@);
            let ghost mb = shapes_model(types@);
            proof {
                assert(self@ matches Shape::Tuple { elements: ee, .. } && ee == ma);
            }
            if elements.len() != types.len() {
                proof {
                    assert(ma.len() != mb.len());
                    assert(ma != mb);
                }
                return false;
            }
            let mut i: usize = 0;
            while i < elements.len()
                invariant
                    i <= elements.len(),
                    forall|j: int| 0 <= j < i as int ==> #[trigger] ma[j] == mb[j],
                decreases elements.len() - i,
            {
                if !value_eq(&elements[i], vstd::slice::slice_index_get(types, i)) {
                    proof {
                        assert(ma[i as int] != mb[i as int]);
                        assert(ma != mb);
                    }
                    return false;
                }
                i += 1;
            }
            proof {
                assert(ma =~= mb);
            }
            true
        } else {
            false
        }
    }
}

/// Checks if a shape is an Array of `T`.
pub trait IsArrayOf<T>: Sealed {
    /// Checks if a shape is an Array of `T`, as in
    /// `IsArrayOf::<Null>::is_array_of(&value)`.
    fn is_array_of(&self) -> bool;
}

/// Checks if a shape is a Tuple holding `T` at position `i`.
pub trait IsTupleOf<T>: Sealed {
    /// Checks if a shape is a Tuple holding `T` at position `i`, as in
    /// `IsTupleOf::<Null>::is_tuple_of(&value, 2)`.
    fn is_tuple_of(&self, i: usize) -> bool;
}

/// Checks if a shape is a union containing `T`.
pub trait IsOneOf<T>: Sealed {
    /// Checks if a shape is a union containing `T`, as in
    /// `IsOneOf::<Null>::is_one_of(&value)`.
    fn is_one_of(&self) -> bool;
}

/// Checks if a shape is an Object binding `key` to a `T`.
pub trait IsObjectOf<T>: Sealed {
    /// Checks if a shape is an Object binding `key` to a `T`, as in
    /// `IsObjectOf::<Null>::is_object_of(&value, "key_1")`.
    fn is_object_of(&self, key: &str) -> bool;
}

} // verus!

verus! {

impl IsArrayOf<Null> for Value {
    /// The element is the `Null` shape.
    fn is_array_of(&self) -> bool {
        array_elem_matches(self, 0, None)
    }
}

impl IsArrayOf<Number> for Value {
    /// The element is a non-optional number.
    fn is_array_of(&self) -> bool {
        array_elem_matches(self, 2, Some(false))
    }
}

impl IsArrayOf<Optional<Number>> for Value {
    /// The element is an optional number.
    fn is_array_of(&self) -> bool {
        array_elem_matches(self, 2, Some(true))
    }
}

impl IsArrayOf<Tuple> for Value {
    /// The element is a non-optional tuple.
    fn is_array_of(&self) -> bool {
        array_elem_matches(self, 7, Some(false))
    }
}

impl IsArrayOf<Optional<Tuple>> for Value {
    /// The element is an optional tuple.
    fn is_array_of(&self) -> bool {
        array_elem_matches(self, 7, Some(true))
    }
}

impl IsArrayOf<Str> for Value {
    /// The element is a non-optional string.
    fn is_array_of(&self) -> bool {
        array_elem_matches(self, 3, Some(false))
    }
}

impl IsArrayOf<Optional<Str>> for Value {
    /// The element is an optional string.
    fn is_array_of(&self) -> bool {
        array_elem_matches(self, 3, Some(true))
    }
}

impl IsArrayOf<Boolean> for Value {
    /// The element is a non-optional boolean.
    fn is_array_of(&self) -> bool {
        array_elem_matches(self, 1, Some(false))
    }
}

impl IsArrayOf<Optional<Boolean>> for Value {
    /// The element is an optional boolean.
    fn is_array_of(&self) -> bool {
        array_elem_matches(self, 1, Some(true))
    }
}

impl IsArrayOf<Array> for Value {
    /// The element is a non-optional array.
    fn is_array_of(&self) -> bool {
        array_elem_matches(self, 4, Some(false))
    }
}

impl IsArrayOf<Optional<Array>> for Value {
    /// The element is an optional array.
    fn is_array_of(&self) -> bool {
        array_elem_matches(self, 4, Some(true))
    }
}

impl IsArrayOf<Object> for Value {
    /// The element is a non-optional object.
    fn is_array_of(&self) -> bool {
        array_elem_matches(self, 5, Some(false))
    }
}

impl IsArrayOf<Optional<Object>> for Value {
    /// The element is an optional object.
    fn is_array_of(&self) -> bool {
        array_elem_matches(self, 5, Some(true))
    }
}

impl IsArrayOf<OneOf> for Value {
    /// The element is a non-optional union.
    fn is_array_of(&self) -> bool {
        array_elem_matches(self, 6, Some(false))
    }
}

impl IsArrayOf<Optional<OneOf>> for Value {
    /// The element is an optional union.
    fn is_array_of(&self) -> bool {
        array_elem_matches(self, 6, Some(true))
    }
}

impl IsOneOf<Null> for Value {
    /// `Null` is a member of the union.
    fn is_one_of(&self) -> bool {
        oneof_has_null(self)
    }
}

impl IsOneOf<Number> for Value {
    /// A non-optional number is a member of the union.
    fn is_one_of(&self) -> bool {
        oneof_has_variant(self, 2, Some(false))
    }
}

impl IsOneOf<Str> for Value {
    /// A non-optional string is a member of the union.
    fn is_one_of(&self) -> bool {
        oneof_has_variant(self, 3, Some(false))
    }
}

impl IsOneOf<Boolean> for Value {
    /// A non-optional boolean is a member of the union.
    fn is_one_of(&self) -> bool {
        oneof_has_variant(self, 1, Some(false))
    }
}

impl IsOneOf<Array> for Value {
    /// A non-optional array is a member of the union.
    fn is_one_of(&self) -> bool {
        oneof_has_variant(self, 4, Some(false))
    }
}

impl IsOneOf<Object> for Value {
    /// A non-optional object is a member of the union.
    fn is_one_of(&self) -> bool {
        oneof_has_variant(self, 5, Some(false))
    }
}

impl IsOneOf<OneOf> for Value {
    /// A non-optional union is a member of the union.
    fn is_one_of(&self) -> bool {
        oneof_has_variant(self, 6, Some(false))
    }
}

impl IsOneOf<Tuple> for Value {
    /// A non-optional tuple is a member of the union.
    fn is_one_of(&self) -> bool {
        oneof_has_variant(self, 7, Some(false))
    }
}

impl IsOneOf<Optional<Tuple>> for Value {
    /// An optional tuple is a member of the union.
    fn is_one_of(&self) -> bool {
        oneof_has_variant(self, 7, Some(true))
    }
}

impl IsOneOf<Optional<Number>> for Value {
    /// A number of either optionality and an explicit `Null` are members.
    fn is_one_of(&self) -> bool {
        let has = oneof_has_variant(self, 2, None);
        has && oneof_has_null(self)
    }
}

impl IsOneOf<Optional<Str>> for Value {
    /// A string of either optionality and an explicit `Null` are members.
    fn is_one_of(&self) -> bool {
        let has = oneof_has_variant(self, 3, None);
        has && oneof_has_null(self)
    }
}

impl IsOneOf<Optional<Boolean>> for Value {
    /// A boolean of either optionality and an explicit `Null` are members.
    fn is_one_of(&self) -> bool {
        let has = oneof_has_variant(self, 1, None);
        has && oneof_has_null(self)
    }
}

impl IsOneOf<Optional<Array>> for Value {
    /// A array of either optionality and an explicit `Null` are members.
    fn is_one_of(&self) -> bool {
        let has = oneof_has_variant(self, 4, None);
        has && oneof_has_null(self)
    }
}

impl IsOneOf<Optional<Object>> for Value {
    /// A object of either optionality and an explicit `Null` are members.
    fn is_one_of(&self) -> bool {
        let has = oneof_has_variant(self, 5, None);
        has && oneof_has_null(self)
    }
}

impl IsOneOf<Optional<OneOf>> for Value {
    /// An optional union is a member, or the union itself is optional.
    fn is_one_of(&self) -> bool {
        let in_variants = oneof_has_variant(self, 6, Some(true));
        if in_variants {
            true
        } else {
            matches!(self, Value::OneOf { .. }) && self.is_optional()
        }
    }
}

impl IsObjectOf<Null> for Value {
    /// The key is bound to the `Null` shape.
    fn is_object_of(&self, key: &str) -> bool {
        object_value_matches(self, key, 0, None)
    }
}

impl IsObjectOf<Number> for Value {
    /// The key is bound to a non-optional number.
    fn is_object_of(&self, key: &str) -> bool {
        object_value_matches(self, key, 2, Some(false))
    }
}

impl IsObjectOf<Str> for Value {
    /// The key is bound to a non-optional string.
    fn is_object_of(&self, key: &str) -> bool {
        object_value_matches(self, key, 3, Some(false))
    }
}

impl IsObjectOf<Boolean> for Value {
    /// The key is bound to a non-optional boolean.
    fn is_object_of(&self, key: &str) -> bool {
        object_value_matches(self, key, 1, Some(false))
    }
}

impl IsObjectOf<Array> for Value {
    /// The key is bound to a non-optional array.
    fn is_object_of(&self, key: &str) -> bool {
        object_value_matches(self, key, 4, Some(false))
    }
}

impl IsObjectOf<Tuple> for Value {
    /// The key is bound to a non-optional tuple.
    fn is_object_of(&self, key: &str) -> bool {
        object_value_matches(self, key, 7, Some(false))
    }
}

impl IsObjectOf<Object> for Value {
    /// The key is bound to a non-optional object.
    fn is_object_of(&self, key: &str) -> bool {
        object_value_matches(self, key, 5, Some(false))
    }
}

impl IsObjectOf<OneOf> for Value {
    /// The key is bound to a non-optional union.
    fn is_object_of(&self, key: &str) -> bool {
        object_value_matches(self, key, 6, Some(false))
    }
}

impl IsObjectOf<Optional<Number>> for Value {
    /// The key is bound to an optional number.
    fn is_object_of(&self, key: &str) -> bool {
        object_value_matches(self, key, 2, Some(true))
    }
}

impl IsObjectOf<Optional<Str>> for Value {
    /// The key is bound to an optional string.
    fn is_object_of(&self, key: &str) -> bool {
        object_value_matches(self, key, 3, Some(true))
    }
}

impl IsObjectOf<Optional<Boolean>> for Value {
    /// The key is bound to an optional boolean.
    fn is_object_of(&self, key: &str) -> bool {
        object_value_matches(self, key, 1, Some(true))
    }
}

impl IsObjectOf<Optional<Array>> for Value {
    /// The key is bound to an optional array.
    fn is_object_of(&self, key: &str) -> bool {
        object_value_matches(self, key, 4, Some(true))
    }
}

impl IsObjectOf<Optional<Tuple>> for Value {
    /// The key is bound to an optional tuple.
    fn is_object_of(&self, key: &str) -> bool {
        object_value_matches(self, key, 7, Some(true))
    }
}

impl IsObjectOf<Optional<Object>> for Value {
    /// The key is bound to an optional object.
    fn is_object_of(&self, key: &str) -> bool {
        object_value_matches(self, key, 5, Some(true))
    }
}

impl IsObjectOf<Optional<OneOf>> for Value {
    /// The key is bound to an optional union.
    fn is_object_of(&self, key: &str) -> bool {
        object_value_matches(self, key, 6, Some(true))
    }
}

impl IsTupleOf<Null> for Value {
    /// Position `i` holds the `Null` shape.
    fn is_tuple_of(&self, i: usize) -> bool {
        tuple_elem_matches(self, i, 0, None)
    }
}

impl IsTupleOf<Number> for Value {
    /// Position `i` holds a non-optional number.
    fn is_tuple_of(&self, i: usize) -> bool {
        tuple_elem_matches(self, i, 2, Some(false))
    }
}

impl IsTupleOf<Optional<Number>> for Value {
    /// Position `i` holds an optional number.
    fn is_tuple_of(&self, i: usize) -> bool {
        tuple_elem_matches(self, i, 2, Some(true))
    }
}

impl IsTupleOf<Str> for Value {
    /// Position `i` holds a non-optional string.
    fn is_tuple_of(&self, i: usize) -> bool {
        tuple_elem_matches(self, i, 3, Some(false))
    }
}

impl IsTupleOf<Optional<Str>> for Value {
    /// Position `i` holds an optional string.
    fn is_tuple_of(&self, i: usize) -> bool {
        tuple_elem_matches(self, i, 3, Some(true))
    }
}

impl IsTupleOf<Boolean> for Value {
    /// Position `i` holds a non-optional boolean.
    fn is_tuple_of(&self, i: usize) -> bool {
        tuple_elem_matches(self, i, 1, Some(false))
    }
}

impl IsTupleOf<Optional<Boolean>> for Value {
    /// Position `i` holds an optional boolean.
    fn is_tuple_of(&self, i: usize) -> bool {
        tuple_elem_matches(self, i, 1, Some(true))
    }
}

impl IsTupleOf<Array> for Value {
    /// Position `i` holds a non-optional array.
    fn is_tuple_of(&self, i: usize) -> bool {
        tuple_elem_matches(self, i, 4, Some(false))
    }
}

impl IsTupleOf<Optional<Array>> for Value {
    /// Position `i` holds an optional array.
    fn is_tuple_of(&self, i: usize) -> bool {
        tuple_elem_matches(self, i, 4, Some(true))
    }
}

impl IsTupleOf<Object> for Value {
    /// Position `i` holds a non-optional object.
    fn is_tuple_of(&self, i: usize) -> bool {
        tuple_elem_matches(self, i, 5, Some(false))
    }
}

impl IsTupleOf<Optional<Object>> for Value {
    /// Position `i` holds an optional object.
    fn is_tuple_of(&self, i: usize) -> bool {
        tuple_elem_matches(self, i, 5, Some(true))
    }
}

impl IsTupleOf<OneOf> for Value {
    /// Position `i` holds a non-optional union.
    fn is_tuple_of(&self, i: usize) -> bool {
        tuple_elem_matches(self, i, 6, Some(false))
    }
}

impl IsTupleOf<Optional<OneOf>> for Value {
    /// Position `i` holds an optional union.
    fn is_tuple_of(&self, i: usize) -> bool {
        tuple_elem_matches(self, i, 6, Some(true))
    }
}

} // verus!
