//! The structural subset ("is-a") relation between shapes.
//!
//! `a` is a subset of `b` when every document conforming to `a` also conforms
//! to `b`: same scalar kind with matching-or-greater optionality, covariant
//! array elements, pairwise-covariant tuples, width/depth object rules, and
//! union membership checked recursively.

use vstd::prelude::*;

use crate::canon::fields_get;
use crate::value::{
    fields_model, fields_model_props, shape_of, shapes_model, shapes_model_props, Shape, Value,
};

verus! {

/// Whether a union's variant list has a scalar of the given kind, in either
/// optionality.
pub open spec fn has_kind_any(vs: Seq<Shape>, kind: int) -> bool {
    exists|i: int| 0 <= i < vs.len() && crate::order::kind_idx(#[trigger] vs[i]) == kind
}

/// Whether a union's variant list has the optional scalar of the given kind
/// as a member.
pub open spec fn has_kind_optional(vs: Seq<Shape>, kind: int) -> bool {
    exists|i: int|
        0 <= i < vs.len() && crate::order::kind_idx(#[trigger] vs[i]) == kind && vs[i].opt()
}

/// Whether a union's variant list encodes the optional scalar of the given
/// kind in the explicit form: some variant of that kind together with a
/// `Null` member. Both this encoding and an optional variant itself occur,
/// and both are honored.
pub open spec fn has_kind_opt(vs: Seq<Shape>, kind: int) -> bool {
    has_kind_any(vs, kind) && vs.contains(Shape::Null)
}

/// Pairwise subset of two shape lists, over the common prefix.
pub open spec fn subset_pairwise(a: Seq<Shape>, b: Seq<Shape>) -> bool
    decreases a, b,
{
    if a.len() == 0 || b.len() == 0 {
        true
    } else {
        subset_of(a[0], b[0]) && subset_pairwise(a.drop_first(), b.drop_first())
    }
}

/// The object depth rule: every key of `a` is bound in `b` to a superset of
/// its shape in `a`.
pub open spec fn fields_subset(a: Seq<(Seq<char>, Shape)>, b: Seq<(Seq<char>, Shape)>) -> bool
    decreases a, b,
{
    if a.len() == 0 {
        true
    } else {
        proof {
            assert(decreases_to!(a => a[0]));
        }
        (match fields_get(b, a[0].0) {
            Option::Some(w) => subset_of(a[0].1, w),
            Option::None => true,
        }) && fields_subset(a.drop_first(), b)
    }
}

/// The object width rule: every key of `b` that is missing from `a` must be
/// optional in `b`.
pub open spec fn fields_width(a: Seq<(Seq<char>, Shape)>, b: Seq<(Seq<char>, Shape)>) -> bool {
    forall|i: int|
        0 <= i < b.len() ==> (#[trigger] fields_get(a, b[i].0)) is Some || b[i].1.opt()
}

/// Whether every tuple element occurs, exactly, among a union's variants.
pub open spec fn all_in_variants(es: Seq<Shape>, vs: Seq<Shape>) -> bool {
    forall|i: int| 0 <= i < es.len() ==> vs.contains(#[trigger] es[i])
}

/// Whether a shape is a subset of some variant of the given kind rank in a
/// union: membership is checked by the recursive subset relation, never by
/// bare equality.
pub open spec fn subset_of_some_kind(a: Shape, vs: Seq<Shape>, k: int) -> bool
    decreases a, vs,
{
    if vs.len() == 0 {
        false
    } else {
        proof {
            assert(decreases_to!(vs => vs[0]));
        }
        (crate::order::kind_idx(vs[0]) == k && subset_of(a, vs[0])) || subset_of_some_kind(
            a,
            vs.drop_first(),
            k,
        )
    }
}

/// Whether a shape is a subset of some variant of a union.
pub open spec fn subset_of_some(a: Shape, vs: Seq<Shape>) -> bool
    decreases a, vs,
{
    if vs.len() == 0 {
        false
    } else {
        proof {
            assert(decreases_to!(vs => vs[0]));
        }
        subset_of(a, vs[0]) || subset_of_some(a, vs.drop_first())
    }
}

/// Every variant on the left is a subset of some variant on the right.
pub open spec fn all_subset_of_some(va: Seq<Shape>, vb: Seq<Shape>) -> bool
    decreases va, vb,
{
    if va.len() == 0 {
        true
    } else {
        proof {
            assert(decreases_to!(va => va[0]));
        }
        subset_of_some(va[0], vb) && all_subset_of_some(va.drop_first(), vb)
    }
}

/// Plain set containment of variant lists, by structural equality.
pub open spec fn variants_set_subset(va: Seq<Shape>, vb: Seq<Shape>) -> bool {
    forall|i: int| 0 <= i < va.len() ==> vb.contains(#[trigger] va[i])
}

/// The structural subset relation: `subset_of(a, b)` holds when every
/// document conforming to `a` also conforms to `b`. An optional shape is
/// never a subset of a non-optional one.
pub open spec fn subset_of(a: Shape, b: Shape) -> bool
    decreases a, b,
{
    match a {
        Shape::Null => b.opt() || b is Null,
        Shape::Bool { optional } => scalar_subset(1, optional, b),
        Shape::Number { optional } => scalar_subset(2, optional, b),
        Shape::Str { optional } => scalar_subset(3, optional, b),
        Shape::Array { element, optional } => match b {
            Shape::Array { element: t, optional: bo } => (!optional || bo) && subset_of(
                *element,
                *t,
            ),
            Shape::OneOf { variants, .. } => {
                proof {
                    assert(decreases_to!(b => b->OneOf_variants));
                }
                subset_of_some_kind(a, variants, 4)
            },
            _ => false,
        },
        Shape::Tuple { elements, optional } => match b {
            Shape::Tuple { elements: other, optional: bo } => (!optional || bo) && elements.len()
                == other.len() && {
                proof {
                    assert(decreases_to!(a => a->Tuple_elements));
                    assert(decreases_to!(b => b->Tuple_elements));
                }
                subset_pairwise(elements, other)
            },
            Shape::Array { element: t, optional: bo } => (!optional || bo) && ((*t) is OneOf)
                && all_in_variants(elements, (*t)->OneOf_variants),
            Shape::OneOf { variants, .. } => {
                proof {
                    assert(decreases_to!(b => b->OneOf_variants));
                }
                subset_of_some_kind(a, variants, 7)
            },
            _ => false,
        },
        Shape::Object { content, optional } => match b {
            Shape::Object { content: other, optional: bo } => (!optional || bo) && fields_width(
                content,
                other,
            ) && {
                proof {
                    assert(decreases_to!(a => a->Object_content));
                }
                fields_subset(content, other)
            },
            Shape::OneOf { variants, .. } => {
                proof {
                    assert(decreases_to!(b => b->OneOf_variants));
                }
                subset_of_some_kind(a, variants, 5)
            },
            _ => false,
        },
        Shape::OneOf { variants, optional } => match b {
            Shape::OneOf { variants: vb, optional: bo } => (!optional || bo) && (
            variants_set_subset(variants, vb) || {
                proof {
                    assert(decreases_to!(a => a->OneOf_variants));
                    assert(decreases_to!(b => b->OneOf_variants));
                }
                all_subset_of_some(variants, vb)
            }),
            _ => false,
        },
    }
}

/// The subset rule for a scalar of the given kind rank: a non-optional
/// scalar's target is the same scalar kind (optional or not), or a union
/// holding that kind in either optionality; an optional scalar's target is
/// the same kind and optional, or a union containing the optional form of
/// that scalar — as an optional variant, or in the explicit encoding of a
/// variant of the kind beside a `Null` member.
pub open spec fn scalar_subset(kind: int, optional: bool, b: Shape) -> bool {
    if optional {
        (crate::order::kind_idx(b) == kind && b.opt()) || (b matches Shape::OneOf {
            variants,
            ..
        } && (has_kind_optional(variants, kind) || has_kind_opt(variants, kind)))
    } else {
        crate::order::kind_idx(b) == kind || (b matches Shape::OneOf { variants, .. }
            && has_kind_any(variants, kind))
    }
}

} // verus!

verus! {

/// `subset_pairwise` is the pointwise subset over the common prefix.
pub proof fn lemma_subset_pairwise(a: Seq<Shape>, b: Seq<Shape>)
    ensures
        subset_pairwise(a, b) <==> (forall|i: int|
            0 <= i < a.len() && i < b.len() ==> subset_of(#[trigger] a[i], b[i])),
    decreases a.len(),
{
    if a.len() > 0 && b.len() > 0 {
        lemma_subset_pairwise(a.drop_first(), b.drop_first());
        assert forall|i: int|
            1 <= i < a.len() && i < b.len() && subset_pairwise(a, b) implies subset_of(
            #[trigger] a[i],
            b[i],
        ) by {
            assert(a.drop_first()[i - 1] == a[i]);
            assert(b.drop_first()[i - 1] == b[i]);
        }
        if forall|i: int| 0 <= i < a.len() && i < b.len() ==> subset_of(#[trigger] a[i], b[i]) {
            assert forall|i: int|
                0 <= i < a.drop_first().len() && i < b.drop_first().len() implies subset_of(
                #[trigger] a.drop_first()[i],
                b.drop_first()[i],
            ) by {
                assert(a.drop_first()[i] == a[i + 1]);
                assert(b.drop_first()[i] == b[i + 1]);
            }
        }
    }
}

/// `fields_subset` is the pointwise depth rule over the left-hand fields.
pub proof fn lemma_fields_subset(a: Seq<(Seq<char>, Shape)>, b: Seq<(Seq<char>, Shape)>)
    ensures
        fields_subset(a, b) <==> (forall|i: int|
            0 <= i < a.len() ==> match fields_get(b, (#[trigger] a[i]).0) {
                Option::Some(w) => subset_of(a[i].1, w),
                Option::None => true,
            }),
    decreases a.len(),
{
    if a.len() > 0 {
        lemma_fields_subset(a.drop_first(), b);
        assert forall|i: int| 1 <= i < a.len() implies a.drop_first()[i - 1] == a[i] by {}
    }
}

/// `subset_of_some` is existence of a superset variant.
pub proof fn lemma_subset_of_some(a: Shape, vs: Seq<Shape>)
    ensures
        subset_of_some(a, vs) <==> (exists|j: int| 0 <= j < vs.len() && subset_of(a, #[trigger] vs[j])),
    decreases vs.len(),
{
    if vs.len() > 0 {
        lemma_subset_of_some(a, vs.drop_first());
        if subset_of_some(a, vs) {
            if !subset_of(a, vs[0]) {
                let j = choose|j: int|
                    0 <= j < vs.drop_first().len() && subset_of(a, #[trigger] vs.drop_first()[j]);
                assert(vs.drop_first()[j] == vs[j + 1]);
            }
        }
        if exists|j: int| 0 <= j < vs.len() && subset_of(a, #[trigger] vs[j]) {
            let j = choose|j: int| 0 <= j < vs.len() && subset_of(a, #[trigger] vs[j]);
            if j > 0 {
                assert(vs.drop_first()[j - 1] == vs[j]);
            }
        }
    }
}

/// `subset_of_some_kind` is existence of a superset variant of the kind.
pub proof fn lemma_subset_of_some_kind(a: Shape, vs: Seq<Shape>, k: int)
    ensures
        subset_of_some_kind(a, vs, k) <==> (exists|j: int|
            0 <= j < vs.len() && crate::order::kind_idx(#[trigger] vs[j]) == k && subset_of(
                a,
                vs[j],
            )),
    decreases vs.len(),
{
    if vs.len() > 0 {
        lemma_subset_of_some_kind(a, vs.drop_first(), k);
        if subset_of_some_kind(a, vs, k) {
            if !(crate::order::kind_idx(vs[0]) == k && subset_of(a, vs[0])) {
                let j = choose|j: int|
                    0 <= j < vs.drop_first().len() && crate::order::kind_idx(
                        #[trigger] vs.drop_first()[j],
                    ) == k && subset_of(a, vs.drop_first()[j]);
                assert(vs.drop_first()[j] == vs[j + 1]);
            }
        }
        if exists|j: int|
            0 <= j < vs.len() && crate::order::kind_idx(#[trigger] vs[j]) == k && subset_of(
                a,
                vs[j],
            ) {
            let j = choose|j: int|
                0 <= j < vs.len() && crate::order::kind_idx(#[trigger] vs[j]) == k && subset_of(
                    a,
                    vs[j],
                );
            if j > 0 {
                assert(vs.drop_first()[j - 1] == vs[j]);
            }
        }
    }
}

/// `all_subset_of_some` covers every left variant.
pub proof fn lemma_all_subset_of_some(va: Seq<Shape>, vb: Seq<Shape>)
    ensures
        all_subset_of_some(va, vb) <==> (forall|i: int|
            0 <= i < va.len() ==> subset_of_some(#[trigger] va[i], vb)),
    decreases va.len(),
{
    if va.len() > 0 {
        lemma_all_subset_of_some(va.drop_first(), vb);
        assert forall|i: int| 1 <= i < va.len() implies va.drop_first()[i - 1] == va[i] by {}
    }
}

} // verus!

verus! {

use crate::canon::{contains_value, get_field};
use crate::order::kind_code;

/// Determines if `T::self` is subset of `T`.
/// Only implemented for [`Value`]. A few rule examples
///
/// - `Number` is subset of `Option<Number>`
/// - `Null` is subset of `Option<Number>` and `Null`
/// - `Number` is subset of `OneOf[Number | String]`
/// - `Number` is *NOT* subset of `Array<Number>`
/// - `Array<Number>` is subset of `Array<OneOf[Number | Boolean]>`
/// - `Object{"key_a": Number}` is *NOT* subset of `Object{"key_b": Number}`
/// - `Object{"key_a": Number}` is subset of `Object{"key_a": Option<Number>}`
/// - `Object{"key_a": Number}` is subset of `Object{"key_a": OneOf[Number | Boolean]}`
pub trait IsSubset {
    /// Determines if `T::self` is subset of other `T`
    fn is_subset(&self, other: &Self) -> bool;
}

impl IsSubset for Value {
    /// Checks if this shape is subset of the `other` shape.
    fn is_subset(&self, other: &Self) -> (r: bool)
        ensures
            r == subset_of(self@, other@),
    {
        subset_check(self, other)
    }
}

/// Whether a variant list has a scalar variant of the given kind rank.
#[verifier::loop_isolation(false)]
fn has_kind_exec(vs: &Vec<Value>, kind: u8) -> (r: bool)
    ensures
        r == has_kind_any(shapes_model(vs@), kind as int),
{
    proof {
        shapes_model_props(vs@);
    }
    let ghost m = shapes_model(vs@);
    let mut i: usize = 0;
    while i < vs.len()
        invariant
            i <= vs.len(),
            forall|j: int| 0 <= j < i as int ==> crate::order::kind_idx(m[j]) != kind as int,
        decreases vs.len() - i,
    {
        if kind_code(&vs[i]) == kind {
            proof {
                assert(crate::order::kind_idx(m[i as int]) == kind as int);
            }
            return true;
        }
        i += 1;
    }
    false
}

/// Whether a variant list has the optional scalar of a kind rank as a member.
#[verifier::loop_isolation(false)]
fn has_kind_optional_exec(vs: &Vec<Value>, kind: u8) -> (r: bool)
    ensures
        r == has_kind_optional(shapes_model(vs@), kind as int),
{
    proof {
        shapes_model_props(vs@);
    }
    let ghost m = shapes_model(vs@);
    let mut i: usize = 0;
    while i < vs.len()
        invariant
            i <= vs.len(),
            forall|j: int|
                0 <= j < i as int ==> !(crate::order::kind_idx(#[trigger] m[j]) == kind as int
                    && m[j].opt()),
        decreases vs.len() - i,
    {
        if kind_code(&vs[i]) == kind && vs[i].is_optional() {
            proof {
                assert(crate::order::kind_idx(m[i as int]) == kind as int && m[i as int].opt());
            }
            return true;
        }
        i += 1;
    }
    proof {
        if has_kind_optional(m, kind as int) {
            let j = choose|j: int|
                0 <= j < m.len() && crate::order::kind_idx(#[trigger] m[j]) == kind as int
                    && m[j].opt();
            assert(false);
        }
    }
    false
}

/// Whether a variant list encodes the optional scalar of a kind rank in the
/// explicit form: a variant of the kind beside a `Null` member.
fn has_kind_opt_exec(vs: &Vec<Value>, kind: u8) -> (r: bool)
    ensures
        r == has_kind_opt(shapes_model(vs@), kind as int),
{
    let some_kind = has_kind_exec(vs, kind);
    if !some_kind {
        return false;
    }
    contains_value(vs, &Value::Null)
}

/// The scalar subset rule, executable form.
fn scalar_subset_exec(kind: u8, optional: bool, b: &Value) -> (r: bool)
    requires
        1 <= kind <= 3,
    ensures
        r == scalar_subset(kind as int, optional, b@),
{
    if optional {
        if kind_code(b) == kind && b.is_optional() {
            true
        } else if let Value::OneOf { variants, .. } = b {
            let direct = has_kind_optional_exec(variants, kind);
            direct || has_kind_opt_exec(variants, kind)
        } else {
            false
        }
    } else {
        if kind_code(b) == kind {
            true
        } else if let Value::OneOf { variants, .. } = b {
            has_kind_exec(variants, kind)
        } else {
            false
        }
    }
}

/// Checks the structural subset relation between two shape trees.
#[verifier::loop_isolation(false)]
pub fn subset_check(a: &Value, b: &Value) -> (r: bool)
    ensures
        r == subset_of(a@, b@),
    decreases *a, *b,
{
    match a {
        Value::Null => {
            if b.is_optional() {
                true
            } else {
                matches!(b, Value::Null)
            }
        },
        Value::Bool { optional } => scalar_subset_exec(1, *optional, b),
        Value::Number { optional } => scalar_subset_exec(2, *optional, b),
        Value::String { optional } => scalar_subset_exec(3, *optional, b),
        Value::Array { element, optional } => match b {
            Value::Array { element: t, optional: bo } => {
                if *optional && !*bo {
                    false
                } else {
                    subset_check(element, t)
                }
            },
            Value::OneOf { variants, .. } => {
                proof {
                    let c = (*b)->OneOf_variants;
                    assert(decreases_to!(*b => c));
                    assert(decreases_to!(c => c@));
                }
                subset_kind_oneof(a, variants, 4)
            },
            _ => false,
        },
        Value::Tuple { elements, optional } => match b {
            Value::Tuple { elements: other, optional: bo } => {
                proof {
                    let c = (*a)->Tuple_elements;
                    assert(decreases_to!(*a => c));
                    assert(decreases_to!(c => c@));
                }
                subset_tuple_tuple(elements, *optional, other, *bo)
            },
            Value::Array { element: t, optional: bo } => {
                if *optional && !*bo {
                    return false;
                }
                if let Value::OneOf { variants, .. } = &**t {
                    let ghost ma = shapes_model(elements@);
                    let ghost mv = shapes_model(variants@);
                    proof {
                        shapes_model_props(elements@);
                        assert((**t)@ matches Shape::OneOf { variants: mvv, .. } && mvv == mv);
                        assert(b@ matches Shape::Array { element: be, .. } && *be == (**t)@);
                    }
                    let mut i: usize = 0;
                    while i < elements.len()
                        invariant
                            i <= elements.len(),
                            forall|j: int| 0 <= j < i as int ==> mv.contains(#[trigger] ma[j]),
                        decreases elements.len() - i,
                    {
                        if !contains_value(variants, &elements[i]) {
                            proof {
                                assert(ma[i as int] == shape_of(elements@[i as int]));
                                assert(!mv.contains(ma[i as int]));
                                assert(!all_in_variants(ma, mv));
                            }
                            return false;
                        }
                        i += 1;
                    }
                    true
                } else {
                    false
                }
            },
            Value::OneOf { variants, .. } => {
                proof {
                    let c = (*b)->OneOf_variants;
                    assert(decreases_to!(*b => c));
                    assert(decreases_to!(c => c@));
                }
                subset_kind_oneof(a, variants, 7)
            },
            _ => false,
        },
        Value::Object { content, optional } => match b {
            Value::Object { content: other, optional: bo } => {
                proof {
                    let c = (*a)->Object_content;
                    assert(decreases_to!(*a => c));
                    assert(decreases_to!(c => c@));
                }
                subset_object_object(content, *optional, other, *bo)
            },
            Value::OneOf { variants, .. } => {
                proof {
                    let c = (*b)->OneOf_variants;
                    assert(decreases_to!(*b => c));
                    assert(decreases_to!(c => c@));
                }
                subset_kind_oneof(a, variants, 5)
            },
            _ => false,
        },
        Value::OneOf { variants, optional } => match b {
            Value::OneOf { variants: vb, optional: bo } => {
                proof {
                    let c = (*a)->OneOf_variants;
                    assert(decreases_to!(*a => c));
                    assert(decreases_to!(c => c@));
                }
                subset_oneof_oneof(variants, *optional, vb, *bo)
            },
            _ => false,
        },
    }
}


/// The tuple-against-tuple subset rule: equal length, pairwise subset, and
/// matching-or-greater optionality.
#[verifier::loop_isolation(false)]
fn subset_tuple_tuple(
    elements: &Vec<Value>,
    optional: bool,
    other: &Vec<Value>,
    bo: bool,
) -> (r: bool)
    ensures
        r == ((!optional || bo) && shapes_model(elements@).len() == shapes_model(other@).len()
            && subset_pairwise(shapes_model(elements@), shapes_model(other@))),
    decreases *elements, *other,
{
    let ghost ma = shapes_model(elements@);
    let ghost mb = shapes_model(other@);
    proof {
        shapes_model_props(elements@);
        shapes_model_props(other@);
        lemma_subset_pairwise(ma, mb);
    }
    if optional && !bo {
        return false;
    }
    if elements.len() != other.len() {
        return false;
    }
    let mut i: usize = 0;
    while i < elements.len()
        invariant
            i <= elements.len(),
            forall|j: int| 0 <= j < i as int ==> subset_of(#[trigger] ma[j], mb[j]),
        decreases elements.len() - i,
    {
        proof {
            assert(decreases_to!(*elements => elements@));
            assert(decreases_to!(elements@ => elements@[i as int]));
        }
        if !subset_check(&elements[i], &other[i]) {
            proof {
                assert(!subset_of(ma[i as int], mb[i as int]));
            }
            return false;
        }
        i += 1;
    }
    true
}

/// The object-against-object subset rule: the width rule on the target's
/// keys and the depth rule on the source's keys.
#[verifier::loop_isolation(false)]
fn subset_object_object(
    content: &Vec<(String, Value)>,
    optional: bool,
    other: &Vec<(String, Value)>,
    bo: bool,
) -> (r: bool)
    ensures
        r == ((!optional || bo) && fields_width(fields_model(content@), fields_model(other@))
            && fields_subset(fields_model(content@), fields_model(other@))),
    decreases *content, *other,
{
    let ghost ma = fields_model(content@);
    let ghost mb = fields_model(other@);
    proof {
        fields_model_props(content@);
        fields_model_props(other@);
        lemma_fields_subset(ma, mb);
    }
    if optional && !bo {
        return false;
    }
    let mut i: usize = 0;
    while i < other.len()
        invariant
            i <= other.len(),
            forall|j: int|
                0 <= j < i as int ==> (#[trigger] fields_get(ma, mb[j].0)) is Some || mb[j].1.opt(),
        decreases other.len() - i,
    {
        proof {
            assert(mb[i as int].0 == other@[i as int].0@);
            assert(mb[i as int].1 == shape_of(other@[i as int].1));
        }
        let present = get_field(content, other[i].0.as_str());
        if present.is_none() && !other[i].1.is_optional() {
            proof {
                assert(fields_get(ma, mb[i as int].0) is None);
                assert(!fields_width(ma, mb));
            }
            return false;
        }
        i += 1;
    }
    let mut k: usize = 0;
    while k < content.len()
        invariant
            k <= content.len(),
            forall|j: int|
                0 <= j < k as int ==> match fields_get(mb, (#[trigger] ma[j]).0) {
                    Option::Some(w) => subset_of(ma[j].1, w),
                    Option::None => true,
                },
        decreases content.len() - k,
    {
        proof {
            assert(ma[k as int].0 == content@[k as int].0@);
            assert(ma[k as int].1 == shape_of(content@[k as int].1));
            assert(decreases_to!(*content => content@));
            assert(decreases_to!(content@ => content@[k as int]));
            assert(decreases_to!(content@[k as int] => content@[k as int].1));
        }
        match get_field(other, content[k].0.as_str()) {
            Some(w) => {
                if !subset_check(&content[k].1, w) {
                    proof {
                        assert(!fields_subset(ma, mb));
                    }
                    return false;
                }
            },
            None => {},
        }
        k += 1;
    }
    true
}

/// Whether a shape is a subset of some variant of the given kind rank in a
/// union, checked by the recursive subset relation.
#[verifier::loop_isolation(false)]
fn subset_kind_oneof(a: &Value, variants: &Vec<Value>, k: u8) -> (r: bool)
    ensures
        r == subset_of_some_kind(a@, shapes_model(variants@), k as int),
    decreases *a, *variants,
{
    let ghost mv = shapes_model(variants@);
    proof {
        shapes_model_props(variants@);
        lemma_subset_of_some_kind(a@, mv, k as int);
    }
    let mut i: usize = 0;
    while i < variants.len()
        invariant
            i <= variants.len(),
            forall|j: int|
                0 <= j < i as int ==> !(crate::order::kind_idx(#[trigger] mv[j]) == k as int
                    && subset_of(a@, mv[j])),
        decreases variants.len() - i,
    {
        proof {
            assert(decreases_to!(*variants => variants@));
            assert(decreases_to!(variants@ => variants@[i as int]));
        }
        if kind_code(&variants[i]) == k {
            if subset_check(a, &variants[i]) {
                proof {
                    assert(crate::order::kind_idx(mv[i as int]) == k as int && subset_of(
                        a@,
                        mv[i as int],
                    ));
                }
                return true;
            }
        }
        i += 1;
    }
    false
}

/// The union-against-union subset rule: plain set containment of the variant
/// lists, or every left variant a subset of some right variant.
#[verifier::loop_isolation(false)]
fn subset_oneof_oneof(
    variants: &Vec<Value>,
    optional: bool,
    vb: &Vec<Value>,
    bo: bool,
) -> (r: bool)
    ensures
        r == ((!optional || bo) && (variants_set_subset(
            shapes_model(variants@),
            shapes_model(vb@),
        ) || all_subset_of_some(shapes_model(variants@), shapes_model(vb@)))),
    decreases *variants, *vb,
{
    let ghost ma = shapes_model(variants@);
    let ghost mb = shapes_model(vb@);
    proof {
        shapes_model_props(variants@);
        shapes_model_props(vb@);
        lemma_all_subset_of_some(ma, mb);
    }
    if optional && !bo {
        return false;
    }
    let mut all_in: bool = true;
    let ghost mut witness: int = 0;
    let mut i: usize = 0;
    while i < variants.len()
        invariant
            i <= variants.len(),
            all_in ==> forall|j: int| 0 <= j < i as int ==> mb.contains(#[trigger] ma[j]),
            !all_in ==> 0 <= witness < i as int && !mb.contains(ma[witness]),
        decreases variants.len() - i,
    {
        if !contains_value(vb, &variants[i]) {
            if all_in {
                all_in = false;
                proof {
                    witness = i as int;
                }
            }
        }
        i += 1;
    }
    if all_in {
        proof {
            assert(variants_set_subset(ma, mb));
        }
        return true;
    }
    proof {
        assert(!variants_set_subset(ma, mb));
    }
    let mut k: usize = 0;
    while k < variants.len()
        invariant
            k <= variants.len(),
            forall|j: int| 0 <= j < k as int ==> subset_of_some(#[trigger] ma[j], mb),
        decreases variants.len() - k,
    {
        proof {
            lemma_subset_of_some(ma[k as int], mb);
        }
        let mut found: bool = false;
        let mut l: usize = 0;
        while l < vb.len()
            invariant
                l <= vb.len(),
                !found ==> forall|j: int|
                    0 <= j < l as int ==> !subset_of(ma[k as int], #[trigger] mb[j]),
                found ==> subset_of_some(ma[k as int], mb),
            decreases vb.len() - l,
        {
            proof {
                assert(decreases_to!(*variants => variants@));
                assert(decreases_to!(variants@ => variants@[k as int]));
            }
            if !found && subset_check(&variants[k], &vb[l]) {
                found = true;
                proof {
                    assert(subset_of(ma[k as int], mb[l as int]));
                    lemma_subset_of_some(ma[k as int], mb);
                }
            }
            l += 1;
        }
        if !found {
            proof {
                assert(!subset_of_some(ma[k as int], mb));
                assert(!all_subset_of_some(ma, mb));
            }
            return false;
        }
        k += 1;
    }
    true
}

} // verus!
