//! The merge ("join") of shapes: the most general shape accepting the union
//! of the documents accepted by the operands.

use vstd::prelude::*;

use crate::canon::{insert_shape, lemma_insert_shape};
use crate::error::Error;
use crate::order::{chars_cmp, sorted_keys, sorted_variants, wf, wf_all, wf_all_props,
    wf_fields_all, wf_fields_all_props};
use crate::subset::subset_of;
use crate::value::{fields_model, fields_model_props, shapes_model, shapes_model_props, Shape,
    Value};

verus! {

/// Whether some shape in the list is optional.
pub open spec fn any_opt(s: Seq<Shape>) -> bool {
    exists|i: int| 0 <= i < s.len() && (#[trigger] s[i]).opt()
}

/// Inserts every shape of `from`, left to right, into the sorted list `vs`.
pub open spec fn insert_all(vs: Seq<Shape>, from: Seq<Shape>) -> Seq<Shape>
    decreases from.len(),
{
    if from.len() == 0 {
        vs
    } else {
        insert_all(insert_shape(vs, from[0]), from.drop_first())
    }
}

/// The non-optional forms of the shapes in a list.
pub open spec fn non_opt_all(s: Seq<Shape>) -> Seq<Shape> {
    s.map_values(|x: Shape| x.as_non_opt())
}

/// The cross-kind merge: a union of the two operands' non-optional forms,
/// with `Null` as a member when either operand was optional; the union's own
/// flag stays `false`.
pub open spec fn cross_pair(a: Shape, b: Shape) -> Shape {
    let vs = insert_shape(insert_shape(Seq::empty(), a.as_non_opt()), b.as_non_opt());
    let vs = if a.opt() || b.opt() {
        insert_shape(vs, Shape::Null)
    } else {
        vs
    };
    Shape::OneOf { variants: vs, optional: false }
}

/// The merge of an array with a tuple, in either operand order: the tuple's
/// positional identity is lost, the array element and every position join one
/// union element in non-optional form, and `Null` joins it exactly when a
/// side is optional.
pub open spec fn array_tuple_collapse(e: Shape, x: bool, es: Seq<Shape>, y: bool) -> Shape {
    let vs = insert_all(insert_shape(Seq::empty(), e.as_non_opt()), non_opt_all(es));
    let vs = if x || y {
        insert_shape(vs, Shape::Null)
    } else {
        vs
    };
    Shape::Array { element: Box::new(Shape::OneOf { variants: vs, optional: false }), optional: x
        || y }
}

/// The degraded merge of two incompatible tuples: an array whose element is
/// the union of all the positions' non-optional shapes, with `Null` as a
/// member when any position was optional.
pub open spec fn tuple_collapse(e1: Seq<Shape>, x: bool, e2: Seq<Shape>, y: bool) -> Shape {
    let vs = insert_all(insert_all(Seq::empty(), non_opt_all(e1)), non_opt_all(e2));
    let vs = if any_opt(e1) || any_opt(e2) {
        insert_shape(vs, Shape::Null)
    } else {
        vs
    };
    Shape::Array { element: Box::new(Shape::OneOf { variants: vs, optional: false }), optional: x
        || y }
}

/// The degraded merge of a tuple with a non-array, non-tuple shape: an array
/// whose element is the union of the tuple's positions and the other operand.
pub open spec fn tuple_other_collapse(es: Seq<Shape>, x: bool, b: Shape) -> Shape {
    let vs = insert_shape(insert_all(Seq::empty(), non_opt_all(es)), b.as_non_opt());
    let vs = if any_opt(es) || b.opt() {
        insert_shape(vs, Shape::Null)
    } else {
        vs
    };
    Shape::Array { element: Box::new(Shape::OneOf { variants: vs, optional: false }), optional: x
        || b.opt() }
}

/// Merging a non-union shape into a union: its non-optional form joins the
/// variant set, `Null` joins too when it was optional, and the union's own
/// flag is carried over unchanged.
pub open spec fn one_of_absorb(vs: Seq<Shape>, opt: bool, t: Shape) -> Shape {
    let vs1 = if t.opt() {
        insert_shape(vs, Shape::Null)
    } else {
        vs
    };
    Shape::OneOf { variants: insert_shape(vs1, t.as_non_opt()), optional: opt }
}

/// The merge of one tuple position: the more general side survives; a `Null`
/// position makes the other optional; anything else is incompatible.
pub open spec fn pos_merge(x: Shape, y: Shape) -> Option<Shape> {
    if subset_of(x, y) {
        Option::Some(y)
    } else if subset_of(y, x) {
        Option::Some(x)
    } else if y is Null {
        Option::Some(x.as_opt())
    } else if x is Null {
        Option::Some(y.as_opt())
    } else {
        Option::None
    }
}

/// The per-position merge of two equal-length tuples: an incompatible pair
/// makes the whole merge degrade.
pub open spec fn tuple_positions(e1: Seq<Shape>, e2: Seq<Shape>) -> Option<Seq<Shape>>
    decreases e1.len(),
{
    if e1.len() == 0 || e2.len() == 0 {
        Option::Some(Seq::empty())
    } else {
        match (pos_merge(e1[0], e2[0]), tuple_positions(e1.drop_first(), e2.drop_first())) {
            (Option::Some(h), Option::Some(rest)) => Option::Some(rest.insert(0, h)),
            _ => Option::None,
        }
    }
}

/// `tuple_positions` is the pointwise position merge over the common prefix.
pub proof fn lemma_tuple_positions(e1: Seq<Shape>, e2: Seq<Shape>)
    ensures
        tuple_positions(e1, e2) is Some <==> (forall|i: int|
            0 <= i < e1.len() && i < e2.len() ==> (#[trigger] pos_merge(e1[i], e2[i])) is Some),
        tuple_positions(e1, e2) matches Option::Some(r) ==> r.len() == if e1.len() <= e2.len() {
            e1.len()
        } else {
            e2.len()
        } && forall|i: int| 0 <= i < r.len() ==> r[i] == (#[trigger] pos_merge(e1[i], e2[i]))->0,
    decreases e1.len(),
{
    if e1.len() > 0 && e2.len() > 0 {
        lemma_tuple_positions(e1.drop_first(), e2.drop_first());
        assert forall|i: int|
            1 <= i < e1.len() && i < e2.len() implies e1.drop_first()[i - 1] == e1[i]
            && e2.drop_first()[i - 1] == e2[i] by {}
    }
}

/// The binary merge of two shapes: the most general shape accepting every
/// document accepted by either operand, following the case table of the
/// shape join.
pub open spec fn merger_s(a: Shape, b: Shape) -> Shape
    decreases a, b,
{
    match (a, b) {
        (Shape::Null, Shape::Null) => Shape::Null,
        (Shape::Null, _) => b.as_opt(),
        (_, Shape::Null) => a.as_opt(),
        (Shape::Bool { optional: x }, Shape::Bool { optional: y }) => Shape::Bool {
            optional: x || y,
        },
        (Shape::Number { optional: x }, Shape::Number { optional: y }) => Shape::Number {
            optional: x || y,
        },
        (Shape::Str { optional: x }, Shape::Str { optional: y }) => Shape::Str {
            optional: x || y,
        },
        (Shape::Array { element: e1, optional: x }, Shape::Array { element: e2, optional: y }) => {
            Shape::Array { element: Box::new(merger_s(*e1, *e2)), optional: x || y }
        },
        (Shape::Array { element: e, optional: x }, Shape::Tuple { elements: es, optional: y }) => {
            proof {
                assert(decreases_to!(b => b->Tuple_elements));
            }
            array_tuple_collapse(*e, x, es, y)
        },
        (Shape::Tuple { elements: es, optional: x }, Shape::Array { element: e, optional: y }) => {
            proof {
                assert(decreases_to!(a => a->Tuple_elements));
            }
            array_tuple_collapse(*e, x, es, y)
        },
        (Shape::Tuple { elements: e1, optional: x }, Shape::Tuple { elements: e2, optional: y }) => {
            proof {
                assert(decreases_to!(a => a->Tuple_elements));
                assert(decreases_to!(b => b->Tuple_elements));
            }
            if e1.len() == e2.len() {
                match tuple_positions(e1, e2) {
                    Option::Some(folded) => Shape::Tuple { elements: folded, optional: x || y },
                    Option::None => tuple_collapse(e1, x, e2, y),
                }
            } else {
                tuple_collapse(e1, x, e2, y)
            }
        },
        (Shape::Object { content: c1, optional: x }, Shape::Object { content: c2, optional: y }) => {
            proof {
                assert(decreases_to!(a => a->Object_content));
                assert(decreases_to!(b => b->Object_content));
            }
            Shape::Object { content: merge_fields(c1, c2), optional: x || y }
        },
        (Shape::OneOf { variants: v1, optional: x }, Shape::OneOf { variants: v2, optional: y }) => {
            proof {
                assert(decreases_to!(a => a->OneOf_variants));
                assert(decreases_to!(b => b->OneOf_variants));
            }
            Shape::OneOf { variants: insert_all(v1, v2), optional: x || y }
        },
        (Shape::OneOf { variants: v, optional: x }, _) => {
            proof {
                assert(decreases_to!(a => a->OneOf_variants));
            }
            one_of_absorb(v, x, b)
        },
        (Shape::Tuple { elements: es, optional: x }, _) => {
            proof {
                assert(decreases_to!(a => a->Tuple_elements));
            }
            tuple_other_collapse(es, x, b)
        },
        (_, Shape::OneOf { variants: v, optional: y }) => {
            proof {
                assert(decreases_to!(b => b->OneOf_variants));
            }
            one_of_absorb(v, y, a)
        },
        _ => cross_pair(a, b),
    }
}

/// Key-wise merge of two key-sorted field lists: keys on both sides merge
/// their shapes recursively; a key on only one side becomes optional.
pub open spec fn merge_fields(
    c1: Seq<(Seq<char>, Shape)>,
    c2: Seq<(Seq<char>, Shape)>,
) -> Seq<(Seq<char>, Shape)>
    decreases c1, c2,
{
    if c1.len() == 0 && c2.len() == 0 {
        Seq::empty()
    } else if c1.len() == 0 {
        proof {
            assert(decreases_to!(c2 => c2[0]));
        }
        merge_fields(c1, c2.drop_first()).insert(0, (c2[0].0, c2[0].1.as_opt()))
    } else if c2.len() == 0 {
        proof {
            assert(decreases_to!(c1 => c1[0]));
        }
        merge_fields(c1.drop_first(), c2).insert(0, (c1[0].0, c1[0].1.as_opt()))
    } else {
        let k = chars_cmp(c1[0].0, c2[0].0);
        if k < 0 {
            merge_fields(c1.drop_first(), c2).insert(0, (c1[0].0, c1[0].1.as_opt()))
        } else if k > 0 {
            merge_fields(c1, c2.drop_first()).insert(0, (c2[0].0, c2[0].1.as_opt()))
        } else {
            proof {
                assert(decreases_to!(c1 => c1[0]));
            }
            merge_fields(c1.drop_first(), c2.drop_first()).insert(
                0,
                (c1[0].0, merger_s(c1[0].1, c2[0].1)),
            )
        }
    }
}

/// The left fold of the binary merge over a non-empty list of samples.
pub open spec fn merge_s(samples: Seq<Shape>) -> Shape
    recommends
        samples.len() > 0,
    decreases samples.len(),
{
    if samples.len() <= 1 {
        samples[0]
    } else {
        merger_s(merge_s(samples.drop_last()), samples.last())
    }
}

} // verus!

verus! {

/// Whether some shape in the list is optional.
#[verifier::loop_isolation(false)]
fn any_opt_exec(es: &Vec<Value>) -> (r: bool)
    ensures
        r == any_opt(shapes_model(es@)),
{
    proof {
        shapes_model_props(es@);
    }
    let ghost m = shapes_model(es@);
    let mut i: usize = 0;
    while i < es.len()
        invariant
            i <= es.len(),
            forall|j: int| 0 <= j < i as int ==> !(#[trigger] m[j]).opt(),
        decreases es.len() - i,
    {
        if es[i].is_optional() {
            proof {
                assert(m[i as int].opt());
            }
            return true;
        }
        i += 1;
    }
    proof {
        if any_opt(m) {
            let j = choose|j: int| 0 <= j < m.len() && m[j].opt();
            assert(false);
        }
    }
    false
}

/// Inserts a copy of every shape in `from` into the sorted variant list.
#[verifier::loop_isolation(false)]
fn insert_values_raw(vs: Vec<Value>, from: &Vec<Value>) -> (r: Vec<Value>)
    ensures
        shapes_model(r@) == insert_all(shapes_model(vs@), shapes_model(from@)),
{
    proof {
        shapes_model_props(from@);
    }
    let ghost m0 = shapes_model(vs@);
    let ghost mf = shapes_model(from@);
    let mut out = vs;
    let mut i: usize = 0;
    proof {
        assert(mf.skip(0) =~= mf);
    }
    while i < from.len()
        invariant
            i <= from.len(),
            insert_all(m0, mf) == insert_all(shapes_model(out@), mf.skip(i as int)),
        decreases from.len() - i,
    {
        proof {
            assert(mf.skip(i as int)[0] == mf[i as int]);
            assert(mf.skip(i as int).drop_first() =~= mf.skip(i as int + 1));
        }
        let v = from[i].clone();
        out = crate::canon::insert_value(out, v);
        i += 1;
    }
    proof {
        assert(mf.skip(i as int).len() == 0);
    }
    out
}

/// Inserts the non-optional form of every shape in `from` into the sorted
/// variant list.
#[verifier::loop_isolation(false)]
fn insert_values_non_opt(vs: Vec<Value>, from: &Vec<Value>) -> (r: Vec<Value>)
    ensures
        shapes_model(r@) == insert_all(shapes_model(vs@), non_opt_all(shapes_model(from@))),
{
    proof {
        shapes_model_props(from@);
    }
    let ghost m0 = shapes_model(vs@);
    let ghost mf = non_opt_all(shapes_model(from@));
    let mut out = vs;
    let mut i: usize = 0;
    proof {
        assert(mf.skip(0) =~= mf);
    }
    while i < from.len()
        invariant
            i <= from.len(),
            mf.len() == from.len(),
            insert_all(m0, mf) == insert_all(shapes_model(out@), mf.skip(i as int)),
        decreases from.len() - i,
    {
        proof {
            assert(mf.skip(i as int)[0] == mf[i as int]);
            assert(mf[i as int] == shapes_model(from@)[i as int].as_non_opt());
            assert(mf.skip(i as int).drop_first() =~= mf.skip(i as int + 1));
        }
        let v = from[i].clone().as_non_optional();
        out = crate::canon::insert_value(out, v);
        i += 1;
    }
    proof {
        assert(mf.skip(i as int).len() == 0);
    }
    out
}

/// The cross-kind merge, executable form.
fn cross_pair_exec(a: Value, b: Value) -> (r: Value)
    ensures
        r@ == cross_pair(a@, b@),
{
    let ao = a.is_optional();
    let bo = b.is_optional();
    let empty: Vec<Value> = Vec::new();
    proof {
        assert(shapes_model(empty@) =~= Seq::<Shape>::empty());
    }
    let vs = crate::canon::insert_value(empty, a.as_non_optional());
    let mut vs = crate::canon::insert_value(vs, b.as_non_optional());
    if ao || bo {
        vs = crate::canon::insert_value(vs, Value::Null);
    }
    Value::OneOf { variants: vs, optional: false }
}

/// Merging a non-union shape into a union, executable form.
fn one_of_absorb_exec(vs: Vec<Value>, opt: bool, t: Value) -> (r: Value)
    ensures
        r@ == one_of_absorb(shapes_model(vs@), opt, t@),
{
    let topt = t.is_optional();
    let vs1 = if topt {
        crate::canon::insert_value(vs, Value::Null)
    } else {
        vs
    };
    let out = crate::canon::insert_value(vs1, t.as_non_optional());
    Value::OneOf { variants: out, optional: opt }
}

/// The merge of one tuple position, executable form.
fn pos_merge_exec(x: &Value, y: &Value) -> (r: Option<Value>)
    ensures
        match r {
            Some(v) => pos_merge(x@, y@) == Option::Some(v@),
            None => pos_merge(x@, y@) is None,
        },
{
    if crate::subset::subset_check(x, y) {
        Some(y.clone())
    } else if crate::subset::subset_check(y, x) {
        Some(x.clone())
    } else if matches!(y, Value::Null) {
        Some(x.clone().as_optional())
    } else if matches!(x, Value::Null) {
        Some(y.clone().as_optional())
    } else {
        None
    }
}

/// The per-position merge of two equal-length tuples, executable form.
#[verifier::loop_isolation(false)]
fn tuple_positions_exec(e1: &Vec<Value>, e2: &Vec<Value>) -> (r: Option<Vec<Value>>)
    requires
        e1@.len() == e2@.len(),
    ensures
        match r {
            Some(v) => tuple_positions(shapes_model(e1@), shapes_model(e2@)) == Option::Some(
                shapes_model(v@),
            ),
            None => tuple_positions(shapes_model(e1@), shapes_model(e2@)) is None,
        },
{
    let ghost m1 = shapes_model(e1@);
    let ghost m2 = shapes_model(e2@);
    proof {
        shapes_model_props(e1@);
        shapes_model_props(e2@);
        lemma_tuple_positions(m1, m2);
    }
    let mut out: Vec<Value> = Vec::new();
    let mut i: usize = 0;
    while i < e1.len()
        invariant
            i <= e1.len(),
            out@.len() == i as int,
            forall|j: int|
                0 <= j < i as int ==> ((#[trigger] pos_merge(m1[j], m2[j])) matches Option::Some(h)
                    && out@[j]@ == h),
        decreases e1.len() - i,
    {
        match pos_merge_exec(&e1[i], &e2[i]) {
            Some(v) => {
                out.push(v);
            },
            None => {
                proof {
                    assert(pos_merge(m1[i as int], m2[i as int]) is None);
                }
                return None;
            },
        }
        i += 1;
    }
    proof {
        shapes_model_props(out@);
        assert(tuple_positions(m1, m2) is Some);
        let folded = tuple_positions(m1, m2)->0;
        assert forall|j: int| 0 <= j < out@.len() implies shapes_model(out@)[j] == folded[j] by {
            assert(out@[j]@ == pos_merge(m1[j], m2[j])->0);
        }
        assert(shapes_model(out@) =~= folded);
    }
    Some(out)
}

} // verus!

verus! {

use crate::order::{cmp_keys, Ord3};

/// Key-wise merge of two key-sorted field lists, executable form.
#[verifier::loop_isolation(false)]
#[verifier::rlimit(60)]
fn merge_contents(c1: &Vec<(String, Value)>, c2: &Vec<(String, Value)>) -> (r: Vec<(String, Value)>)
    ensures
        fields_model(r@) == merge_fields(fields_model(c1@), fields_model(c2@)),
    decreases fields_model(c1@), fields_model(c2@), 0nat,
{
    let ghost m1 = fields_model(c1@);
    let ghost m2 = fields_model(c2@);
    proof {
        fields_model_props(c1@);
        fields_model_props(c2@);
    }
    let mut out: Vec<(String, Value)> = Vec::new();
    let mut i: usize = 0;
    let mut j: usize = 0;
    proof {
        assert(m1.skip(0) =~= m1);
        assert(m2.skip(0) =~= m2);
        assert(fields_model(out@) =~= Seq::<(Seq<char>, Shape)>::empty());
    }
    while i < c1.len() || j < c2.len()
        invariant
            i <= c1.len(),
            j <= c2.len(),
            merge_fields(m1, m2) =~= fields_model(out@) + merge_fields(
                m1.skip(i as int),
                m2.skip(j as int),
            ),
        decreases c1.len() + c2.len() - i - j,
    {
        let ghost r1 = m1.skip(i as int);
        let ghost r2 = m2.skip(j as int);
        proof {
            if i < c1.len() {
                assert(r1[0] == m1[i as int]);
                assert(r1.drop_first() =~= m1.skip(i as int + 1));
            }
            if j < c2.len() {
                assert(r2[0] == m2[j as int]);
                assert(r2.drop_first() =~= m2.skip(j as int + 1));
            }
        }
        let take_left: bool = if i >= c1.len() {
            false
        } else if j >= c2.len() {
            true
        } else {
            matches!(cmp_keys(c1[i].0.as_str(), c2[j].0.as_str()), Ord3::Lt)
        };
        let both: bool = i < c1.len() && j < c2.len() && matches!(
            cmp_keys(c1[i].0.as_str(), c2[j].0.as_str()),
            Ord3::Eq,
        );
        if both {
            let ghost old_out = fields_model(out@);
            proof {
                fields_model_props(out@);
            }
            let key = c1[i].0.clone();
            let v1 = c1[i].1.clone();
            let v2 = c2[j].1.clone();
            proof {
                assert(decreases_to!(m1 => m1[i as int]));
                assert(decreases_to!(m1[i as int] => m1[i as int].1));
                assert(v1@ == m1[i as int].1);
            }
            let merged = merger_value(v1, v2);
            out.push((key, merged));
            proof {
                fields_model_props(out@);
                assert(fields_model(out@) =~= old_out + seq![
                    (m1[i as int].0, merger_s(m1[i as int].1, m2[j as int].1)),
                ]);
                assert(merge_fields(r1, r2) =~= seq![
                    (m1[i as int].0, merger_s(m1[i as int].1, m2[j as int].1)),
                ] + merge_fields(r1.drop_first(), r2.drop_first()));
            }
            i += 1;
            j += 1;
        } else if take_left {
            let ghost old_out = fields_model(out@);
            proof {
                fields_model_props(out@);
            }
            let key = c1[i].0.clone();
            let v1 = c1[i].1.clone().as_optional();
            out.push((key, v1));
            proof {
                fields_model_props(out@);
                assert(fields_model(out@) =~= old_out + seq![
                    (m1[i as int].0, m1[i as int].1.as_opt()),
                ]);
                assert(merge_fields(r1, r2) =~= seq![(m1[i as int].0, m1[i as int].1.as_opt())]
                    + merge_fields(r1.drop_first(), r2));
            }
            i += 1;
        } else {
            let ghost old_out = fields_model(out@);
            proof {
                fields_model_props(out@);
            }
            let key = c2[j].0.clone();
            let v2 = c2[j].1.clone().as_optional();
            out.push((key, v2));
            proof {
                fields_model_props(out@);
                assert(fields_model(out@) =~= old_out + seq![
                    (m2[j as int].0, m2[j as int].1.as_opt()),
                ]);
                assert(merge_fields(r1, r2) =~= seq![(m2[j as int].0, m2[j as int].1.as_opt())]
                    + merge_fields(r1, r2.drop_first()));
            }
            j += 1;
        }
    }
    proof {
        assert(m1.skip(i as int).len() == 0);
        assert(m2.skip(j as int).len() == 0);
        assert(fields_model(out@) + merge_fields(m1.skip(i as int), m2.skip(j as int))
            =~= fields_model(out@));
    }
    out
}

/// The binary merge of two shape trees; total, following the join case table.
#[verifier::rlimit(60)]
pub fn merger_value(a: Value, b: Value) -> (r: Value)
    ensures
        r@ == merger_s(a@, b@),
    decreases a@, b@, 1nat,
{
    let ghost ga = a@;
    let ghost gb = b@;
    match (a, b) {
        (Value::Null, Value::Null) => Value::Null,
        (Value::Null, b) => b.as_optional(),
        (a, Value::Null) => a.as_optional(),
        (Value::Bool { optional: x }, Value::Bool { optional: y }) => Value::Bool {
            optional: x || y,
        },
        (Value::Number { optional: x }, Value::Number { optional: y }) => Value::Number {
            optional: x || y,
        },
        (Value::String { optional: x }, Value::String { optional: y }) => Value::String {
            optional: x || y,
        },
        (Value::Array { element: e1, optional: x }, Value::Array { element: e2, optional: y }) => {
            let ghost ge1 = (*e1)@;
            let ghost ge2 = (*e2)@;
            proof {
                assert(ga matches Shape::Array { element: be, .. } && *be == ge1);
                assert(gb matches Shape::Array { element: be, .. } && *be == ge2);
                assert(decreases_to!(ga => ga->Array_element));
            }
            let merged = merger_value(*e1, *e2);
            let r = Value::Array { element: Box::new(merged), optional: x || y };
            proof {
                assert(r@ =~~= merger_s(ga, gb));
            }
            r
        },
        (Value::Array { element: e, optional: x }, Value::Tuple { elements: es, optional: y }) => {
            let empty: Vec<Value> = Vec::new();
            proof {
                assert(shapes_model(empty@) =~= Seq::<Shape>::empty());
            }
            let vs = crate::canon::insert_value(empty, e.as_non_optional());
            let mut vs = insert_values_non_opt(vs, &es);
            if x || y {
                vs = crate::canon::insert_value(vs, Value::Null);
            }
            let inner = Value::OneOf { variants: vs, optional: false };
            proof {
                assert(inner@ == Shape::OneOf {
                    variants: shapes_model(inner->OneOf_variants@),
                    optional: false,
                });
            }
            let r = Value::Array { element: Box::new(inner), optional: x || y };
            proof {
                assert(r@ =~~= merger_s(ga, gb));
            }
            r
        },
        (Value::Tuple { elements: es, optional: x }, Value::Array { element: e, optional: y }) => {
            let empty: Vec<Value> = Vec::new();
            proof {
                assert(shapes_model(empty@) =~= Seq::<Shape>::empty());
            }
            let vs = crate::canon::insert_value(empty, e.as_non_optional());
            let mut vs = insert_values_non_opt(vs, &es);
            if x || y {
                vs = crate::canon::insert_value(vs, Value::Null);
            }
            let inner = Value::OneOf { variants: vs, optional: false };
            proof {
                assert(inner@ == Shape::OneOf {
                    variants: shapes_model(inner->OneOf_variants@),
                    optional: false,
                });
            }
            let r = Value::Array { element: Box::new(inner), optional: x || y };
            proof {
                assert(r@ =~~= merger_s(ga, gb));
            }
            r
        },
        (Value::Tuple { elements: e1, optional: x }, Value::Tuple { elements: e2, optional: y }) => {
            proof {
                shapes_model_props(e1@);
                shapes_model_props(e2@);
                assert(ga matches Shape::Tuple { elements: m, .. } && m == shapes_model(e1@));
                assert(gb matches Shape::Tuple { elements: m, .. } && m == shapes_model(e2@));
            }
            if e1.len() == e2.len() {
                match tuple_positions_exec(&e1, &e2) {
                    Some(folded) => {
                        let r = Value::Tuple { elements: folded, optional: x || y };
                        proof {
                            assert(r@ =~~= merger_s(ga, gb));
                        }
                        r
                    },
                    None => {
                        let r = tuple_collapse_exec(&e1, x, &e2, y);
                        proof {
                            assert(r@ =~~= merger_s(ga, gb));
                        }
                        r
                    },
                }
            } else {
                let r = tuple_collapse_exec(&e1, x, &e2, y);
                proof {
                    assert(r@ =~~= merger_s(ga, gb));
                }
                r
            }
        },
        (
            Value::Object { content: c1, optional: x },
            Value::Object { content: c2, optional: y },
        ) => {
            proof {
                assert(decreases_to!(ga => ga->Object_content));
                assert(ga->Object_content == fields_model(c1@));
                assert(gb->Object_content == fields_model(c2@));
            }
            let merged = merge_contents(&c1, &c2);
            let r = Value::Object { content: merged, optional: x || y };
            proof {
                assert(r@ =~~= merger_s(ga, gb));
            }
            r
        },
        (
            Value::OneOf { variants: v1, optional: x },
            Value::OneOf { variants: v2, optional: y },
        ) => {
            let ghost gv1 = shapes_model(v1@);
            let ghost gv2 = shapes_model(v2@);
            proof {
                assert(ga matches Shape::OneOf { variants: m, .. } && m == gv1);
                assert(gb matches Shape::OneOf { variants: m, .. } && m == gv2);
            }
            let vs = insert_values_raw(v1, &v2);
            let r = Value::OneOf { variants: vs, optional: x || y };
            proof {
                assert(r@ =~~= merger_s(ga, gb));
            }
            r
        },
        (Value::OneOf { variants: v, optional: x }, b) => {
            let ghost gv = shapes_model(v@);
            proof {
                assert(ga matches Shape::OneOf { variants: m, .. } && m == gv);
            }
            let r = one_of_absorb_exec(v, x, b);
            proof {
                assert(r@ =~~= merger_s(ga, gb));
            }
            r
        },
        (Value::Tuple { elements: es, optional: x }, b) => {
            let with_null = any_opt_exec(&es) || b.is_optional();
            let empty: Vec<Value> = Vec::new();
            proof {
                assert(shapes_model(empty@) =~= Seq::<Shape>::empty());
            }
            let vs = insert_values_non_opt(empty, &es);
            let bo = b.is_optional();
            let mut vs = crate::canon::insert_value(vs, b.as_non_optional());
            if with_null {
                vs = crate::canon::insert_value(vs, Value::Null);
            }
            let inner = Value::OneOf { variants: vs, optional: false };
            proof {
                assert(inner@ == Shape::OneOf {
                    variants: shapes_model(inner->OneOf_variants@),
                    optional: false,
                });
            }
            let r = Value::Array { element: Box::new(inner), optional: x || bo };
            proof {
                assert(r@ =~~= merger_s(ga, gb));
            }
            r
        },
        (a, Value::OneOf { variants: v, optional: y }) => {
            let ghost gv = shapes_model(v@);
            proof {
                assert(gb matches Shape::OneOf { variants: m, .. } && m == gv);
            }
            let r = one_of_absorb_exec(v, y, a);
            proof {
                assert(r@ =~~= merger_s(ga, gb));
            }
            r
        },
        (a, b) => cross_pair_exec(a, b),
    }
}

/// The degraded merge of two incompatible tuples, executable form.
fn tuple_collapse_exec(e1: &Vec<Value>, x: bool, e2: &Vec<Value>, y: bool) -> (r: Value)
    ensures
        r@ == tuple_collapse(shapes_model(e1@), x, shapes_model(e2@), y),
{
    let with_null = any_opt_exec(e1) || any_opt_exec(e2);
    let empty: Vec<Value> = Vec::new();
    proof {
        assert(shapes_model(empty@) =~= Seq::<Shape>::empty());
    }
    let vs = insert_values_non_opt(empty, e1);
    let mut vs = insert_values_non_opt(vs, e2);
    if with_null {
        vs = crate::canon::insert_value(vs, Value::Null);
    }
    let inner = Value::OneOf { variants: vs, optional: false };
    proof {
        assert(inner@ == Shape::OneOf { variants: shapes_model(inner->OneOf_variants@), optional: false });
    }
    let r = Value::Array { element: Box::new(inner), optional: x || y };
    proof {
        assert(r@ =~~= tuple_collapse(shapes_model(e1@), x, shapes_model(e2@), y));
    }
    r
}

/// Merges two shapes; the merge is total, so this never fails.
pub fn merger(rhs: Value, lhs: Value) -> (r: Result<Value, Error>)
    ensures
        r matches Ok(v) && v@ == merger_s(rhs@, lhs@),
{
    Ok(merger_value(rhs, lhs))
}

/// Merges a non-empty list of shapes by a left fold of the binary merge;
/// an empty list is the `EmptyFile` error.
#[verifier::loop_isolation(false)]
pub fn merge(values: &[Value]) -> (r: Result<Value, Error>)
    ensures
        values@.len() == 0 ==> r == Result::<Value, Error>::Err(Error::EmptyFile),
        values@.len() > 0 ==> (r matches Ok(v) && v@ == merge_s(shapes_model(values@))),
{
    proof {
        shapes_model_props(values@);
    }
    let ghost m = shapes_model(values@);
    if values.len() == 0 {
        return Err(Error::EmptyFile);
    }
    let mut acc = vstd::slice::slice_index_get(values, 0).clone();
    let mut i: usize = 1;
    proof {
        assert(m.take(1) =~= seq![m[0]]);
        assert(merge_s(m.take(1)) == m[0]);
    }
    while i < values.len()
        invariant
            1 <= i <= values.len(),
            acc@ == merge_s(m.take(i as int)),
        decreases values.len() - i,
    {
        let v = vstd::slice::slice_index_get(values, i).clone();
        acc = merger_value(acc, v);
        proof {
            assert(m.take(i as int + 1).drop_last() =~= m.take(i as int));
            assert(m.take(i as int + 1).last() == m[i as int]);
        }
        i += 1;
    }
    proof {
        assert(m.take(i as int) =~= m);
    }
    Ok(acc)
}

} // verus!

verus! {

use crate::order::{lemma_chars_cmp_antisym, lemma_chars_cmp_eq, lemma_chars_cmp_trans};

/// Optionality widening or narrowing does not affect well-formedness.
pub proof fn lemma_wf_opt(s: Shape)
    ensures
        wf(s.as_opt()) == wf(s),
        wf(s.as_non_opt()) == wf(s),
{
}

/// Inserting well-formed shapes into a sorted, well-formed variant list
/// keeps it sorted and well formed.
pub proof fn lemma_insert_all_wf(vs: Seq<Shape>, from: Seq<Shape>)
    requires
        sorted_variants(vs),
        wf_all(vs),
        forall|i: int| 0 <= i < from.len() ==> wf(#[trigger] from[i]),
    ensures
        sorted_variants(insert_all(vs, from)),
        wf_all(insert_all(vs, from)),
    decreases from.len(),
{
    if from.len() > 0 {
        lemma_insert_shape(vs, from[0]);
        assert forall|i: int| 0 <= i < from.drop_first().len() implies wf(
            #[trigger] from.drop_first()[i],
        ) by {
            assert(from.drop_first()[i] == from[i + 1]);
        }
        lemma_insert_all_wf(insert_shape(vs, from[0]), from.drop_first());
    }
}

/// Every shape in the non-optional image of a well-formed list is well
/// formed.
pub proof fn lemma_non_opt_all_wf(s: Seq<Shape>)
    requires
        wf_all(s),
    ensures
        forall|i: int| 0 <= i < non_opt_all(s).len() ==> wf(#[trigger] non_opt_all(s)[i]),
        non_opt_all(s).len() == s.len(),
{
    wf_all_props(s);
    assert forall|i: int| 0 <= i < non_opt_all(s).len() implies wf(
        #[trigger] non_opt_all(s)[i],
    ) by {
        assert(non_opt_all(s)[i] == s[i].as_non_opt());
        lemma_wf_opt(s[i]);
    }
}

/// Every key of the key-wise merge of two field lists is a key of one of the
/// operands.
pub proof fn lemma_merge_fields_keys(c1: Seq<(Seq<char>, Shape)>, c2: Seq<(Seq<char>, Shape)>)
    ensures
        forall|i: int|
            0 <= i < merge_fields(c1, c2).len() ==> (exists|j: int|
                0 <= j < c1.len() && c1[j].0 == (#[trigger] merge_fields(c1, c2)[i]).0) || (
            exists|j: int|
                0 <= j < c2.len() && c2[j].0 == merge_fields(c1, c2)[i].0),
    decreases c1, c2,
{
    let r = merge_fields(c1, c2);
    if c1.len() == 0 && c2.len() == 0 {
    } else {
        let drop1 = c1.len() > 0 && (c2.len() == 0 || chars_cmp(c1[0].0, c2[0].0) < 0);
        let drop2 = c2.len() > 0 && (c1.len() == 0 || chars_cmp(c1[0].0, c2[0].0) > 0);
        let n1 = if drop1 || (!drop2 && c1.len() > 0) {
            c1.drop_first()
        } else {
            c1
        };
        let n2 = if drop2 || (!drop1 && c2.len() > 0) {
            c2.drop_first()
        } else {
            c2
        };
        lemma_merge_fields_keys(n1, n2);
        let rest = merge_fields(n1, n2);
        assert forall|i: int|
            0 <= i < r.len() implies (exists|j: int|
            0 <= j < c1.len() && c1[j].0 == (#[trigger] r[i]).0) || (exists|j: int|
            0 <= j < c2.len() && c2[j].0 == r[i].0) by {
            if i == 0 {
                if drop1 || (c2.len() == 0 && c1.len() > 0) {
                    assert(c1[0].0 == r[0].0);
                } else if drop2 || c1.len() == 0 {
                    assert(c2[0].0 == r[0].0);
                } else {
                    assert(c1[0].0 == r[0].0);
                }
            } else {
                assert(r[i] == rest[i - 1]);
                if exists|j: int| 0 <= j < n1.len() && n1[j].0 == rest[i - 1].0 {
                    let j = choose|j: int| 0 <= j < n1.len() && n1[j].0 == rest[i - 1].0;
                    if n1.len() < c1.len() {
                        assert(c1[j + 1].0 == r[i].0);
                    } else {
                        assert(c1[j].0 == r[i].0);
                    }
                } else if exists|j: int| 0 <= j < n2.len() && n2[j].0 == rest[i - 1].0 {
                    let j = choose|j: int| 0 <= j < n2.len() && n2[j].0 == rest[i - 1].0;
                    if n2.len() < c2.len() {
                        assert(c2[j + 1].0 == r[i].0);
                    } else {
                        assert(c2[j].0 == r[i].0);
                    }
                }
            }
        }
    }
}

/// The tail of a key-sorted field list is key-sorted.
proof fn lemma_sorted_keys_tail(c: Seq<(Seq<char>, Shape)>)
    requires
        sorted_keys(c),
        c.len() > 0,
    ensures
        sorted_keys(c.drop_first()),
{
    let t = c.drop_first();
    assert forall|a: int, b: int| 0 <= a < b < t.len() implies chars_cmp(t[a].0, t[b].0) < 0 by {
        assert(t[a] == c[a + 1]);
        assert(t[b] == c[b + 1]);
    }
}

/// The key-wise merge of two well-formed, key-sorted field lists is well
/// formed and key-sorted.
pub proof fn lemma_merge_fields_wf(c1: Seq<(Seq<char>, Shape)>, c2: Seq<(Seq<char>, Shape)>)
    requires
        sorted_keys(c1),
        sorted_keys(c2),
        wf_fields_all(c1),
        wf_fields_all(c2),
    ensures
        sorted_keys(merge_fields(c1, c2)),
        wf_fields_all(merge_fields(c1, c2)),
    decreases c1, c2, 0nat,
{
    let r = merge_fields(c1, c2);
    wf_fields_all_props(c1);
    wf_fields_all_props(c2);
    wf_fields_all_props(r);
    if c1.len() == 0 && c2.len() == 0 {
    } else {
        let k = if c1.len() == 0 {
            1int
        } else if c2.len() == 0 {
            -1int
        } else {
            chars_cmp(c1[0].0, c2[0].0)
        };
        let head = if k <= 0 {
            c1[0].0
        } else {
            c2[0].0
        };
        let n1 = if k <= 0 {
            c1.drop_first()
        } else {
            c1
        };
        let n2 = if k >= 0 {
            c2.drop_first()
        } else {
            c2
        };
        if k <= 0 {
            lemma_sorted_keys_tail(c1);
            wf_fields_all_props(c1.drop_first());
        }
        if k >= 0 {
            lemma_sorted_keys_tail(c2);
            wf_fields_all_props(c2.drop_first());
        }
        if k == 0 {
            assert(decreases_to!(c1 => c1[0]));
            lemma_merger_wf(c1[0].1, c2[0].1);
            lemma_chars_cmp_eq(c1[0].0, c2[0].0);
        } else {
            if k < 0 {
                lemma_wf_opt(c1[0].1);
            } else {
                lemma_wf_opt(c2[0].1);
                lemma_chars_cmp_antisym(c1[0].0, c2[0].0);
            }
        }
        lemma_merge_fields_wf(n1, n2);
        lemma_merge_fields_keys(n1, n2);
        let rest = merge_fields(n1, n2);
        assert(r =~= rest.insert(0, r[0]));
        assert forall|i: int| 0 <= i < rest.len() implies chars_cmp(head, (#[trigger] rest[i]).0)
            < 0 by {
            if exists|j: int| 0 <= j < n1.len() && n1[j].0 == rest[i].0 {
                let j = choose|j: int| 0 <= j < n1.len() && n1[j].0 == rest[i].0;
                if k <= 0 {
                    assert(n1[j] == c1[j + 1]);
                    assert(chars_cmp(c1[0].0, c1[j + 1].0) < 0);
                } else {
                    assert(chars_cmp(c2[0].0, c1[0].0) < 0);
                    if j == 0 {
                        assert(chars_cmp(head, rest[i].0) < 0);
                    } else {
                        assert(chars_cmp(c1[0].0, c1[j].0) < 0);
                        lemma_chars_cmp_trans(c2[0].0, c1[0].0, c1[j].0);
                    }
                }
            } else {
                let j = choose|j: int| 0 <= j < n2.len() && n2[j].0 == rest[i].0;
                if k >= 0 {
                    assert(n2[j] == c2[j + 1]);
                    assert(chars_cmp(c2[0].0, c2[j + 1].0) < 0);
                    if k < 0 {
                    }
                    if k == 0 {
                        assert(head == c1[0].0 && c1[0].0 == c2[0].0);
                    }
                } else {
                    assert(chars_cmp(c1[0].0, c2[0].0) < 0);
                    if j == 0 {
                        assert(chars_cmp(head, rest[i].0) < 0);
                    } else {
                        assert(chars_cmp(c2[0].0, c2[j].0) < 0);
                        lemma_chars_cmp_trans(c1[0].0, c2[0].0, c2[j].0);
                    }
                }
            }
        }
        assert forall|a: int, b: int| 0 <= a < b < r.len() implies chars_cmp(r[a].0, r[b].0)
            < 0 by {
            if a == 0 {
                assert(r[b] == rest[b - 1]);
            } else {
                assert(r[a] == rest[a - 1]);
                assert(r[b] == rest[b - 1]);
            }
        }
        wf_fields_all_props(rest);
        assert forall|i: int| 0 <= i < r.len() implies wf((#[trigger] r[i]).1) by {
            if i > 0 {
                assert(r[i] == rest[i - 1]);
            }
        }
    }
}

/// The positional merge of two well-formed tuples is well formed.
pub proof fn lemma_tuple_positions_wf(e1: Seq<Shape>, e2: Seq<Shape>)
    requires
        wf_all(e1),
        wf_all(e2),
        tuple_positions(e1, e2) is Some,
    ensures
        wf_all(tuple_positions(e1, e2)->0),
{
    lemma_tuple_positions(e1, e2);
    wf_all_props(e1);
    wf_all_props(e2);
    let r = tuple_positions(e1, e2)->0;
    wf_all_props(r);
    assert forall|i: int| 0 <= i < r.len() implies wf(#[trigger] r[i]) by {
        assert(r[i] == pos_merge(e1[i], e2[i])->0);
        lemma_wf_opt(e1[i]);
        lemma_wf_opt(e2[i]);
    }
}

/// The collapsed union built from an array element and tuple positions is
/// well formed when its parts are.
proof fn lemma_collapse_wf(e: Shape, x: bool, es: Seq<Shape>, y: bool)
    requires
        wf(e),
        wf_all(es),
    ensures
        wf(array_tuple_collapse(e, x, es, y)),
{
    lemma_wf_opt(e);
    lemma_insert_shape(Seq::empty(), e.as_non_opt());
    wf_all_props(Seq::empty());
    let vs0 = insert_shape(Seq::empty(), e.as_non_opt());
    wf_all_props(vs0);
    lemma_non_opt_all_wf(es);
    lemma_insert_all_wf(vs0, non_opt_all(es));
    let vs = insert_all(vs0, non_opt_all(es));
    wf_all_props(vs);
    if x || y {
        lemma_insert_shape(vs, Shape::Null);
        wf_all_props(insert_shape(vs, Shape::Null));
    }
    let vsf = if x || y {
        insert_shape(vs, Shape::Null)
    } else {
        vs
    };
    assert(sorted_variants(vsf));
    assert(wf_all(vsf));
    assert(wf(Shape::OneOf { variants: vsf, optional: false }));
    let out = array_tuple_collapse(e, x, es, y);
    assert(out matches Shape::Array { element: be, .. } && *be == Shape::OneOf {
        variants: vsf,
        optional: false,
    });
}


/// The collapsed union built from tuple positions and a non-array operand is
/// well formed when its parts are.
proof fn lemma_tuple_other_wf(es: Seq<Shape>, x: bool, b: Shape)
    requires
        wf_all(es),
        wf(b),
    ensures
        wf(tuple_other_collapse(es, x, b)),
{
    lemma_non_opt_all_wf(es);
    wf_all_props(Seq::empty());
    lemma_insert_all_wf(Seq::empty(), non_opt_all(es));
    let vs0 = insert_all(Seq::empty(), non_opt_all(es));
    lemma_wf_opt(b);
    lemma_insert_shape(vs0, b.as_non_opt());
    wf_all_props(vs0);
    let vs = insert_shape(vs0, b.as_non_opt());
    wf_all_props(vs);
    let vsf = if any_opt(es) || b.opt() {
        lemma_insert_shape(vs, Shape::Null);
        wf_all_props(insert_shape(vs, Shape::Null));
        insert_shape(vs, Shape::Null)
    } else {
        vs
    };
    assert(wf(Shape::OneOf { variants: vsf, optional: false }));
    let out = tuple_other_collapse(es, x, b);
    assert(out matches Shape::Array { element: be, .. } && *be == Shape::OneOf {
        variants: vsf,
        optional: false,
    });
}

/// The degraded merge of two incompatible well-formed tuples is well formed.
proof fn lemma_tuple_collapse_wf(e1: Seq<Shape>, x: bool, e2: Seq<Shape>, y: bool)
    requires
        wf_all(e1),
        wf_all(e2),
    ensures
        wf(tuple_collapse(e1, x, e2, y)),
{
    lemma_non_opt_all_wf(e1);
    lemma_non_opt_all_wf(e2);
    wf_all_props(Seq::empty());
    lemma_insert_all_wf(Seq::empty(), non_opt_all(e1));
    lemma_insert_all_wf(insert_all(Seq::empty(), non_opt_all(e1)), non_opt_all(e2));
    let vs = insert_all(insert_all(Seq::empty(), non_opt_all(e1)), non_opt_all(e2));
    wf_all_props(vs);
    let vsf = if any_opt(e1) || any_opt(e2) {
        lemma_insert_shape(vs, Shape::Null);
        wf_all_props(insert_shape(vs, Shape::Null));
        insert_shape(vs, Shape::Null)
    } else {
        vs
    };
    assert(wf(Shape::OneOf { variants: vsf, optional: false }));
    let out = tuple_collapse(e1, x, e2, y);
    assert(out matches Shape::Array { element: be, .. } && *be == Shape::OneOf {
        variants: vsf,
        optional: false,
    });
}

/// The cross-kind union of two well-formed shapes is well formed.
proof fn lemma_cross_pair_wf(a: Shape, b: Shape)
    requires
        wf(a),
        wf(b),
    ensures
        wf(cross_pair(a, b)),
{
    lemma_wf_opt(a);
    lemma_wf_opt(b);
    wf_all_props(Seq::empty());
    lemma_insert_shape(Seq::empty(), a.as_non_opt());
    let vs0 = insert_shape(Seq::empty(), a.as_non_opt());
    wf_all_props(vs0);
    lemma_insert_shape(vs0, b.as_non_opt());
    let vs1 = insert_shape(vs0, b.as_non_opt());
    wf_all_props(vs1);
    let vsf = if a.opt() || b.opt() {
        lemma_insert_shape(vs1, Shape::Null);
        wf_all_props(insert_shape(vs1, Shape::Null));
        insert_shape(vs1, Shape::Null)
    } else {
        vs1
    };
    assert(wf(Shape::OneOf { variants: vsf, optional: false }));
    assert(cross_pair(a, b) == Shape::OneOf { variants: vsf, optional: false });
}

/// Absorbing a well-formed shape into a well-formed union keeps it well
/// formed.
proof fn lemma_absorb_wf(v: Seq<Shape>, opt: bool, t: Shape)
    requires
        sorted_variants(v),
        wf_all(v),
        wf(t),
    ensures
        wf(one_of_absorb(v, opt, t)),
{
    let vs1 = if t.opt() {
        insert_shape(v, Shape::Null)
    } else {
        v
    };
    if t.opt() {
        lemma_insert_shape(v, Shape::Null);
        wf_all_props(v);
        wf_all_props(vs1);
    }
    lemma_wf_opt(t);
    lemma_insert_shape(vs1, t.as_non_opt());
    wf_all_props(vs1);
    wf_all_props(insert_shape(vs1, t.as_non_opt()));
    assert(one_of_absorb(v, opt, t) == Shape::OneOf {
        variants: insert_shape(vs1, t.as_non_opt()),
        optional: opt,
    });
}

/// The merge of two well-formed shapes is well formed.
pub proof fn lemma_merger_wf(a: Shape, b: Shape)
    requires
        wf(a),
        wf(b),
    ensures
        wf(merger_s(a, b)),
    decreases a, b, 1nat,
{
    let r = merger_s(a, b);
    match (a, b) {
        (Shape::Null, Shape::Null) => {},
        (Shape::Null, _) => {
            lemma_wf_opt(b);
        },
        (_, Shape::Null) => {
            lemma_wf_opt(a);
        },
        (Shape::Array { element: e1, .. }, Shape::Array { element: e2, .. }) => {
            lemma_merger_wf(*e1, *e2);
        },
        (Shape::Array { element: e, optional: x }, Shape::Tuple { elements: es, optional: y }) => {
            assert(decreases_to!(b => b->Tuple_elements));
            lemma_collapse_wf(*e, x, es, y);
        },
        (Shape::Tuple { elements: es, optional: x }, Shape::Array { element: e, optional: y }) => {
            assert(decreases_to!(a => a->Tuple_elements));
            lemma_collapse_wf(*e, x, es, y);
        },
        (Shape::Tuple { elements: e1, optional: x }, Shape::Tuple { elements: e2, optional: y }) => {
            assert(decreases_to!(a => a->Tuple_elements));
            assert(decreases_to!(b => b->Tuple_elements));
            if e1.len() == e2.len() && tuple_positions(e1, e2) is Some {
                lemma_tuple_positions_wf(e1, e2);
            } else {
                lemma_tuple_collapse_wf(e1, x, e2, y);
            }
        },
        (Shape::Object { content: c1, .. }, Shape::Object { content: c2, .. }) => {
            assert(decreases_to!(a => a->Object_content));
            assert(decreases_to!(b => b->Object_content));
            lemma_merge_fields_wf(c1, c2);
        },
        (Shape::OneOf { variants: v1, .. }, Shape::OneOf { variants: v2, .. }) => {
            assert(decreases_to!(b => b->OneOf_variants));
            wf_all_props(v2);
            lemma_insert_all_wf(v1, v2);
        },
        (Shape::OneOf { variants: v, .. }, _) => {
            assert(decreases_to!(a => a->OneOf_variants));
            lemma_absorb_wf(v, a->OneOf_optional, b);
        },
        (Shape::Tuple { elements: es, optional: x }, _) => {
            assert(decreases_to!(a => a->Tuple_elements));
            lemma_tuple_other_wf(es, x, b);
        },
        (_, Shape::OneOf { variants: v, .. }) => {
            assert(decreases_to!(b => b->OneOf_variants));
            lemma_absorb_wf(v, b->OneOf_optional, a);
        },
        _ => {
            lemma_cross_pair_wf(a, b);
        },
    }
}

/// The left fold of the merge over well-formed samples is well formed.
pub proof fn lemma_merge_s_wf(samples: Seq<Shape>)
    requires
        samples.len() > 0,
        forall|i: int| 0 <= i < samples.len() ==> wf(#[trigger] samples[i]),
    ensures
        wf(merge_s(samples)),
    decreases samples.len(),
{
    if samples.len() > 1 {
        assert forall|i: int| 0 <= i < samples.drop_last().len() implies wf(
            #[trigger] samples.drop_last()[i],
        ) by {
            assert(samples.drop_last()[i] == samples[i]);
        }
        lemma_merge_s_wf(samples.drop_last());
        lemma_merger_wf(merge_s(samples.drop_last()), samples.last());
    }
}

} // verus!
