//! Shape inference from an already materialized JSON tree.
//!
//! [`JsonValue`] is the library's generic JSON tree: plain values for every
//! node, so inference over it is a pure, verified function. Inference from
//! source text goes through the parser and produces identical shapes for
//! equivalent documents, since both paths share the same array policy.

use vstd::prelude::*;

use crate::canon::{fields_insert, lemma_fields_insert};
use crate::merge::{lemma_merge_s_wf, merge_s, merger_value};
use crate::order::{sorted_keys, value_eq, wf, wf_fields_all};
use crate::value::{Shape, Value};

verus! {

/// A materialized generic JSON tree, with plain values at every node.
/// A number holds its literal text.
pub enum JsonValue {
    /// The JSON `null` literal.
    Null,
    /// A JSON boolean.
    Bool(bool),
    /// A JSON number, as its literal text.
    Number(String),
    /// A JSON string.
    String(String),
    /// A JSON array.
    Array(Vec<JsonValue>),
    /// A JSON object: keys with values, in document order.
    Object(Vec<(String, JsonValue)>),
}

/// Mathematical model of a generic JSON tree.
#[verifier::ext_equal]
pub enum JsonModel {
    /// The JSON `null` literal.
    Null,
    /// A JSON boolean.
    Bool(bool),
    /// A JSON number, as its literal text.
    Number(Seq<char>),
    /// A JSON string.
    Str(Seq<char>),
    /// A JSON array.
    Array(Seq<JsonModel>),
    /// A JSON object.
    Object(Seq<(Seq<char>, JsonModel)>),
}

/// The model of a JSON tree.
pub open spec fn json_model(j: JsonValue) -> JsonModel
    decreases j,
{
    match j {
        JsonValue::Null => JsonModel::Null,
        JsonValue::Bool(b) => JsonModel::Bool(b),
        JsonValue::Number(n) => JsonModel::Number(n@),
        JsonValue::String(s) => JsonModel::Str(s@),
        JsonValue::Array(items) => {
            proof {
                let c = j->Array_0;
                assert(decreases_to!(j => c));
                assert(decreases_to!(c => c@));
            }
            JsonModel::Array(json_list_model(items@))
        },
        JsonValue::Object(fields) => {
            proof {
                let c = j->Object_0;
                assert(decreases_to!(j => c));
                assert(decreases_to!(c => c@));
            }
            JsonModel::Object(json_fields_model(fields@))
        },
    }
}

/// The models of a list of JSON trees, elementwise.
pub open spec fn json_list_model(s: Seq<JsonValue>) -> Seq<JsonModel>
    decreases s,
{
    if s.len() == 0 {
        Seq::empty()
    } else {
        proof {
            assert(decreases_to!(s => s[0]));
        }
        json_list_model(s.drop_first()).insert(0, json_model(s[0]))
    }
}

/// The models of a list of keyed JSON trees, elementwise.
pub open spec fn json_fields_model(s: Seq<(String, JsonValue)>) -> Seq<(Seq<char>, JsonModel)>
    decreases s,
{
    if s.len() == 0 {
        Seq::empty()
    } else {
        proof {
            assert(decreases_to!(s => s[0]));
        }
        json_fields_model(s.drop_first()).insert(0, (s[0].0@, json_model(s[0].1)))
    }
}

/// `json_list_model` maps the element models pointwise.
pub broadcast proof fn json_list_model_props(s: Seq<JsonValue>)
    ensures
        #[trigger] json_list_model(s).len() == s.len(),
        forall|i: int| 0 <= i < s.len() ==> json_list_model(s)[i] == json_model(s[i]),
    decreases s.len(),
{
    if s.len() > 0 {
        json_list_model_props(s.drop_first());
    }
}

/// `json_fields_model` maps the keys and element models pointwise.
pub broadcast proof fn json_fields_model_props(s: Seq<(String, JsonValue)>)
    ensures
        #[trigger] json_fields_model(s).len() == s.len(),
        forall|i: int|
            0 <= i < s.len() ==> json_fields_model(s)[i] == (s[i].0@, json_model(s[i].1)),
    decreases s.len(),
{
    if s.len() > 0 {
        json_fields_model_props(s.drop_first());
    }
}

impl View for JsonValue {
    type V = JsonModel;

    open spec fn view(&self) -> JsonModel {
        json_model(*self)
    }
}

/// The array resolution policy, shared by both inference paths, given the
/// ordered list of the already-inferred element shapes:
/// a single or uniform element shape is a homogeneous array; records widen
/// into one merged record; mixed elements keep their positions as a tuple;
/// an empty array is a placeholder optional array of `Null`.
pub open spec fn resolve_array_s(shapes: Seq<Shape>) -> Shape {
    if shapes.len() == 0 {
        Shape::Array { element: Box::new(Shape::Null), optional: true }
    } else if shapes.len() == 1 || (forall|i: int|
        0 <= i < shapes.len() - 1 ==> (#[trigger] shapes[i]) == shapes[i + 1]) {
        Shape::Array { element: Box::new(shapes[0]), optional: false }
    } else if forall|i: int| 0 <= i < shapes.len() ==> (#[trigger] shapes[i]) is Object {
        Shape::Array { element: Box::new(merge_s(shapes)), optional: false }
    } else {
        Shape::Tuple { elements: shapes, optional: false }
    }
}

/// The shape inferred from a generic JSON tree: literals classify directly,
/// arrays follow the shared array policy, and objects recurse per member
/// with a repeated key's last occurrence winning.
pub open spec fn infer_j(j: JsonModel) -> Shape
    decreases j,
{
    match j {
        JsonModel::Null => Shape::Null,
        JsonModel::Bool(_) => Shape::Bool { optional: false },
        JsonModel::Number(_) => Shape::Number { optional: false },
        JsonModel::Str(_) => Shape::Str { optional: false },
        JsonModel::Array(items) => {
            proof {
                assert(decreases_to!(j => j->Array_0));
            }
            resolve_array_s(infer_list(items))
        },
        JsonModel::Object(fields) => {
            proof {
                assert(decreases_to!(j => j->Object_0));
            }
            Shape::Object { content: infer_fields(fields), optional: false }
        },
    }
}

/// The shapes inferred from a list of JSON trees, elementwise.
pub open spec fn infer_list(s: Seq<JsonModel>) -> Seq<Shape>
    decreases s,
{
    if s.len() == 0 {
        Seq::empty()
    } else {
        proof {
            assert(decreases_to!(s => s[0]));
        }
        infer_list(s.drop_first()).insert(0, infer_j(s[0]))
    }
}

/// The sorted field shapes inferred from an object's members; a repeated
/// key's later binding replaces the earlier one.
pub open spec fn infer_fields(s: Seq<(Seq<char>, JsonModel)>) -> Seq<(Seq<char>, Shape)>
    decreases s,
{
    if s.len() == 0 {
        Seq::empty()
    } else {
        proof {
            assert(decreases_to!(s => s.drop_last()));
            assert(decreases_to!(s => s.last()));
        }
        fields_insert(infer_fields(s.drop_last()), s.last().0, infer_j(s.last().1))
    }
}

/// `infer_list` maps the element inferences pointwise.
pub broadcast proof fn infer_list_props(s: Seq<JsonModel>)
    ensures
        #[trigger] infer_list(s).len() == s.len(),
        forall|i: int| 0 <= i < s.len() ==> infer_list(s)[i] == infer_j(s[i]),
    decreases s.len(),
{
    if s.len() > 0 {
        infer_list_props(s.drop_first());
    }
}

} // verus!

verus! {

use crate::order::{wf_all, wf_all_props};
use crate::value::{shapes_model, shapes_model_props, fields_model};

/// Inferred object fields are key-sorted and well formed.
pub proof fn lemma_infer_fields_wf(s: Seq<(Seq<char>, JsonModel)>)
    ensures
        sorted_keys(infer_fields(s)),
        wf_fields_all(infer_fields(s)),
    decreases s, 0nat,
{
    if s.len() > 0 {
        assert(decreases_to!(s => s.drop_last()));
        lemma_infer_fields_wf(s.drop_last());
        assert(decreases_to!(s => s.last()));
        lemma_infer_j_wf(s.last().1);
        lemma_fields_insert(infer_fields(s.drop_last()), s.last().0, infer_j(s.last().1));
    }
}

/// Every inferred element shape in a list is well formed.
pub proof fn lemma_infer_list_wf(s: Seq<JsonModel>)
    ensures
        wf_all(infer_list(s)),
    decreases s, 0nat,
{
    infer_list_props(s);
    wf_all_props(infer_list(s));
    assert forall|i: int| 0 <= i < infer_list(s).len() implies wf(#[trigger] infer_list(s)[i]) by {
        assert(infer_list(s)[i] == infer_j(s[i]));
        assert(decreases_to!(s => s[i]));
        lemma_infer_j_wf(s[i]);
    }
    assert(wf_all(infer_list(s)));
}

/// The array resolution policy preserves well-formedness.
pub proof fn lemma_resolve_array_wf(shapes: Seq<Shape>)
    requires
        wf_all(shapes),
    ensures
        wf(resolve_array_s(shapes)),
{
    reveal_with_fuel(wf, 3);
    wf_all_props(shapes);
    let out = resolve_array_s(shapes);
    if shapes.len() == 0 {
        assert(out matches Shape::Array { element: be, .. } && *be == Shape::Null);
        assert(wf(out));
    } else if shapes.len() == 1 || (forall|i: int|
        0 <= i < shapes.len() - 1 ==> (#[trigger] shapes[i]) == shapes[i + 1]) {
        assert(out matches Shape::Array { element: be, .. } && *be == shapes[0]);
        assert(wf(shapes[0]));
        assert(wf(out));
    } else if forall|i: int| 0 <= i < shapes.len() ==> (#[trigger] shapes[i]) is Object {
        lemma_merge_s_wf(shapes);
        assert(out matches Shape::Array { element: be, .. } && *be == merge_s(shapes));
        assert(wf(out));
    } else {
        assert(out == Shape::Tuple { elements: shapes, optional: false });
        assert(wf(out));
    }
}

/// Every inferred shape is well formed.
pub proof fn lemma_infer_j_wf(j: JsonModel)
    ensures
        wf(infer_j(j)),
    decreases j, 1nat,
{
    match j {
        JsonModel::Array(items) => {
            assert(decreases_to!(j => j->Array_0));
            lemma_infer_list_wf(items);
            lemma_resolve_array_wf(infer_list(items));
        },
        JsonModel::Object(fields) => {
            assert(decreases_to!(j => j->Object_0));
            lemma_infer_fields_wf(fields);
        },
        _ => {},
    }
}

/// Applies the shared array resolution policy to inferred element shapes.
#[verifier::loop_isolation(false)]
#[verifier::rlimit(100)]
pub fn resolve_array(elements: Vec<Value>) -> (r: Value)
    requires
        forall|i: int| 0 <= i < elements@.len() ==> wf(#[trigger] elements@[i]@),
    ensures
        r@ == resolve_array_s(shapes_model(elements@)),
        wf(r@),
{
    proof {
        reveal_with_fuel(wf, 3);
        shapes_model_props(elements@);
        wf_all_props(shapes_model(elements@));
    }
    let ghost m = shapes_model(elements@);
    if elements.len() == 0 {
        let r = Value::Array { element: Box::new(Value::Null), optional: true };
        proof {
            assert(r@ matches Shape::Array { element: be, .. } && *be == Shape::Null);
            assert(resolve_array_s(m) matches Shape::Array { element: be, .. } && *be
                == Shape::Null);
            assert(r@ =~~= resolve_array_s(m));
            assert(wf(Shape::Null));
            assert(wf(r@));
        }
        return r;
    }
    let mut uniform: bool = true;
    let mut i: usize = 0;
    while i + 1 < elements.len()
        invariant
            i < elements.len(),
            uniform ==> forall|j: int| 0 <= j < i as int ==> (#[trigger] m[j]) == m[j + 1],
            !uniform ==> exists|j: int| 0 <= j < elements.len() - 1 && (#[trigger] m[j]) != m[j
                + 1],
        decreases elements.len() - i,
    {
        if !value_eq(&elements[i], &elements[i + 1]) {
            proof {
                assert(m[i as int] != m[i as int + 1]);
            }
            uniform = false;
        }
        i += 1;
    }
    if elements.len() == 1 || uniform {
        let mut rest = elements;
        let first = rest.remove(0);
        proof {
            assert(first@ == m[0]);
        }
        let r = Value::Array { element: Box::new(first), optional: false };
        proof {
            assert(r@ matches Shape::Array { element: be, .. } && *be == m[0]);
            assert(resolve_array_s(m) matches Shape::Array { element: be, .. } && *be == m[0]);
            assert(r@ =~~= resolve_array_s(m));
        }
        return r;
    }
    let mut all_objects: bool = true;
    let mut k: usize = 0;
    while k < elements.len()
        invariant
            k <= elements.len(),
            all_objects ==> forall|j: int| 0 <= j < k as int ==> (#[trigger] m[j]) is Object,
            !all_objects ==> exists|j: int| 0 <= j < elements.len() && !((#[trigger] m[j])
                is Object),
        decreases elements.len() - k,
    {
        if !matches!(&elements[k], Value::Object { .. }) {
            proof {
                assert(!(m[k as int] is Object));
            }
            all_objects = false;
        }
        k += 1;
    }
    if all_objects {
        let mut rest = elements;
        let mut acc = rest.remove(0);
        let ghost whole = m;
        let mut n: usize = 1;
        proof {
            assert(whole.take(1) =~= seq![whole[0]]);
            assert(shapes_model(rest@) =~= whole.drop_first());
        }
        while n < rest.len() + 1
            invariant
                1 <= n <= rest@.len() + 1,
                rest@.len() + 1 == whole.len(),
                shapes_model(rest@) =~= whole.drop_first(),
                acc@ == merge_s(whole.take(n as int)),
                wf(acc@),
            decreases rest.len() + 1 - n,
        {
            proof {
                shapes_model_props(rest@);
                assert(rest@[n as int - 1]@ == whole[n as int]);
                assert(whole[n as int] == elements@[n as int]@);
                assert(wf(whole[n as int]));
                assert forall|q: int| 0 <= q < whole.take(n as int).len() implies wf(
                    #[trigger] whole.take(n as int)[q],
                ) by {
                    assert(whole.take(n as int)[q] == whole[q]);
                    assert(whole[q] == elements@[q]@);
                }
                lemma_merge_s_wf(whole.take(n as int));
                crate::merge::lemma_merger_wf(merge_s(whole.take(n as int)), whole[n as int]);
                assert(whole.take(n as int + 1).drop_last() =~= whole.take(n as int));
                assert(whole.take(n as int + 1).last() == whole[n as int]);
            }
            let v = rest[n - 1].clone();
            acc = merger_value(acc, v);
            n += 1;
        }
        proof {
            assert(whole.take(n as int) =~= whole);
        }
        let r = Value::Array { element: Box::new(acc), optional: false };
        proof {
            assert(r@ matches Shape::Array { element: be, .. } && *be == merge_s(m));
            assert(resolve_array_s(m) matches Shape::Array { element: be, .. } && *be == merge_s(
                m,
            ));
            assert(r@ =~~= resolve_array_s(m));
        }
        return r;
    }
    proof {
        wf_all_props(m);
        assert forall|q: int| 0 <= q < m.len() implies wf(#[trigger] m[q]) by {
            assert(m[q] == elements@[q]@);
        }
        assert(wf_all(m));
        assert(resolve_array_s(m) == Shape::Tuple { elements: m, optional: false });
    }
    Value::Tuple { elements, optional: false }
}

} // verus!

verus! {

use crate::canon::insert_field;

/// Infers the shape of a generic JSON tree.
#[verifier::loop_isolation(false)]
pub fn infer_tree(j: &JsonValue) -> (r: Value)
    ensures
        r@ == infer_j(j@),
        wf(r@),
    decreases *j,
{
    proof {
        lemma_infer_j_wf(j@);
    }
    match j {
        JsonValue::Null => Value::Null,
        JsonValue::Bool(_) => Value::Bool { optional: false },
        JsonValue::Number(_) => Value::Number { optional: false },
        JsonValue::String(_) => Value::String { optional: false },
        JsonValue::Array(items) => {
            let ghost jm = json_list_model(items@);
            proof {
                json_list_model_props(items@);
                infer_list_props(jm);
            }
            let mut shapes: Vec<Value> = Vec::new();
            let mut k: usize = 0;
            while k < items.len()
                invariant
                    k <= items.len(),
                    shapes@.len() == k as int,
                    forall|q: int|
                        0 <= q < k as int ==> (#[trigger] shapes@[q])@ == infer_j(jm[q]) && wf(
                            shapes@[q]@,
                        ),
                decreases items.len() - k,
            {
                proof {
                    let c = (*j)->Array_0;
                    assert(decreases_to!(*j => c));
                    assert(decreases_to!(c => c@));
                    assert(decreases_to!(c@ => c@[k as int]));
                }
                let s = infer_tree(&items[k]);
                shapes.push(s);
                k += 1;
            }
            proof {
                shapes_model_props(shapes@);
                assert(shapes_model(shapes@) =~= infer_list(jm));
            }
            let r = resolve_array(shapes);
            proof {
                assert(j@ matches JsonModel::Array(inner) && inner == jm);
            }
            r
        },
        JsonValue::Object(fields) => {
            let ghost jm = json_fields_model(fields@);
            proof {
                json_fields_model_props(fields@);
            }
            let mut out: Vec<(String, Value)> = Vec::new();
            let mut k: usize = 0;
            proof {
                assert(fields_model(out@) =~= Seq::<(Seq<char>, Shape)>::empty());
                assert(jm.take(0) =~= Seq::<(Seq<char>, JsonModel)>::empty());
            }
            while k < fields.len()
                invariant
                    k <= fields.len(),
                    fields_model(out@) == infer_fields(jm.take(k as int)),
                decreases fields.len() - k,
            {
                proof {
                    let c = (*j)->Object_0;
                    assert(decreases_to!(*j => c));
                    assert(decreases_to!(c => c@));
                    assert(decreases_to!(c@ => c@[k as int]));
                    assert(decreases_to!(c@[k as int] => c@[k as int].1));
                }
                let key = fields[k].0.clone();
                let val = infer_tree(&fields[k].1);
                out = insert_field(out, key, val);
                proof {
                    assert(jm.take(k as int + 1).drop_last() =~= jm.take(k as int));
                    assert(jm.take(k as int + 1).last() == jm[k as int]);
                    assert(jm[k as int] == (fields@[k as int].0@, json_model(
                        fields@[k as int].1,
                    )));
                }
                k += 1;
            }
            proof {
                assert(jm.take(k as int) =~= jm);
                assert(j@ matches JsonModel::Object(inner) && inner == jm);
            }
            let r = Value::Object { content: out, optional: false };
            proof {
                assert(r@ =~~= infer_j(j@));
            }
            r
        },
    }
}

/// Visitor pairing a generic JSON tree with its inferred shape.
pub struct JsonVisitor<'json> {
    value: &'json JsonValue,
    shape: Value,
}

impl<'json> JsonVisitor<'json> {
    /// The JSON tree the visitor was built from.
    pub closed spec fn spec_value(&self) -> &'json JsonValue {
        self.value
    }

    /// The shape the visitor inferred.
    pub closed spec fn spec_shape(&self) -> Value {
        self.shape
    }

    /// Builds the visitor for a JSON tree, inferring its shape.
    pub fn from(value: &'json JsonValue) -> (r: JsonVisitor<'json>)
        ensures
            r.spec_shape()@ == infer_j(value@),
            r.spec_value() == value,
    {
        let shape = infer_tree(value);
        JsonVisitor { value, shape }
    }

    /// Returns the original JSON tree.
    pub fn value(&self) -> (r: &'json JsonValue)
        ensures
            r == self.spec_value(),
    {
        self.value
    }

    /// Returns the shape of the original JSON tree.
    pub fn shape(&self) -> (r: &Value)
        ensures
            r == self.spec_shape(),
    {
        &self.shape
    }
}

impl Value {
    /// Infers the shape of a generic JSON tree; both inference paths produce
    /// identical shapes for equivalent documents.
    pub fn from(json: &JsonValue) -> (r: Value)
        ensures
            r@ == infer_j(json@),
            wf(r@),
    {
        infer_tree(json)
    }
}

} // verus!
