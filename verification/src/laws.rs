//! Laws of the subset relation and the merge.
//!
//! These proofs state, once and for all shapes, the guarantees the library's
//! consumers rely on: reflexivity of the subset check, absorption of `Null`,
//! monotonicity under widening, and idempotence and fold-compatibility of the
//! merge.

use vstd::prelude::*;

use crate::canon::{fields_get, insert_shape, lemma_insert_shape};
use crate::merge::{
    insert_all, merge_fields, merge_s, merger_s, pos_merge, tuple_positions,
    lemma_tuple_positions,
};
use crate::order::{
    chars_cmp, lemma_chars_cmp_refl, sorted_keys, sorted_variants, wf, wf_all, wf_all_props,
    wf_fields_all, wf_fields_all_props,
};
use crate::subset::{
    fields_subset, fields_width, lemma_fields_subset, lemma_subset_pairwise, subset_of,
    subset_pairwise, variants_set_subset,
};
use crate::value::Shape;

verus! {

/// In a key-sorted field list, looking a key up finds exactly its own entry.
pub proof fn lemma_fields_get_self(c: Seq<(Seq<char>, Shape)>)
    requires
        sorted_keys(c),
    ensures
        forall|i: int| 0 <= i < c.len() ==> fields_get(c, (#[trigger] c[i]).0) == Option::Some(
            c[i].1,
        ),
    decreases c.len(),
{
    if c.len() > 0 {
        let tail = c.drop_first();
        assert forall|a: int, b: int| 0 <= a < b < tail.len() implies chars_cmp(
            tail[a].0,
            tail[b].0,
        ) < 0 by {
            assert(tail[a] == c[a + 1]);
            assert(tail[b] == c[b + 1]);
        }
        lemma_fields_get_self(tail);
        assert forall|i: int|
            0 <= i < c.len() implies fields_get(c, (#[trigger] c[i]).0) == Option::Some(
            c[i].1,
        ) by {
            if i > 0 {
                assert(chars_cmp(c[0].0, c[i].0) < 0);
                if c[0].0 == c[i].0 {
                    lemma_chars_cmp_refl(c[0].0);
                }
                assert(tail[i - 1] == c[i]);
                assert(fields_get(tail, c[i].0) == Option::Some(c[i].1));
            }
        }
    }
}

/// Reflexivity: every well-formed shape is a subset of itself, and of its
/// optional widening.
pub proof fn lemma_subset_refl(s: Shape)
    requires
        wf(s),
    ensures
        subset_of(s, s),
        subset_of(s, s.as_opt()),
    decreases s,
{
    match s {
        Shape::Array { element, .. } => {
            lemma_subset_refl(*element);
        },
        Shape::Tuple { elements, .. } => {
            assert(decreases_to!(s => s->Tuple_elements));
            lemma_subset_pairwise_refl(elements);
            lemma_subset_pairwise(elements, elements);
        },
        Shape::Object { content, .. } => {
            assert(decreases_to!(s => s->Object_content));
            lemma_fields_refl(content);
        },
        Shape::OneOf { variants, .. } => {
            assert forall|i: int| 0 <= i < variants.len() implies variants.contains(
                #[trigger] variants[i],
            ) by {}
            assert(variants_set_subset(variants, variants));
        },
        _ => {},
    }
}

/// Pairwise reflexivity of the subset relation on a well-formed shape list.
pub proof fn lemma_subset_pairwise_refl(es: Seq<Shape>)
    requires
        wf_all(es),
    ensures
        forall|i: int| 0 <= i < es.len() ==> subset_of(#[trigger] es[i], es[i]),
    decreases es,
{
    wf_all_props(es);
    assert forall|i: int| 0 <= i < es.len() implies subset_of(#[trigger] es[i], es[i]) by {
        assert(decreases_to!(es => es[i]));
        lemma_subset_refl(es[i]);
    }
}

/// The width and depth object rules hold between a well-formed field list and
/// itself.
pub proof fn lemma_fields_refl(c: Seq<(Seq<char>, Shape)>)
    requires
        wf_fields_all(c),
        sorted_keys(c),
    ensures
        fields_width(c, c),
        fields_subset(c, c),
    decreases c,
{
    lemma_fields_get_self(c);
    wf_fields_all_props(c);
    lemma_fields_subset(c, c);
    assert forall|i: int|
        0 <= i < c.len() implies match fields_get(c, (#[trigger] c[i]).0) {
        Option::Some(w) => subset_of(c[i].1, w),
        Option::None => false,
    } by {
        assert(decreases_to!(c => c[i]));
        lemma_subset_refl(c[i].1);
    }
}

/// Null absorption: `Null` is a subset of a shape exactly when that shape is
/// optional or is `Null` itself.
pub proof fn lemma_null_absorption(x: Shape)
    ensures
        subset_of(Shape::Null, x) <==> (x.opt() || x is Null),
{
}

/// Optional monotonicity: when the target is not a union, widening both sides
/// of a subset pair keeps the subset relation.
///
/// The restriction to non-union targets is necessary: a non-optional scalar
/// is a subset of a union containing that scalar, but its optional widening
/// is a subset of the widened union only if `Null` is among the variants.
pub proof fn lemma_optional_monotonic(s: Shape, t: Shape)
    requires
        subset_of(s, t),
        !(t is OneOf),
    ensures
        subset_of(s.as_opt(), t.as_opt()),
{
}

/// Merge idempotence: merging a well-formed shape with itself gives it back.
pub proof fn lemma_merge_idem(v: Shape)
    requires
        wf(v),
    ensures
        merger_s(v, v) == v,
    decreases v,
{
    match v {
        Shape::Array { element, optional } => {
            lemma_merge_idem(*element);
            assert(merger_s(v, v) =~~= v);
        },
        Shape::Tuple { elements, optional } => {
            assert(decreases_to!(v => v->Tuple_elements));
            lemma_subset_pairwise_refl(elements);
            lemma_tuple_positions(elements, elements);
            assert forall|i: int| 0 <= i < elements.len() implies (#[trigger] pos_merge(
                elements[i],
                elements[i],
            )) == Option::<Shape>::Some(elements[i]) by {}
            assert(tuple_positions(elements, elements) is Some);
            let folded = tuple_positions(elements, elements)->0;
            assert(folded.len() == elements.len());
            assert forall|i: int| 0 <= i < elements.len() implies folded[i] == elements[i] by {
                assert(pos_merge(elements[i], elements[i]) == Option::<Shape>::Some(elements[i]));
            }
            assert(folded =~= elements);
            assert(merger_s(v, v) =~~= v);
        },
        Shape::Object { content, optional } => {
            assert(decreases_to!(v => v->Object_content));
            lemma_merge_fields_idem(content);
            assert(merger_s(v, v) =~~= v);
        },
        Shape::OneOf { variants, optional } => {
            assert(decreases_to!(v => v->OneOf_variants));
            lemma_insert_all_contained(variants, variants);
            assert(merger_s(v, v) =~~= v);
        },
        _ => {},
    }
}

/// Key-wise merging a well-formed field list with itself gives it back.
pub proof fn lemma_merge_fields_idem(c: Seq<(Seq<char>, Shape)>)
    requires
        wf_fields_all(c),
        sorted_keys(c),
    ensures
        merge_fields(c, c) == c,
    decreases c,
{
    if c.len() > 0 {
        lemma_chars_cmp_refl(c[0].0);
        assert(decreases_to!(c => c[0]));
        lemma_merge_idem(c[0].1);
        let tail = c.drop_first();
        assert forall|a: int, b: int| 0 <= a < b < tail.len() implies chars_cmp(
            tail[a].0,
            tail[b].0,
        ) < 0 by {
            assert(tail[a] == c[a + 1]);
            assert(tail[b] == c[b + 1]);
        }
        wf_fields_all_props(c);
        wf_fields_all_props(tail);
        lemma_merge_fields_idem(tail);
        assert(merge_fields(c, c) =~= c);
    } else {
        assert(merge_fields(c, c) =~= c);
    }
}

/// Inserting already-present shapes into a sorted variant list changes
/// nothing.
pub proof fn lemma_insert_all_contained(vs: Seq<Shape>, from: Seq<Shape>)
    requires
        sorted_variants(vs),
        forall|i: int| 0 <= i < from.len() ==> vs.contains(#[trigger] from[i]),
    ensures
        insert_all(vs, from) == vs,
    decreases from.len(),
{
    if from.len() > 0 {
        lemma_insert_shape(vs, from[0]);
        assert(vs.contains(from[0]));
        assert(insert_shape(vs, from[0]) == vs);
        assert forall|i: int| 0 <= i < from.drop_first().len() implies vs.contains(
            #[trigger] from.drop_first()[i],
        ) by {
            assert(from.drop_first()[i] == from[i + 1]);
        }
        lemma_insert_all_contained(vs, from.drop_first());
    }
}

/// Merge with `Null`: merging a non-`Null` shape with `Null`, in either
/// order, yields its optional widening.
pub proof fn lemma_merge_null(v: Shape)
    requires
        !(v is Null),
    ensures
        merger_s(v, Shape::Null) == v.as_opt(),
        merger_s(Shape::Null, v) == v.as_opt(),
{
}

/// Left-fold well-definedness: merging three samples equals merging the merge
/// of the first two with the third.
pub proof fn lemma_merge_fold(a: Shape, b: Shape, c: Shape)
    ensures
        merge_s(seq![a, b, c]) == merger_s(merge_s(seq![a, b]), c),
        merge_s(seq![a, b, c]) == merge_s(seq![merge_s(seq![a, b]), c]),
{
    let abc = seq![a, b, c];
    let ab = seq![a, b];
    let one = seq![a];
    assert(merge_s(one) == a);
    assert(merge_s(ab) == merger_s(a, b)) by {
        assert(ab.drop_last() =~= one);
        assert(ab.last() == b);
    }
    assert(merge_s(abc) == merger_s(merge_s(ab), c)) by {
        assert(abc.drop_last() =~= ab);
        assert(abc.last() == c);
    }
    let folded = seq![merge_s(ab), c];
    assert(merge_s(folded) == merger_s(merge_s(ab), c)) by {
        assert(folded.drop_last() =~= seq![merge_s(ab)]);
        assert(merge_s(seq![merge_s(ab)]) == merge_s(ab));
        assert(folded.last() == c);
    }
}

} // verus!

verus! {

use crate::infer::{infer_j, lemma_infer_j_wf, JsonModel};

/// Inference/subset round trip at the generic-tree entry: the shape inferred
/// from a document is a superset of that document, since the document's own
/// inferred shape is a subset of it. Inference is a function of the tree, so
/// this is reflexivity of the subset check at the inferred shape.
pub proof fn lemma_infer_round_trip(d: JsonModel)
    ensures
        subset_of(infer_j(d), infer_j(d)),
{
    lemma_infer_j_wf(d);
    lemma_subset_refl(infer_j(d));
}

} // verus!

verus! {

use vstd::string::StringSliceAdditionalSpecFns;

use crate::error::ErrModel;
use crate::lexer::lex_s;
use crate::parser::{parse_s, NodeModel};
use crate::text_result;
use crate::shape::{lemma_walk_cst_wf, walk_cst};

/// Inference/subset round trip at the parsed-tree entry: whenever the walk of
/// a document succeeds, its shape is a subset of itself, so the document's
/// own inferred shape conforms to it. The walk is a function of the tree, so
/// this is reflexivity of the subset check at the walked shape.
pub proof fn lemma_walk_round_trip(root: NodeModel, src: Seq<char>)
    ensures
        walk_cst(root, src) matches Result::Ok(v) ==> subset_of(v, v),
{
    lemma_walk_cst_wf(root, src);
    match walk_cst(root, src) {
        Result::Ok(v) => {
            lemma_subset_refl(v);
        },
        Result::Err(_) => {},
    }
}

/// Inference/subset round trip at the text entry: whenever inference from a
/// source text succeeds, the inferred shape is a subset of itself, so the
/// text's own shape conforms to what was inferred from it. Inference is a
/// function of the text, so this is reflexivity at the text's shape.
pub proof fn lemma_text_round_trip(source: &str)
    ensures
        text_result(source) matches Result::Ok(v) ==> subset_of(v, v),
{
    let root = parse_s(
        lex_s(source@, 0, 0, 0),
        source@.len() as int,
        source.spec_bytes().len() as int,
    );
    lemma_walk_round_trip(root, source@);
}

} // verus!
