//! Canonical storage of union variants and object fields.
//!
//! Union variants live in a strictly sorted, deduplicated sequence and object
//! fields in a sequence strictly sorted by key, so insertion keeps the
//! canonical form and equal shapes stay structurally equal.

use vstd::prelude::*;

use crate::order::{
    chars_cmp, cmp, cmp_keys, cmp_values, lemma_chars_cmp_antisym, lemma_chars_cmp_eq,
    lemma_chars_cmp_refl, lemma_chars_cmp_trans, lemma_cmp_antisym, lemma_cmp_eq, lemma_cmp_refl, lemma_cmp_trans,
    sorted_keys, sorted_variants, wf, wf_all, wf_all_props, wf_fields_all, wf_fields_all_props,
    Ord3,
};
use crate::value::{fields_model, fields_model_props, shapes_model, shapes_model_props, Shape, Value};

verus! {

/// Inserts a shape into a sorted variant list, keeping it sorted and
/// deduplicated; inserting a present shape returns the list unchanged.
pub open spec fn insert_shape(s: Seq<Shape>, x: Shape) -> Seq<Shape>
    decreases s.len(),
{
    if s.len() == 0 {
        seq![x]
    } else if cmp(x, s[0]) < 0 {
        s.insert(0, x)
    } else if cmp(x, s[0]) == 0 {
        s
    } else {
        insert_shape(s.drop_first(), x).insert(0, s[0])
    }
}

/// What `insert_shape` does: it keeps the list strictly sorted and well
/// formed, adds exactly the new shape to the members, and leaves the list
/// unchanged when the shape is already present.
pub proof fn lemma_insert_shape(s: Seq<Shape>, x: Shape)
    requires
        sorted_variants(s),
    ensures
        sorted_variants(insert_shape(s, x)),
        forall|y: Shape| #[trigger]
            insert_shape(s, x).contains(y) <==> s.contains(y) || y == x,
        s.contains(x) ==> insert_shape(s, x) == s,
        insert_shape(s, x).len() <= s.len() + 1,
        wf_all(s) && wf(x) ==> wf_all(insert_shape(s, x)),
    decreases s.len(),
{
    wf_all_props(s);
    let r = insert_shape(s, x);
    if s.len() == 0 {
        wf_all_props(r);
        assert(r[0] == x);
        assert forall|y: Shape| #[trigger] r.contains(y) implies s.contains(y) || y == x by {
            let i = choose|i: int| 0 <= i < r.len() && r[i] == y;
            assert(i == 0);
        }
    } else if cmp(x, s[0]) < 0 {
        assert forall|i: int, j: int| 0 <= i < j < r.len() implies cmp(r[i], r[j]) < 0 by {
            if i == 0 {
                if j == 1 {
                    assert(r[j] == s[0]);
                } else {
                    assert(r[j] == s[j - 1]);
                    assert(cmp(s[0], s[j - 1]) < 0);
                    lemma_cmp_trans(x, s[0], s[j - 1]);
                }
            } else {
                assert(r[i] == s[i - 1]);
                assert(r[j] == s[j - 1]);
            }
        }
        assert forall|y: Shape| #[trigger] r.contains(y) implies s.contains(y) || y == x by {
            let i = choose|i: int| 0 <= i < r.len() && r[i] == y;
            if i > 0 {
                assert(s[i - 1] == y);
            }
        }
        assert forall|y: Shape| s.contains(y) || y == x implies #[trigger] r.contains(y) by {
            if y == x {
                assert(r[0] == y);
            } else {
                let i = choose|i: int| 0 <= i < s.len() && s[i] == y;
                assert(r[i + 1] == y);
            }
        }
        if s.contains(x) {
            let i = choose|i: int| 0 <= i < s.len() && s[i] == x;
            lemma_cmp_refl(x);
            if i > 0 {
                lemma_cmp_trans(x, s[0], s[i]);
            }
            assert(false);
        }
        if wf_all(s) && wf(x) {
            wf_all_props(r);
        }
    } else if cmp(x, s[0]) == 0 {
        lemma_cmp_eq(x, s[0]);
        assert(s.contains(x));
    } else {
        let tail = s.drop_first();
        assert forall|i: int, j: int| 0 <= i < j < tail.len() implies cmp(tail[i], tail[j])
            < 0 by {
            assert(tail[i] == s[i + 1]);
            assert(tail[j] == s[j + 1]);
        }
        lemma_insert_shape(tail, x);
        let rt = insert_shape(tail, x);
        assert(r == rt.insert(0, s[0]));
        lemma_cmp_antisym(x, s[0]);
        assert forall|i: int, j: int| 0 <= i < j < r.len() implies cmp(r[i], r[j]) < 0 by {
            if i == 0 {
                assert(r[j] == rt[j - 1]);
                assert(rt.contains(rt[j - 1]));
                if rt[j - 1] == x {
                    assert(cmp(s[0], x) < 0);
                } else {
                    assert(tail.contains(rt[j - 1]));
                    let k = choose|k: int| 0 <= k < tail.len() && tail[k] == rt[j - 1];
                    assert(tail[k] == s[k + 1]);
                    assert(cmp(s[0], s[k + 1]) < 0);
                }
            } else {
                assert(r[i] == rt[i - 1]);
                assert(r[j] == rt[j - 1]);
            }
        }
        assert forall|y: Shape| #[trigger] r.contains(y) implies s.contains(y) || y == x by {
            let i = choose|i: int| 0 <= i < r.len() && r[i] == y;
            if i == 0 {
                assert(s[0] == y);
            } else {
                assert(rt.contains(r[i]));
                if r[i] != x {
                    assert(tail.contains(r[i]));
                    let k = choose|k: int| 0 <= k < tail.len() && tail[k] == r[i];
                    assert(s[k + 1] == y);
                }
            }
        }
        assert forall|y: Shape| s.contains(y) || y == x implies #[trigger] r.contains(y) by {
            if y == x || tail.contains(y) {
                assert(rt.contains(y));
                let k = choose|k: int| 0 <= k < rt.len() && rt[k] == y;
                assert(r[k + 1] == y);
            } else {
                let i = choose|i: int| 0 <= i < s.len() && s[i] == y;
                if i == 0 {
                    assert(r[0] == y);
                } else {
                    assert(tail[i - 1] == y);
                }
            }
        }
        if s.contains(x) {
            let i = choose|i: int| 0 <= i < s.len() && s[i] == x;
            assert(i > 0);
            assert(tail[i - 1] == x);
            assert(tail.contains(x));
            assert(rt == tail);
            assert(r =~= s);
        }
        if wf_all(s) && wf(x) {
            wf_all_props(tail);
            wf_all_props(rt);
            wf_all_props(r);
        }
    }
}

/// Inserts a shape tree into a sorted variant list; the canonical insert.
pub fn insert_value(vs: Vec<Value>, v: Value) -> (r: Vec<Value>)
    ensures
        shapes_model(r@) == insert_shape(shapes_model(vs@), v@),
    decreases vs.len(),
{
    proof {
        shapes_model_props(vs@);
    }
    let ghost m = shapes_model(vs@);
    if vs.len() == 0 {
        let mut out: Vec<Value> = Vec::new();
        out.push(v);
        proof {
            shapes_model_props(out@);
            assert(shapes_model(out@) =~= insert_shape(m, v@));
        }
        out
    } else {
        let c = cmp_values(&v, &vs[0]);
        match c {
            Ord3::Lt => {
                let mut out = vs;
                out.insert(0, v);
                proof {
                    shapes_model_props(out@);
                    assert(shapes_model(out@) =~= m.insert(0, v@));
                }
                out
            },
            Ord3::Eq => {
                vs
            },
            Ord3::Gt => {
                let mut rest = vs;
                let first = rest.remove(0);
                let ghost mrest = shapes_model(rest@);
                proof {
                    shapes_model_props(rest@);
                    assert(mrest =~= m.drop_first());
                }
                let mut out = insert_value(rest, v);
                proof {
                    shapes_model_props(out@);
                }
                out.insert(0, first);
                proof {
                    shapes_model_props(out@);
                    let inner = insert_shape(m.drop_first(), v@);
                    assert(shapes_model(out@) =~= inner.insert(0, first@));
                }
                out
            },
        }
    }
}

/// Looks up a key in a field list: the first entry with that key.
pub open spec fn fields_get(s: Seq<(Seq<char>, Shape)>, k: Seq<char>) -> Option<Shape>
    decreases s.len(),
{
    if s.len() == 0 {
        Option::None
    } else if s[0].0 == k {
        Option::Some(s[0].1)
    } else {
        fields_get(s.drop_first(), k)
    }
}

/// Inserts a field into a key-sorted field list, keeping it sorted; an entry
/// with an equal key is replaced.
pub open spec fn fields_insert(
    s: Seq<(Seq<char>, Shape)>,
    k: Seq<char>,
    x: Shape,
) -> Seq<(Seq<char>, Shape)>
    decreases s.len(),
{
    if s.len() == 0 {
        seq![(k, x)]
    } else if chars_cmp(k, s[0].0) < 0 {
        s.insert(0, (k, x))
    } else if chars_cmp(k, s[0].0) == 0 {
        s.update(0, (k, x))
    } else {
        fields_insert(s.drop_first(), k, x).insert(0, s[0])
    }
}

/// What `fields_insert` does: it keeps the field list strictly key-sorted and
/// well formed, binds exactly the given key to the given shape, and leaves
/// every other key's binding unchanged.
pub proof fn lemma_fields_insert(s: Seq<(Seq<char>, Shape)>, k: Seq<char>, x: Shape)
    requires
        sorted_keys(s),
    ensures
        sorted_keys(fields_insert(s, k, x)),
        fields_get(fields_insert(s, k, x), k) == Option::Some(x),
        forall|k2: Seq<char>|
            k2 != k ==> #[trigger] fields_get(fields_insert(s, k, x), k2) == fields_get(s, k2),
        wf_fields_all(s) && wf(x) ==> wf_fields_all(fields_insert(s, k, x)),
        fields_insert(s, k, x).len() <= s.len() + 1,
    decreases s.len(),
{
    wf_fields_all_props(s);
    let r = fields_insert(s, k, x);
    if s.len() == 0 {
        wf_fields_all_props(r);
        assert(r.drop_first() =~= Seq::<(Seq<char>, Shape)>::empty());
        assert forall|k2: Seq<char>| k2 != k implies #[trigger] fields_get(r, k2) == fields_get(
            s,
            k2,
        ) by {
            assert(fields_get(r, k2) == fields_get(r.drop_first(), k2));
        }
    } else if chars_cmp(k, s[0].0) < 0 {
        assert forall|i: int, j: int| 0 <= i < j < r.len() implies chars_cmp(r[i].0, r[j].0)
            < 0 by {
            if i == 0 {
                if j == 1 {
                    assert(r[j] == s[0]);
                } else {
                    assert(r[j] == s[j - 1]);
                    assert(chars_cmp(s[0].0, s[j - 1].0) < 0);
                    lemma_chars_cmp_trans(k, s[0].0, s[j - 1].0);
                }
            } else {
                assert(r[i] == s[i - 1]);
                assert(r[j] == s[j - 1]);
            }
        }
        assert(r[0] == (k, x));
        assert(r.drop_first() =~= s);
        if s[0].0 == k {
            lemma_chars_cmp_refl(k);
            assert(false);
        }
        assert forall|k2: Seq<char>| k2 != k implies #[trigger] fields_get(r, k2) == fields_get(
            s,
            k2,
        ) by {
            assert(r.drop_first() =~= s);
        }
        if wf_fields_all(s) && wf(x) {
            wf_fields_all_props(r);
        }
    } else if chars_cmp(k, s[0].0) == 0 {
        lemma_chars_cmp_eq(k, s[0].0);
        assert forall|i: int, j: int| 0 <= i < j < r.len() implies chars_cmp(r[i].0, r[j].0)
            < 0 by {
            assert(r[j] == s[j]);
            if i > 0 {
                assert(r[i] == s[i]);
            }
        }
        assert(r.drop_first() =~= s.drop_first());
        assert forall|k2: Seq<char>| k2 != k implies #[trigger] fields_get(r, k2) == fields_get(
            s,
            k2,
        ) by {
            assert(r[0].0 == k && s[0].0 == k);
            assert(fields_get(r, k2) == fields_get(r.drop_first(), k2));
            assert(fields_get(s, k2) == fields_get(s.drop_first(), k2));
        }
        if wf_fields_all(s) && wf(x) {
            wf_fields_all_props(s.drop_first());
            wf_fields_all_props(r);
        }
    } else {
        let tail = s.drop_first();
        assert forall|i: int, j: int| 0 <= i < j < tail.len() implies chars_cmp(
            tail[i].0,
            tail[j].0,
        ) < 0 by {
            assert(tail[i] == s[i + 1]);
            assert(tail[j] == s[j + 1]);
        }
        lemma_fields_insert(tail, k, x);
        let rt = fields_insert(tail, k, x);
        lemma_chars_cmp_antisym(k, s[0].0);
        assert forall|i: int, j: int| 0 <= i < j < r.len() implies chars_cmp(r[i].0, r[j].0)
            < 0 by {
            if i == 0 {
                assert(r[j] == rt[j - 1]);
                lemma_fields_get_key(tail, k, x, j - 1);
            } else {
                assert(r[i] == rt[i - 1]);
                assert(r[j] == rt[j - 1]);
            }
        }
        assert(r.drop_first() =~= rt);
        if s[0].0 == k {
            lemma_chars_cmp_refl(k);
            assert(false);
        }
        assert forall|k2: Seq<char>| k2 != k implies #[trigger] fields_get(r, k2) == fields_get(
            s,
            k2,
        ) by {
            assert(fields_get(rt, k2) == fields_get(tail, k2));
            assert(fields_get(r, k2) == if r[0].0 == k2 {
                Option::Some(r[0].1)
            } else {
                fields_get(rt, k2)
            });
        }
        assert(fields_get(r, k) == fields_get(rt, k));
        if wf_fields_all(s) && wf(x) {
            wf_fields_all_props(tail);
            wf_fields_all_props(rt);
            wf_fields_all_props(r);
        }
    }
}

/// Every key in `fields_insert(s, k, x)` is a key of `s` or is `k`, and the
/// head key of `s` sorts before all of them when it sorts before `k`.
proof fn lemma_fields_get_key(s: Seq<(Seq<char>, Shape)>, k: Seq<char>, x: Shape, i: int)
    requires
        sorted_keys(s),
        0 <= i < fields_insert(s, k, x).len(),
    ensures
        fields_insert(s, k, x)[i].0 == k || exists|j: int|
            0 <= j < s.len() && s[j].0 == #[trigger] fields_insert(s, k, x)[i].0,
    decreases s.len(),
{
    let r = fields_insert(s, k, x);
    if s.len() == 0 {
    } else if chars_cmp(k, s[0].0) < 0 {
        if i > 0 {
            assert(r[i] == s[i - 1]);
        }
    } else if chars_cmp(k, s[0].0) == 0 {
        if i > 0 {
            assert(r[i] == s[i]);
        } else {
            assert(r[0].0 == k);
        }
    } else {
        let tail = s.drop_first();
        assert forall|a: int, b: int| 0 <= a < b < tail.len() implies chars_cmp(
            tail[a].0,
            tail[b].0,
        ) < 0 by {
            assert(tail[a] == s[a + 1]);
            assert(tail[b] == s[b + 1]);
        }
        if i == 0 {
            assert(r[0] == s[0]);
        } else {
            lemma_fields_get_key(tail, k, x, i - 1);
            assert(r[i] == fields_insert(tail, k, x)[i - 1]);
            if fields_insert(tail, k, x)[i - 1].0 != k {
                let j = choose|j: int|
                    0 <= j < tail.len() && tail[j].0 == fields_insert(tail, k, x)[i - 1].0;
                assert(s[j + 1].0 == r[i].0);
            }
        }
    }
}


} // verus!

verus! {

use crate::order::value_eq;

/// Inserts a keyed shape tree into a key-sorted field list; the canonical
/// map insert (an equal key's entry is replaced).
pub fn insert_field(fs: Vec<(String, Value)>, k: String, v: Value) -> (r: Vec<(String, Value)>)
    ensures
        fields_model(r@) == fields_insert(fields_model(fs@), k@, v@),
    decreases fs.len(),
{
    proof {
        fields_model_props(fs@);
    }
    let ghost m = fields_model(fs@);
    if fs.len() == 0 {
        let mut out: Vec<(String, Value)> = Vec::new();
        out.push((k, v));
        proof {
            fields_model_props(out@);
            assert(fields_model(out@) =~= fields_insert(m, k@, v@));
        }
        out
    } else {
        let c = cmp_keys(k.as_str(), fs[0].0.as_str());
        match c {
            Ord3::Lt => {
                let mut out = fs;
                out.insert(0, (k, v));
                proof {
                    fields_model_props(out@);
                    assert(fields_model(out@) =~= m.insert(0, (k@, v@)));
                }
                out
            },
            Ord3::Eq => {
                let mut out = fs;
                let _old = out.remove(0);
                out.insert(0, (k, v));
                proof {
                    fields_model_props(out@);
                    assert(fields_model(out@) =~= m.update(0, (k@, v@)));
                }
                out
            },
            Ord3::Gt => {
                let mut rest = fs;
                let first = rest.remove(0);
                proof {
                    fields_model_props(rest@);
                    assert(fields_model(rest@) =~= m.drop_first());
                }
                let mut out = insert_field(rest, k, v);
                proof {
                    fields_model_props(out@);
                }
                out.insert(0, first);
                proof {
                    fields_model_props(out@);
                    let inner = fields_insert(m.drop_first(), k@, v@);
                    assert(fields_model(out@) =~= inner.insert(0, (first.0@, first.1@)));
                }
                out
            },
        }
    }
}

/// Looks up a key in a field list, returning a reference to its shape.
#[verifier::loop_isolation(false)]
pub fn get_field<'a>(fs: &'a Vec<(String, Value)>, k: &str) -> (r: Option<&'a Value>)
    ensures
        match r {
            Some(v) => fields_get(fields_model(fs@), k@) == Option::Some(v@),
            None => fields_get(fields_model(fs@), k@) is None,
        },
{
    proof {
        fields_model_props(fs@);
    }
    let ghost m = fields_model(fs@);
    let mut i: usize = 0;
    proof {
        assert(m.skip(0) =~= m);
    }
    while i < fs.len()
        invariant
            i <= fs.len(),
            fields_get(m, k@) == fields_get(m.skip(i as int), k@),
        decreases fs.len() - i,
    {
        proof {
            assert(m.skip(i as int)[0] == m[i as int]);
        }
        let c = cmp_keys(fs[i].0.as_str(), k);
        if matches!(c, Ord3::Eq) {
            proof {
                lemma_chars_cmp_eq(fs@[i as int].0@, k@);
            }
            return Some(&fs[i].1);
        }
        proof {
            if fs@[i as int].0@ == k@ {
                lemma_chars_cmp_refl(k@);
            }
            assert(m.skip(i as int).drop_first() =~= m.skip(i as int + 1));
        }
        i += 1;
    }
    proof {
        assert(m.skip(i as int).len() == 0);
    }
    None
}

/// Whether a sorted variant list contains the given shape tree.
#[verifier::loop_isolation(false)]
pub fn contains_value(vs: &Vec<Value>, x: &Value) -> (r: bool)
    ensures
        r == shapes_model(vs@).contains(x@),
{
    proof {
        shapes_model_props(vs@);
    }
    let ghost m = shapes_model(vs@);
    let mut i: usize = 0;
    while i < vs.len()
        invariant
            i <= vs.len(),
            forall|j: int| 0 <= j < i as int ==> m[j] != x@,
        decreases vs.len() - i,
    {
        if value_eq(&vs[i], x) {
            proof {
                assert(m[i as int] == x@);
            }
            return true;
        }
        i += 1;
    }
    proof {
        if m.contains(x@) {
            let j = choose|j: int| 0 <= j < m.len() && m[j] == x@;
            assert(false);
        }
    }
    false
}

} // verus!

verus! {

use crate::order::kind_code;
use crate::order::kind_idx;

/// Helper trait to identify when two shapes are similar but not necessarily
/// equal, meaning they only diverge in being optional.
pub trait Similar {
    /// Tests for `self` and `other` values to be similar (equal ignoring the
    /// optional), returning the optional version.
    fn similar(&self, other: &Self) -> Option<Value>;
}

/// Two shapes are similar when they are equal but for their own optional
/// flags; the widened (optional if either was) form is the witness.
pub open spec fn similar_s(a: Shape, b: Shape) -> Option<Shape> {
    if kind_idx(a) == kind_idx(b) && a.as_non_opt() == b.as_non_opt() {
        Option::Some(
            if a.opt() || b.opt() {
                a.as_opt()
            } else {
                a
            },
        )
    } else {
        Option::None
    }
}

impl Similar for Value {
    /// Tests for similarity, returning the widened shape when similar.
    fn similar(&self, other: &Self) -> (r: Option<Value>)
        ensures
            match r {
                Some(v) => similar_s(self@, other@) == Option::Some(v@),
                None => similar_s(self@, other@) is None,
            },
    {
        if kind_code(self) != kind_code(other) {
            return None;
        }
        let an = self.clone().as_non_optional();
        let bn = other.clone().as_non_optional();
        if crate::order::value_eq(&an, &bn) {
            if self.is_optional() || other.is_optional() {
                Some(self.clone().as_optional())
            } else {
                Some(self.clone())
            }
        } else {
            None
        }
    }
}

/// A key-sorted field list built from pairs in order; a repeated key's later
/// binding replaces the earlier one.
pub open spec fn fields_of_pairs(s: Seq<(Seq<char>, Shape)>) -> Seq<(Seq<char>, Shape)>
    decreases s.len(),
{
    if s.len() == 0 {
        Seq::empty()
    } else {
        fields_insert(fields_of_pairs(s.drop_last()), s.last().0, s.last().1)
    }
}

/// A sorted, deduplicated variant list built from shapes in order.
pub open spec fn variants_of(s: Seq<Shape>) -> Seq<Shape>
    decreases s.len(),
{
    if s.len() == 0 {
        Seq::empty()
    } else {
        insert_shape(variants_of(s.drop_last()), s.last())
    }
}

impl Value {
    /// Builds an object shape from keyed shapes: the canonical, key-sorted
    /// constructor; a repeated key's later binding replaces the earlier one.
    #[verifier::loop_isolation(false)]
    pub fn object(pairs: Vec<(String, Value)>, optional: bool) -> (r: Value)
        ensures
            r@ == (Shape::Object { content: fields_of_pairs(fields_model(pairs@)), optional }),
    {
        proof {
            fields_model_props(pairs@);
        }
        let ghost m = fields_model(pairs@);
        let mut out: Vec<(String, Value)> = Vec::new();
        let mut pairs = pairs;
        let mut i: usize = 0;
        proof {
            assert(fields_model(out@) =~= Seq::<(Seq<char>, Shape)>::empty());
            assert(m.take(0) =~= Seq::<(Seq<char>, Shape)>::empty());
        }
        while i < pairs.len()
            invariant
                i <= pairs@.len(),
                fields_model(out@) == fields_of_pairs(m.take(i as int)),
            decreases pairs@.len() - i,
        {
            let key = pairs[i].0.clone();
            let val = pairs[i].1.clone();
            out = insert_field(out, key, val);
            proof {
                assert(m.take(i as int + 1).drop_last() =~= m.take(i as int));
                assert(m.take(i as int + 1).last() == m[i as int]);
            }
            i += 1;
        }
        proof {
            assert(m.take(i as int) =~= m);
        }
        Value::Object { content: out, optional }
    }

    /// Builds a union shape from variants: the canonical, sorted and
    /// deduplicated constructor.
    #[verifier::loop_isolation(false)]
    pub fn one_of(variants: Vec<Value>, optional: bool) -> (r: Value)
        ensures
            r@ == (Shape::OneOf { variants: variants_of(shapes_model(variants@)), optional }),
    {
        proof {
            shapes_model_props(variants@);
        }
        let ghost m = shapes_model(variants@);
        let mut out: Vec<Value> = Vec::new();
        let mut vars = variants;
        let mut i: usize = 0;
        proof {
            assert(shapes_model(out@) =~= Seq::<Shape>::empty());
            assert(m.take(0) =~= Seq::<Shape>::empty());
        }
        while i < vars.len()
            invariant
                i <= vars@.len(),
                shapes_model(out@) == variants_of(m.take(i as int)),
            decreases vars@.len() - i,
        {
            let val = vars[i].clone();
            out = insert_value(out, val);
            proof {
                assert(m.take(i as int + 1).drop_last() =~= m.take(i as int));
                assert(m.take(i as int + 1).last() == m[i as int]);
            }
            i += 1;
        }
        proof {
            assert(m.take(i as int) =~= m);
        }
        Value::OneOf { variants: out, optional }
    }
}

} // verus!
