//! The total order over shapes.
//!
//! Object content and union variants are stored canonically sorted, so that
//! two shapes describing the same documents compare equal no matter in which
//! order they were inferred. The order is variant-kind-first, then recursive
//! over the payload.

use vstd::prelude::*;

use crate::value::{Shape, Value};

verus! {

/// Three-way comparison result of the shape order.
#[derive(Debug, Clone, Copy, PartialEq, Eq, Structural)]
pub enum Ord3 {
    /// The left operand is smaller.
    Lt,
    /// The operands are equal.
    Eq,
    /// The left operand is greater.
    Gt,
}

/// Rank of a shape's variant kind in the total order.
pub open spec fn kind_idx(s: Shape) -> int {
    match s {
        Shape::Null => 0,
        Shape::Bool { .. } => 1,
        Shape::Number { .. } => 2,
        Shape::Str { .. } => 3,
        Shape::Array { .. } => 4,
        Shape::Object { .. } => 5,
        Shape::OneOf { .. } => 6,
        Shape::Tuple { .. } => 7,
    }
}

/// Three-way comparison of booleans: `false` sorts before `true`.
pub open spec fn bool_cmp(a: bool, b: bool) -> int {
    if a == b {
        0
    } else if !a {
        -1
    } else {
        1
    }
}

/// Lexicographic three-way comparison of key strings, by character code.
pub open spec fn chars_cmp(a: Seq<char>, b: Seq<char>) -> int
    decreases a.len(),
{
    if a.len() == 0 && b.len() == 0 {
        0
    } else if a.len() == 0 {
        -1
    } else if b.len() == 0 {
        1
    } else if (a[0] as int) < (b[0] as int) {
        -1
    } else if (b[0] as int) < (a[0] as int) {
        1
    } else {
        chars_cmp(a.drop_first(), b.drop_first())
    }
}

/// Three-way comparison of shapes: variant kind first, then the payload,
/// recursively; an `optional` flag compares last, `false` before `true`.
pub open spec fn cmp(a: Shape, b: Shape) -> int
    decreases a, b,
{
    if kind_idx(a) < kind_idx(b) {
        -1
    } else if kind_idx(b) < kind_idx(a) {
        1
    } else {
        match (a, b) {
            (Shape::Null, Shape::Null) => 0,
            (Shape::Bool { optional: x }, Shape::Bool { optional: y }) => bool_cmp(x, y),
            (Shape::Number { optional: x }, Shape::Number { optional: y }) => bool_cmp(x, y),
            (Shape::Str { optional: x }, Shape::Str { optional: y }) => bool_cmp(x, y),
            (Shape::Array { element: e1, optional: x }, Shape::Array { element: e2, optional: y }) => {
                let c = cmp(*e1, *e2);
                if c != 0 {
                    c
                } else {
                    bool_cmp(x, y)
                }
            },
            (Shape::Object { content: c1, optional: x }, Shape::Object { content: c2, optional: y }) => {
                let c = cmp_fields(c1, c2);
                if c != 0 {
                    c
                } else {
                    bool_cmp(x, y)
                }
            },
            (Shape::OneOf { variants: v1, optional: x }, Shape::OneOf { variants: v2, optional: y }) => {
                let c = cmp_seq(v1, v2);
                if c != 0 {
                    c
                } else {
                    bool_cmp(x, y)
                }
            },
            (Shape::Tuple { elements: e1, optional: x }, Shape::Tuple { elements: e2, optional: y }) => {
                let c = cmp_seq(e1, e2);
                if c != 0 {
                    c
                } else {
                    bool_cmp(x, y)
                }
            },
            _ => 0,
        }
    }
}

/// Lexicographic three-way comparison of shape sequences.
pub open spec fn cmp_seq(a: Seq<Shape>, b: Seq<Shape>) -> int
    decreases a, b,
{
    if a.len() == 0 && b.len() == 0 {
        0
    } else if a.len() == 0 {
        -1
    } else if b.len() == 0 {
        1
    } else {
        let c = cmp(a[0], b[0]);
        if c != 0 {
            c
        } else {
            cmp_seq(a.drop_first(), b.drop_first())
        }
    }
}

/// Lexicographic three-way comparison of object field sequences:
/// each entry by key first, then by value shape.
pub open spec fn cmp_fields(a: Seq<(Seq<char>, Shape)>, b: Seq<(Seq<char>, Shape)>) -> int
    decreases a, b,
{
    if a.len() == 0 && b.len() == 0 {
        0
    } else if a.len() == 0 {
        -1
    } else if b.len() == 0 {
        1
    } else {
        let ck = chars_cmp(a[0].0, b[0].0);
        if ck != 0 {
            ck
        } else {
            let c = cmp(a[0].1, b[0].1);
            if c != 0 {
                c
            } else {
                cmp_fields(a.drop_first(), b.drop_first())
            }
        }
    }
}

} // verus!

verus! {

/// All shapes in a sequence are well formed.
pub open spec fn wf_all(s: Seq<Shape>) -> bool
    decreases s,
{
    if s.len() == 0 {
        true
    } else {
        proof {
            assert(decreases_to!(s => s[0]));
        }
        wf(s[0]) && wf_all(s.drop_first())
    }
}

/// All field values in a sequence are well formed.
pub open spec fn wf_fields_all(s: Seq<(Seq<char>, Shape)>) -> bool
    decreases s,
{
    if s.len() == 0 {
        true
    } else {
        proof {
            assert(decreases_to!(s => s[0]));
        }
        wf(s[0].1) && wf_fields_all(s.drop_first())
    }
}

/// Union variants are strictly ascending in the shape order (so also unique).
pub open spec fn sorted_variants(s: Seq<Shape>) -> bool {
    forall|i: int, j: int| 0 <= i < j < s.len() ==> cmp(s[i], s[j]) < 0
}

/// Object fields are strictly ascending by key (so keys are unique).
pub open spec fn sorted_keys(s: Seq<(Seq<char>, Shape)>) -> bool {
    forall|i: int, j: int| 0 <= i < j < s.len() ==> chars_cmp(s[i].0, s[j].0) < 0
}

/// Well-formedness of a shape: every object's fields are sorted by key with
/// unique keys, every union's variants are sorted and deduplicated, and the
/// same holds recursively in the whole tree.
pub open spec fn wf(s: Shape) -> bool
    decreases s,
{
    match s {
        Shape::Null => true,
        Shape::Bool { .. } => true,
        Shape::Number { .. } => true,
        Shape::Str { .. } => true,
        Shape::Array { element, .. } => wf(*element),
        Shape::Object { content, .. } => wf_fields_all(content) && sorted_keys(content),
        Shape::OneOf { variants, .. } => wf_all(variants) && sorted_variants(variants),
        Shape::Tuple { elements, .. } => wf_all(elements),
    }
}

/// `wf_all` holds exactly when each element is well formed.
pub broadcast proof fn wf_all_props(s: Seq<Shape>)
    ensures
        #[trigger] wf_all(s) <==> (forall|i: int| 0 <= i < s.len() ==> wf(s[i])),
    decreases s.len(),
{
    if s.len() > 0 {
        wf_all_props(s.drop_first());
        assert forall|i: int| 1 <= i < s.len() implies s[i] == s.drop_first()[i - 1] by {}
        assert(wf_all(s) <==> (forall|i: int| 0 <= i < s.len() ==> wf(s[i]))) by {
            if forall|i: int| 0 <= i < s.drop_first().len() ==> wf(s.drop_first()[i]) {
                assert forall|i: int| 0 <= i < s.len() && i >= 1 implies wf(s[i]) by {
                    assert(wf(s.drop_first()[i - 1]));
                }
            }
        }
    }
}

/// `wf_fields_all` holds exactly when each field value is well formed.
pub broadcast proof fn wf_fields_all_props(s: Seq<(Seq<char>, Shape)>)
    ensures
        #[trigger] wf_fields_all(s) <==> (forall|i: int| 0 <= i < s.len() ==> wf(s[i].1)),
    decreases s.len(),
{
    if s.len() > 0 {
        wf_fields_all_props(s.drop_first());
        assert forall|i: int| 1 <= i < s.len() implies s[i] == s.drop_first()[i - 1] by {}
        assert(wf_fields_all(s) <==> (forall|i: int| 0 <= i < s.len() ==> wf(s[i].1))) by {
            if forall|i: int| 0 <= i < s.drop_first().len() ==> wf(s.drop_first()[i].1) {
                assert forall|i: int| 0 <= i < s.len() && i >= 1 implies wf(s[i].1) by {
                    assert(wf(s.drop_first()[i - 1].1));
                }
            }
        }
    }
}

/// The character order is reflexive.
pub proof fn lemma_chars_cmp_refl(a: Seq<char>)
    ensures
        chars_cmp(a, a) == 0,
    decreases a.len(),
{
    if a.len() > 0 {
        lemma_chars_cmp_refl(a.drop_first());
    }
}

/// Key strings that compare equal are equal.
pub proof fn lemma_chars_cmp_eq(a: Seq<char>, b: Seq<char>)
    requires
        chars_cmp(a, b) == 0,
    ensures
        a == b,
    decreases a.len(),
{
    if a.len() > 0 && b.len() > 0 {
        lemma_chars_cmp_eq(a.drop_first(), b.drop_first());
        assert(a[0] == b[0]);
        assert(a.drop_first().len() == b.drop_first().len());
        assert(a.len() == b.len());
        assert forall|i: int| 0 <= i < a.len() implies a[i] == b[i] by {
            if i > 0 {
                assert(a[i] == a.drop_first()[i - 1]);
                assert(b[i] == b.drop_first()[i - 1]);
            }
        }
        assert(a =~= b);
    } else {
        assert(a =~= b);
    }
}

/// Swapping the operands of the character order flips its sign.
pub proof fn lemma_chars_cmp_antisym(a: Seq<char>, b: Seq<char>)
    ensures
        chars_cmp(b, a) == -chars_cmp(a, b),
    decreases a.len(),
{
    if a.len() > 0 && b.len() > 0 {
        lemma_chars_cmp_antisym(a.drop_first(), b.drop_first());
    }
}

/// The character order is transitive.
pub proof fn lemma_chars_cmp_trans(a: Seq<char>, b: Seq<char>, c: Seq<char>)
    requires
        chars_cmp(a, b) <= 0,
        chars_cmp(b, c) <= 0,
    ensures
        chars_cmp(a, c) <= 0,
        chars_cmp(a, b) < 0 || chars_cmp(b, c) < 0 ==> chars_cmp(a, c) < 0,
    decreases a.len() + b.len() + c.len(),
{
    if chars_cmp(a, b) == 0 {
        lemma_chars_cmp_eq(a, b);
    } else if chars_cmp(b, c) == 0 {
        lemma_chars_cmp_eq(b, c);
    } else if a.len() > 0 && b.len() > 0 && c.len() > 0 {
        if (a[0] as int) == (b[0] as int) && (b[0] as int) == (c[0] as int) {
            lemma_chars_cmp_trans(a.drop_first(), b.drop_first(), c.drop_first());
        }
    }
}

/// The shape order is reflexive.
pub proof fn lemma_cmp_refl(a: Shape)
    ensures
        cmp(a, a) == 0,
    decreases a,
{
    match a {
        Shape::Array { element, .. } => {
            lemma_cmp_refl(*element);
        },
        Shape::Object { content, .. } => {
            lemma_cmp_fields_refl(content);
        },
        Shape::OneOf { variants, .. } => {
            lemma_cmp_seq_refl(variants);
        },
        Shape::Tuple { elements, .. } => {
            lemma_cmp_seq_refl(elements);
        },
        _ => {},
    }
}

/// The shape-sequence order is reflexive.
pub proof fn lemma_cmp_seq_refl(s: Seq<Shape>)
    ensures
        cmp_seq(s, s) == 0,
    decreases s,
{
    if s.len() > 0 {
                    assert(decreases_to!(s => s[0]));

        lemma_cmp_refl(s[0]);
        lemma_cmp_seq_refl(s.drop_first());
    }
}

/// The field-sequence order is reflexive.
pub proof fn lemma_cmp_fields_refl(s: Seq<(Seq<char>, Shape)>)
    ensures
        cmp_fields(s, s) == 0,
    decreases s,
{
    if s.len() > 0 {
                    assert(decreases_to!(s => s[0]));

        lemma_chars_cmp_refl(s[0].0);
        lemma_cmp_refl(s[0].1);
        lemma_cmp_fields_refl(s.drop_first());
    }
}

/// Shapes that compare equal are equal.
pub proof fn lemma_cmp_eq(a: Shape, b: Shape)
    requires
        cmp(a, b) == 0,
    ensures
        a == b,
    decreases a, b,
{
    match (a, b) {
        (Shape::Array { element: e1, optional: x }, Shape::Array { element: e2, optional: y }) => {
            lemma_cmp_eq(*e1, *e2);
        },
        (
            Shape::Object { content: c1, optional: x },
            Shape::Object { content: c2, optional: y },
        ) => {
                            assert(decreases_to!(a => a->Object_content));
                assert(decreases_to!(b => b->Object_content));

            lemma_cmp_fields_eq(c1, c2);
        },
        (
            Shape::OneOf { variants: v1, optional: x },
            Shape::OneOf { variants: v2, optional: y },
        ) => {
                            assert(decreases_to!(a => a->OneOf_variants));
                assert(decreases_to!(b => b->OneOf_variants));

            lemma_cmp_seq_eq(v1, v2);
        },
        (
            Shape::Tuple { elements: e1, optional: x },
            Shape::Tuple { elements: e2, optional: y },
        ) => {
                            assert(decreases_to!(a => a->Tuple_elements));
                assert(decreases_to!(b => b->Tuple_elements));

            lemma_cmp_seq_eq(e1, e2);
        },
        _ => {},
    }
}

/// Shape sequences that compare equal are equal.
pub proof fn lemma_cmp_seq_eq(s1: Seq<Shape>, s2: Seq<Shape>)
    requires
        cmp_seq(s1, s2) == 0,
    ensures
        s1 == s2,
    decreases s1, s2,
{
    if s1.len() > 0 && s2.len() > 0 {
                    assert(decreases_to!(s1 => s1[0]));

        lemma_cmp_eq(s1[0], s2[0]);
        lemma_cmp_seq_eq(s1.drop_first(), s2.drop_first());
        assert(s1.drop_first().len() == s2.drop_first().len());
        assert(s1.len() == s2.len());
        assert forall|i: int| 0 <= i < s1.len() implies s1[i] == s2[i] by {
            if i > 0 {
                assert(s1[i] == s1.drop_first()[i - 1]);
                assert(s2[i] == s2.drop_first()[i - 1]);
            }
        }
        assert(s1 =~= s2);
    } else {
        assert(s1 =~= s2);
    }
}

/// Field sequences that compare equal are equal.
pub proof fn lemma_cmp_fields_eq(s1: Seq<(Seq<char>, Shape)>, s2: Seq<(Seq<char>, Shape)>)
    requires
        cmp_fields(s1, s2) == 0,
    ensures
        s1 == s2,
    decreases s1, s2,
{
    if s1.len() > 0 && s2.len() > 0 {
                    assert(decreases_to!(s1 => s1[0]));

        lemma_chars_cmp_eq(s1[0].0, s2[0].0);
        lemma_cmp_eq(s1[0].1, s2[0].1);
        lemma_cmp_fields_eq(s1.drop_first(), s2.drop_first());
        assert(s1[0] == s2[0]);
        assert(s1.drop_first().len() == s2.drop_first().len());
        assert(s1.len() == s2.len());
        assert forall|i: int| 0 <= i < s1.len() implies s1[i] == s2[i] by {
            if i > 0 {
                assert(s1[i] == s1.drop_first()[i - 1]);
                assert(s2[i] == s2.drop_first()[i - 1]);
            }
        }
        assert(s1 =~= s2);
    } else {
        assert(s1 =~= s2);
    }
}

/// Swapping the operands of the shape order flips its sign.
pub proof fn lemma_cmp_antisym(a: Shape, b: Shape)
    ensures
        cmp(b, a) == -cmp(a, b),
    decreases a, b,
{
    match (a, b) {
        (Shape::Array { element: e1, .. }, Shape::Array { element: e2, .. }) => {
            lemma_cmp_antisym(*e1, *e2);
        },
        (Shape::Object { content: c1, .. }, Shape::Object { content: c2, .. }) => {
                            assert(decreases_to!(a => a->Object_content));
                assert(decreases_to!(b => b->Object_content));

            lemma_cmp_fields_antisym(c1, c2);
        },
        (Shape::OneOf { variants: v1, .. }, Shape::OneOf { variants: v2, .. }) => {
                            assert(decreases_to!(a => a->OneOf_variants));
                assert(decreases_to!(b => b->OneOf_variants));

            lemma_cmp_seq_antisym(v1, v2);
        },
        (Shape::Tuple { elements: e1, .. }, Shape::Tuple { elements: e2, .. }) => {
                            assert(decreases_to!(a => a->Tuple_elements));
                assert(decreases_to!(b => b->Tuple_elements));

            lemma_cmp_seq_antisym(e1, e2);
        },
        _ => {},
    }
}

/// Swapping the operands of the shape-sequence order flips its sign.
pub proof fn lemma_cmp_seq_antisym(s1: Seq<Shape>, s2: Seq<Shape>)
    ensures
        cmp_seq(s2, s1) == -cmp_seq(s1, s2),
    decreases s1, s2,
{
    if s1.len() > 0 && s2.len() > 0 {
                    assert(decreases_to!(s1 => s1[0]));

        lemma_cmp_antisym(s1[0], s2[0]);
        lemma_cmp_seq_antisym(s1.drop_first(), s2.drop_first());
    }
}

/// Swapping the operands of the field-sequence order flips its sign.
pub proof fn lemma_cmp_fields_antisym(s1: Seq<(Seq<char>, Shape)>, s2: Seq<(Seq<char>, Shape)>)
    ensures
        cmp_fields(s2, s1) == -cmp_fields(s1, s2),
    decreases s1, s2,
{
    if s1.len() > 0 && s2.len() > 0 {
                    assert(decreases_to!(s1 => s1[0]));

        lemma_chars_cmp_antisym(s1[0].0, s2[0].0);
        lemma_cmp_antisym(s1[0].1, s2[0].1);
        lemma_cmp_fields_antisym(s1.drop_first(), s2.drop_first());
    }
}

/// The shape order is transitive.
pub proof fn lemma_cmp_trans(a: Shape, b: Shape, c: Shape)
    requires
        cmp(a, b) <= 0,
        cmp(b, c) <= 0,
    ensures
        cmp(a, c) <= 0,
        cmp(a, b) < 0 || cmp(b, c) < 0 ==> cmp(a, c) < 0,
    decreases a, b, c,
{
    if cmp(a, b) == 0 {
        lemma_cmp_eq(a, b);
    } else if cmp(b, c) == 0 {
        lemma_cmp_eq(b, c);
    } else {
        match (a, b, c) {
            (
                Shape::Array { element: e1, .. },
                Shape::Array { element: e2, .. },
                Shape::Array { element: e3, .. },
            ) => {
                if cmp(*e1, *e2) == 0 {
                    lemma_cmp_eq(*e1, *e2);
                }
                if cmp(*e2, *e3) == 0 {
                    lemma_cmp_eq(*e2, *e3);
                }
                if cmp(*e1, *e2) < 0 && cmp(*e2, *e3) < 0 {
                    lemma_cmp_trans(*e1, *e2, *e3);
                }
            },
            (
                Shape::Object { content: c1, .. },
                Shape::Object { content: c2, .. },
                Shape::Object { content: c3, .. },
            ) => {
                                    assert(decreases_to!(a => a->Object_content));
                    assert(decreases_to!(b => b->Object_content));
                    assert(decreases_to!(c => c->Object_content));

                if cmp_fields(c1, c2) == 0 {
                    lemma_cmp_fields_eq(c1, c2);
                }
                if cmp_fields(c2, c3) == 0 {
                    lemma_cmp_fields_eq(c2, c3);
                }
                if cmp_fields(c1, c2) < 0 && cmp_fields(c2, c3) < 0 {
                    lemma_cmp_fields_trans(c1, c2, c3);
                }
            },
            (
                Shape::OneOf { variants: v1, .. },
                Shape::OneOf { variants: v2, .. },
                Shape::OneOf { variants: v3, .. },
            ) => {
                                    assert(decreases_to!(a => a->OneOf_variants));
                    assert(decreases_to!(b => b->OneOf_variants));
                    assert(decreases_to!(c => c->OneOf_variants));

                if cmp_seq(v1, v2) == 0 {
                    lemma_cmp_seq_eq(v1, v2);
                }
                if cmp_seq(v2, v3) == 0 {
                    lemma_cmp_seq_eq(v2, v3);
                }
                if cmp_seq(v1, v2) < 0 && cmp_seq(v2, v3) < 0 {
                    lemma_cmp_seq_trans(v1, v2, v3);
                }
            },
            (
                Shape::Tuple { elements: e1, .. },
                Shape::Tuple { elements: e2, .. },
                Shape::Tuple { elements: e3, .. },
            ) => {
                                    assert(decreases_to!(a => a->Tuple_elements));
                    assert(decreases_to!(b => b->Tuple_elements));
                    assert(decreases_to!(c => c->Tuple_elements));

                if cmp_seq(e1, e2) == 0 {
                    lemma_cmp_seq_eq(e1, e2);
                }
                if cmp_seq(e2, e3) == 0 {
                    lemma_cmp_seq_eq(e2, e3);
                }
                if cmp_seq(e1, e2) < 0 && cmp_seq(e2, e3) < 0 {
                    lemma_cmp_seq_trans(e1, e2, e3);
                }
            },
            _ => {},
        }
    }
}

/// Shape-sequence transitivity.
pub proof fn lemma_cmp_seq_trans(s1: Seq<Shape>, s2: Seq<Shape>, s3: Seq<Shape>)
    requires
        cmp_seq(s1, s2) <= 0,
        cmp_seq(s2, s3) <= 0,
    ensures
        cmp_seq(s1, s3) <= 0,
        cmp_seq(s1, s2) < 0 || cmp_seq(s2, s3) < 0 ==> cmp_seq(s1, s3) < 0,
    decreases s1, s2, s3,
{
    if cmp_seq(s1, s2) == 0 {
        lemma_cmp_seq_eq(s1, s2);
    } else if cmp_seq(s2, s3) == 0 {
        lemma_cmp_seq_eq(s2, s3);
    } else if s1.len() > 0 && s2.len() > 0 && s3.len() > 0 {
        assert(decreases_to!(s1 => s1[0]));
        let c12 = cmp(s1[0], s2[0]);
        let c23 = cmp(s2[0], s3[0]);
        if c12 == 0 {
            lemma_cmp_eq(s1[0], s2[0]);
        }
        if c23 == 0 {
            lemma_cmp_eq(s2[0], s3[0]);
        }
        if c12 == 0 && c23 == 0 {
            lemma_cmp_seq_trans(s1.drop_first(), s2.drop_first(), s3.drop_first());
        } else if c12 < 0 && c23 < 0 {
            lemma_cmp_trans(s1[0], s2[0], s3[0]);
        }
    }
}

/// Field-sequence transitivity.
pub proof fn lemma_cmp_fields_trans(
    s1: Seq<(Seq<char>, Shape)>,
    s2: Seq<(Seq<char>, Shape)>,
    s3: Seq<(Seq<char>, Shape)>,
)
    requires
        cmp_fields(s1, s2) <= 0,
        cmp_fields(s2, s3) <= 0,
    ensures
        cmp_fields(s1, s3) <= 0,
        cmp_fields(s1, s2) < 0 || cmp_fields(s2, s3) < 0 ==> cmp_fields(s1, s3) < 0,
    decreases s1, s2, s3,
{
    if cmp_fields(s1, s2) == 0 {
        lemma_cmp_fields_eq(s1, s2);
    } else if cmp_fields(s2, s3) == 0 {
        lemma_cmp_fields_eq(s2, s3);
    } else if s1.len() > 0 && s2.len() > 0 && s3.len() > 0 {
        assert(decreases_to!(s1 => s1[0]));
        let k12 = chars_cmp(s1[0].0, s2[0].0);
        let k23 = chars_cmp(s2[0].0, s3[0].0);
        if k12 <= 0 && k23 <= 0 {
            lemma_chars_cmp_trans(s1[0].0, s2[0].0, s3[0].0);
        }
        if k12 == 0 {
            lemma_chars_cmp_eq(s1[0].0, s2[0].0);
        }
        if k23 == 0 {
            lemma_chars_cmp_eq(s2[0].0, s3[0].0);
        }
        if k12 == 0 && k23 == 0 {
            let c12 = cmp(s1[0].1, s2[0].1);
            let c23 = cmp(s2[0].1, s3[0].1);
            if c12 == 0 {
                lemma_cmp_eq(s1[0].1, s2[0].1);
            }
            if c23 == 0 {
                lemma_cmp_eq(s2[0].1, s3[0].1);
            }
            if c12 == 0 && c23 == 0 {
                lemma_cmp_fields_trans(s1.drop_first(), s2.drop_first(), s3.drop_first());
            } else if c12 < 0 && c23 < 0 {
                lemma_cmp_trans(s1[0].1, s2[0].1, s3[0].1);
            }
        }
    }
}

} // verus!

verus! {

use vstd::string::StrSliceExecFns;

use crate::value::{fields_model, fields_model_props, shapes_model, shapes_model_props};

/// Compares two key strings in the canonical key order.
///
/// The result is the sign of [`chars_cmp`] on the views.
#[verifier::loop_isolation(false)]
pub fn cmp_keys(a: &str, b: &str) -> (r: Ord3)
    ensures
        r is Lt <==> chars_cmp(a@, b@) < 0,
        r is Eq <==> chars_cmp(a@, b@) == 0,
        r is Gt <==> chars_cmp(a@, b@) > 0,
{
    let la = a.unicode_len();
    let lb = b.unicode_len();
    let mut i: usize = 0;
    proof {
        assert(a@.skip(0) =~= a@);
        assert(b@.skip(0) =~= b@);
    }
    while i < la && i < lb
        invariant
            i <= la,
            i <= lb,
            chars_cmp(a@, b@) == chars_cmp(a@.skip(i as int), b@.skip(i as int)),
        decreases la - i,
    {
        let ca = a.get_char(i);
        let cb = b.get_char(i);
        proof {
            assert(a@.skip(i as int)[0] == a@[i as int]);
            assert(b@.skip(i as int)[0] == b@[i as int]);
        }
        if (ca as u32) < (cb as u32) {
            return Ord3::Lt;
        }
        if (cb as u32) < (ca as u32) {
            return Ord3::Gt;
        }
        proof {
            assert(a@.skip(i as int).drop_first() =~= a@.skip(i as int + 1));
            assert(b@.skip(i as int).drop_first() =~= b@.skip(i as int + 1));
        }
        i += 1;
    }
    proof {
        assert(a@.skip(i as int).len() == a@.len() - i);
        assert(b@.skip(i as int).len() == b@.len() - i);
    }
    if la == lb {
        Ord3::Eq
    } else if la < lb {
        Ord3::Lt
    } else {
        Ord3::Gt
    }
}

/// Compares two shape trees in the canonical shape order.
///
/// The result is the sign of [`cmp`] on the views.
#[verifier::loop_isolation(false)]
pub fn cmp_values(a: &Value, b: &Value) -> (r: Ord3)
    ensures
        r is Lt <==> cmp(a@, b@) < 0,
        r is Eq <==> cmp(a@, b@) == 0,
        r is Gt <==> cmp(a@, b@) > 0,
    decreases *a, *b,
{
    match (a, b) {
        (Value::Null, Value::Null) => Ord3::Eq,
        (Value::Bool { optional: x }, Value::Bool { optional: y }) => cmp_bools(*x, *y),
        (Value::Number { optional: x }, Value::Number { optional: y }) => cmp_bools(*x, *y),
        (Value::String { optional: x }, Value::String { optional: y }) => cmp_bools(*x, *y),
        (
            Value::Array { element: e1, optional: x },
            Value::Array { element: e2, optional: y },
        ) => {
            let c = cmp_values(e1, e2);
            if matches!(c, Ord3::Eq) {
                cmp_bools(*x, *y)
            } else {
                c
            }
        },
        (
            Value::Object { content: c1, optional: x },
            Value::Object { content: c2, optional: y },
        ) => {
            proof {
                let ca = (*a)->Object_content;
                let cb = (*b)->Object_content;
                assert(decreases_to!(*a => ca));
                assert(decreases_to!(*b => cb));
                assert(decreases_to!(ca => ca@));
                assert(decreases_to!(cb => cb@));
            }
            let c = cmp_field_vecs(c1, c2);
            if matches!(c, Ord3::Eq) {
                cmp_bools(*x, *y)
            } else {
                c
            }
        },
        (
            Value::OneOf { variants: v1, optional: x },
            Value::OneOf { variants: v2, optional: y },
        ) => {
            proof {
                let ca = (*a)->OneOf_variants;
                let cb = (*b)->OneOf_variants;
                assert(decreases_to!(*a => ca));
                assert(decreases_to!(*b => cb));
                assert(decreases_to!(ca => ca@));
                assert(decreases_to!(cb => cb@));
            }
            let c = cmp_value_vecs(v1, v2);
            if matches!(c, Ord3::Eq) {
                cmp_bools(*x, *y)
            } else {
                c
            }
        },
        (
            Value::Tuple { elements: e1, optional: x },
            Value::Tuple { elements: e2, optional: y },
        ) => {
            proof {
                let ca = (*a)->Tuple_elements;
                let cb = (*b)->Tuple_elements;
                assert(decreases_to!(*a => ca));
                assert(decreases_to!(*b => cb));
                assert(decreases_to!(ca => ca@));
                assert(decreases_to!(cb => cb@));
            }
            let c = cmp_value_vecs(e1, e2);
            if matches!(c, Ord3::Eq) {
                cmp_bools(*x, *y)
            } else {
                c
            }
        },
        _ => {
            let ka = kind_code(a);
            let kb = kind_code(b);
            if ka < kb {
                Ord3::Lt
            } else {
                Ord3::Gt
            }
        },
    }
}

/// Compares two optional flags: `false` sorts before `true`.
fn cmp_bools(x: bool, y: bool) -> (r: Ord3)
    ensures
        r is Lt <==> bool_cmp(x, y) < 0,
        r is Eq <==> bool_cmp(x, y) == 0,
        r is Gt <==> bool_cmp(x, y) > 0,
{
    if x == y {
        Ord3::Eq
    } else if !x {
        Ord3::Lt
    } else {
        Ord3::Gt
    }
}

/// Rank of the executable shape's variant kind; matches [`kind_idx`].
pub fn kind_code(v: &Value) -> (r: u8)
    ensures
        r as int == kind_idx(v@),
{
    match v {
        Value::Null => 0,
        Value::Bool { .. } => 1,
        Value::Number { .. } => 2,
        Value::String { .. } => 3,
        Value::Array { .. } => 4,
        Value::Object { .. } => 5,
        Value::OneOf { .. } => 6,
        Value::Tuple { .. } => 7,
    }
}

/// Compares two shape lists lexicographically; the sign of [`cmp_seq`].
#[verifier::loop_isolation(false)]
fn cmp_value_vecs(a: &Vec<Value>, b: &Vec<Value>) -> (r: Ord3)
    ensures
        r is Lt <==> cmp_seq(shapes_model(a@), shapes_model(b@)) < 0,
        r is Eq <==> cmp_seq(shapes_model(a@), shapes_model(b@)) == 0,
        r is Gt <==> cmp_seq(shapes_model(a@), shapes_model(b@)) > 0,
    decreases *a, *b,
{
    proof {
        shapes_model_props(a@);
        shapes_model_props(b@);
    }
    let ghost ma = shapes_model(a@);
    let ghost mb = shapes_model(b@);
    let mut i: usize = 0;
    proof {
        assert(ma.skip(0) =~= ma);
        assert(mb.skip(0) =~= mb);
    }
    while i < a.len() && i < b.len()
        invariant
            i <= a.len(),
            i <= b.len(),
            cmp_seq(ma, mb) == cmp_seq(ma.skip(i as int), mb.skip(i as int)),
        decreases a.len() - i,
    {
        proof {
            assert(decreases_to!(*a => a@));
            assert(decreases_to!(a@ => a@[i as int]));
            assert(ma.skip(i as int)[0] == ma[i as int]);
            assert(mb.skip(i as int)[0] == mb[i as int]);
        }
        let c = cmp_values(&a[i], &b[i]);
        if !matches!(c, Ord3::Eq) {
            return c;
        }
        proof {
            assert(ma.skip(i as int).drop_first() =~= ma.skip(i as int + 1));
            assert(mb.skip(i as int).drop_first() =~= mb.skip(i as int + 1));
        }
        i += 1;
    }
    proof {
        assert(ma.skip(i as int).len() == ma.len() - i);
        assert(mb.skip(i as int).len() == mb.len() - i);
    }
    if a.len() == b.len() {
        Ord3::Eq
    } else if a.len() < b.len() {
        Ord3::Lt
    } else {
        Ord3::Gt
    }
}

/// Compares two field lists lexicographically; the sign of [`cmp_fields`].
#[verifier::loop_isolation(false)]
fn cmp_field_vecs(a: &Vec<(String, Value)>, b: &Vec<(String, Value)>) -> (r: Ord3)
    ensures
        r is Lt <==> cmp_fields(fields_model(a@), fields_model(b@)) < 0,
        r is Eq <==> cmp_fields(fields_model(a@), fields_model(b@)) == 0,
        r is Gt <==> cmp_fields(fields_model(a@), fields_model(b@)) > 0,
    decreases *a, *b,
{
    proof {
        fields_model_props(a@);
        fields_model_props(b@);
    }
    let ghost ma = fields_model(a@);
    let ghost mb = fields_model(b@);
    let mut i: usize = 0;
    proof {
        assert(ma.skip(0) =~= ma);
        assert(mb.skip(0) =~= mb);
    }
    while i < a.len() && i < b.len()
        invariant
            i <= a.len(),
            i <= b.len(),
            cmp_fields(ma, mb) == cmp_fields(ma.skip(i as int), mb.skip(i as int)),
        decreases a.len() - i,
    {
        proof {
            assert(ma.skip(i as int)[0] == ma[i as int]);
            assert(mb.skip(i as int)[0] == mb[i as int]);
        }
        let ck = cmp_keys(a[i].0.as_str(), b[i].0.as_str());
        if !matches!(ck, Ord3::Eq) {
            return ck;
        }
        proof {
            assert(decreases_to!(*a => a@));
            assert(decreases_to!(a@ => a@[i as int]));
            assert(decreases_to!(a@[i as int] => a@[i as int].1));
        }
        let c = cmp_values(&a[i].1, &b[i].1);
        if !matches!(c, Ord3::Eq) {
            return c;
        }
        proof {
            assert(ma.skip(i as int).drop_first() =~= ma.skip(i as int + 1));
            assert(mb.skip(i as int).drop_first() =~= mb.skip(i as int + 1));
        }
        i += 1;
    }
    proof {
        assert(ma.skip(i as int).len() == ma.len() - i);
        assert(mb.skip(i as int).len() == mb.len() - i);
    }
    if a.len() == b.len() {
        Ord3::Eq
    } else if a.len() < b.len() {
        Ord3::Lt
    } else {
        Ord3::Gt
    }
}

/// Structural equality of shapes: two trees are equal exactly when their
/// models are equal.
pub fn value_eq(a: &Value, b: &Value) -> (r: bool)
    ensures
        r == (a@ == b@),
{
    let c = cmp_values(a, b);
    proof {
        if cmp(a@, b@) == 0 {
            lemma_cmp_eq(a@, b@);
        }
        if a@ == b@ {
            lemma_cmp_refl(a@);
        }
    }
    matches!(c, Ord3::Eq)
}

} // verus!
