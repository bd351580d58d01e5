//! Structural shape inference for JSON documents.
//!
//! A [`Value`] (also exported as [`JsonShape`]) describes the structural type
//! of a set of JSON documents. Shapes are inferred from source text or from an
//! already materialized JSON tree, merged into the most general shape that
//! accepts the union of the samples, and compared with a structural subset
//! check.

pub mod canon;
pub mod error;
pub mod infer;
pub mod laws;
pub mod lexer;
pub mod merge;
pub mod order;
pub mod parser;
pub mod render;
pub mod shape;
pub mod subset;
pub mod subtypes;
pub mod value;

pub use canon::Similar;
pub use infer::JsonValue;
pub use infer::JsonVisitor;
pub use subset::IsSubset;
pub use value::Value;
pub use value::Value as JsonShape;

use vstd::prelude::*;
use vstd::string::StringSliceAdditionalSpecFns;

use crate::error::{err_model, result_model, ErrModel, Error};
use crate::lexer::lex_s;
use crate::merge::{lemma_merge_s_wf, merge, merge_s};
use crate::order::wf;
use crate::parser::{parse_s, Parser};
use crate::shape::{parse_cst, walk_cst};
use crate::subset::{subset_check, subset_of};
use crate::value::{shapes_model, shapes_model_props, Shape};

verus! {

/// The shape inferred from one JSON source text, or its error: the walk of
/// the parse of the text's lexemes — a function of the text alone.
pub open spec fn text_result(source: &str) -> Result<Shape, ErrModel> {
    walk_cst(
        parse_s(lex_s(source@, 0, 0, 0), source@.len() as int, source.spec_bytes().len() as int),
        source@,
    )
}

/// The per-source inferred shapes of a list of texts, in order; the first
/// failing text's error wins.
pub open spec fn texts_shapes(ss: Seq<&str>) -> Result<Seq<Shape>, ErrModel>
    decreases ss.len(),
{
    if ss.len() == 0 {
        Result::Ok(Seq::empty())
    } else {
        match text_result(ss[0]) {
            Result::Ok(v) => match texts_shapes(ss.drop_first()) {
                Result::Ok(rest) => Result::Ok(rest.insert(0, v)),
                Result::Err(e) => Result::Err(e),
            },
            Result::Err(e) => Result::Err(e),
        }
    }
}

/// One step of the per-source fold: pulling an inferred shape out of the
/// suffix and appending it to the prefix keeps the decomposition.
proof fn lemma_texts_step(ss: Seq<&str>, i: int, before: Seq<Shape>, sh: Shape)
    requires
        0 <= i < ss.len(),
        text_result(ss[i]) == Result::<Shape, ErrModel>::Ok(sh),
        texts_shapes(ss) == (match texts_shapes(ss.skip(i)) {
            Result::Ok(rest) => Result::<Seq<Shape>, ErrModel>::Ok(before + rest),
            Result::Err(e) => Result::<Seq<Shape>, ErrModel>::Err(e),
        }),
    ensures
        texts_shapes(ss) == (match texts_shapes(ss.skip(i + 1)) {
            Result::Ok(rest) => Result::<Seq<Shape>, ErrModel>::Ok(before.push(sh) + rest),
            Result::Err(e) => Result::<Seq<Shape>, ErrModel>::Err(e),
        }),
{
    let tail = ss.skip(i);
    assert(tail[0] == ss[i]);
    assert(tail.drop_first() =~= ss.skip(i + 1));
    match texts_shapes(ss.skip(i + 1)) {
        Result::Ok(rest) => {
            assert(texts_shapes(tail) == Result::<Seq<Shape>, ErrModel>::Ok(rest.insert(0, sh)));
            assert(before + rest.insert(0, sh) =~= before.push(sh) + rest);
        },
        Result::Err(_) => {},
    }
}

impl Value {
    /// Creates a shape from a single JSON source text: the walk of the
    /// parser's syntax tree. Tokenization, parsing, validation, scalar
    /// classification, the array policy and every error are fixed by
    /// [`text_result`], a function of the text alone.
    ///
    /// Returns `Err` when the source is not a single valid JSON document.
    pub fn from_str(source: &str) -> (r: Result<Value, Error>)
        requires
            source@.len() * 4 < usize::MAX,
        ensures
            result_model(r) == text_result(source),
            r matches Ok(v) ==> wf(v@),
    {
        let cst = Parser::parse(source);
        parse_cst(&cst, source)
    }

    /// Creates a shape from multiple JSON source texts, merging them into the
    /// most general shape accepting every sample: the left fold of the merge
    /// over the per-source inferred shapes, with the first failing source's
    /// error returned, and `EmptyFile` when no source is given.
    #[verifier::loop_isolation(false)]
    pub fn from_sources(sources: &[&str]) -> (r: Result<Value, Error>)
        requires
            forall|i: int| 0 <= i < sources@.len() ==> (#[trigger] sources@[i])@.len() * 4
                < usize::MAX,
        ensures
            sources@.len() == 0 ==> r == Result::<Value, Error>::Err(Error::EmptyFile),
            sources@.len() > 0 ==> result_model(r) == (match texts_shapes(sources@) {
                Result::Ok(ws) => Result::<Shape, ErrModel>::Ok(merge_s(ws)),
                Result::Err(e) => Result::<Shape, ErrModel>::Err(e),
            }),
            r matches Ok(v) ==> wf(v@),
    {
        let ghost ss = sources@;
        let mut values: Vec<Value> = Vec::new();
        let n = sources.len();
        let mut i: usize = 0;
        proof {
            assert(ss.skip(0) =~= ss);
            assert(shapes_model(values@) =~= Seq::<Shape>::empty());
            match texts_shapes(ss) {
                Result::Ok(rest) => {
                    assert(Seq::<Shape>::empty() + rest =~= rest);
                },
                Result::Err(_) => {},
            }
        }
        while i < n
            invariant
                i <= n,
                values@.len() == i as int,
                forall|j: int| 0 <= j < i as int ==> wf((#[trigger] values@[j])@),
                texts_shapes(ss) == (match texts_shapes(ss.skip(i as int)) {
                    Result::Ok(rest) => Result::<Seq<Shape>, ErrModel>::Ok(
                        shapes_model(values@) + rest,
                    ),
                    Result::Err(e) => Result::<Seq<Shape>, ErrModel>::Err(e),
                }),
            decreases n - i,
        {
            let ghost tail = ss.skip(i as int);
            proof {
                assert(tail[0] == ss[i as int]);
                assert(tail.drop_first() =~= ss.skip(i as int + 1));
            }
            let source: &str = *vstd::slice::slice_index_get(sources, i);
            match Value::from_str(source) {
                Ok(v) => {
                    let ghost before = shapes_model(values@);
                    let ghost sh = v@;
                    proof {
                        shapes_model_props(values@);
                    }
                    values.push(v);
                    proof {
                        shapes_model_props(values@);
                        assert(shapes_model(values@) =~= before.push(sh));
                        lemma_texts_step(ss, i as int, before, sh);
                    }
                },
                Err(e) => {
                    proof {
                        assert(texts_shapes(tail) == Result::<Seq<Shape>, ErrModel>::Err(
                            err_model(e),
                        ));
                    }
                    return Err(e);
                },
            }
            i += 1;
        }
        proof {
            assert(ss.skip(i as int).len() == 0);
            assert(texts_shapes(ss.skip(i as int)) == Result::<Seq<Shape>, ErrModel>::Ok(
                Seq::empty(),
            ));
            assert(shapes_model(values@) + Seq::<Shape>::empty() =~= shapes_model(values@));
        }
        let r = merge(values.as_slice());
        proof {
            shapes_model_props(values@);
            if values@.len() > 0 {
                assert forall|q: int|
                    0 <= q < shapes_model(values@).len() implies wf(
                    #[trigger] shapes_model(values@)[q],
                ) by {
                    assert(shapes_model(values@)[q] == values@[q]@);
                }
                lemma_merge_s_wf(shapes_model(values@));
            }
        }
        r
    }

    /// Checks if a JSON source text conforms to this shape: the text's
    /// inferred shape must be a subset of this one. An unparsable text is
    /// simply not a superset.
    pub fn is_superset(&self, json: &str) -> (r: bool)
        requires
            json@.len() * 4 < usize::MAX,
        ensures
            r == (text_result(json) matches Ok(v) && subset_of(v, self@)),
    {
        let cst = Parser::parse(json);
        let r = parse_cst(&cst, json);
        match r {
            Ok(v) => subset_check(&v, self),
            Err(_) => false,
        }
    }

    /// Checks if a JSON source text conforms to this shape; a text that is
    /// not a single valid JSON document is returned as its parse error.
    pub fn is_superset_checked(&self, json: &str) -> (r: Result<bool, Error>)
        requires
            json@.len() * 4 < usize::MAX,
        ensures
            match text_result(json) {
                Ok(v) => r matches Ok(b) && b == subset_of(v, self@),
                Err(em) => r matches Err(e) && err_model(e) == em,
            },
    {
        let cst = Parser::parse(json);
        let r = parse_cst(&cst, json);
        match r {
            Ok(v) => Ok(subset_check(&v, self)),
            Err(e) => Err(e),
        }
    }
}

} // verus!
