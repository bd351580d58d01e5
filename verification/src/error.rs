//! Shape inference and merge errors.
//!
//! Every failure is a returned value; the library never panics.

use vstd::prelude::*;

use crate::value::{shape_of, Shape, Value};

verus! {

/// JSON shapes related errors.
#[derive(Debug, PartialEq, Eq)]
pub enum Error {
    /// Unexpected error has occurred. Usually something with parsing.
    Unknown,
    /// Empty file while parsing.
    EmptyFile,
    /// Invalid JSON: the invalid portion and the half-open byte range where
    /// it is located.
    InvalidJson {
        /// Invalid json content
        value: String,
        /// Invalid json byte range (start, end)
        span: (usize, usize),
    },
    /// JSON that has too many root nodes. eg, two objects not contained in an
    /// array.
    TooManyRootNodes,
    /// Invalid type was found.
    InvalidType(String),
    /// Object member doesnt have a key for the value.
    InvalidObjectKey,
    /// Object member requires a value.
    InvalidObjectValue,
    /// Object expected a type but found something unexpected: a repeated key
    /// bound to an incompatible shape (found, expected).
    InvalidObjectValueType(Value, Value),
    /// Not able to merge the two shapes.
    CannotMerge(Value, Value),
}

/// Mathematical model of an error: payloads as views, so a contract can fix
/// exactly which error a function returns.
#[verifier::ext_equal]
pub enum ErrModel {
    /// Unexpected error has occurred.
    Unknown,
    /// Empty file while parsing.
    EmptyFile,
    /// Invalid JSON: the offending substring and its byte range.
    InvalidJson { value: Seq<char>, span: (usize, usize) },
    /// More than one root node.
    TooManyRootNodes,
    /// An unrecognized token reached shape inference.
    InvalidType(Seq<char>),
    /// Object member without a key.
    InvalidObjectKey,
    /// Object member without a value.
    InvalidObjectValue,
    /// A repeated key bound to an incompatible shape (found, expected).
    InvalidObjectValueType(Shape, Shape),
    /// Two shapes that cannot merge.
    CannotMerge(Shape, Shape),
}

/// The model of an error value.
pub open spec fn err_model(e: Error) -> ErrModel {
    match e {
        Error::Unknown => ErrModel::Unknown,
        Error::EmptyFile => ErrModel::EmptyFile,
        Error::InvalidJson { value, span } => ErrModel::InvalidJson { value: value@, span },
        Error::TooManyRootNodes => ErrModel::TooManyRootNodes,
        Error::InvalidType(name) => ErrModel::InvalidType(name@),
        Error::InvalidObjectKey => ErrModel::InvalidObjectKey,
        Error::InvalidObjectValue => ErrModel::InvalidObjectValue,
        Error::InvalidObjectValueType(found, expected) => ErrModel::InvalidObjectValueType(
            shape_of(found),
            shape_of(expected),
        ),
        Error::CannotMerge(a, b) => ErrModel::CannotMerge(shape_of(a), shape_of(b)),
    }
}

impl View for Error {
    type V = ErrModel;

    open spec fn view(&self) -> ErrModel {
        err_model(*self)
    }
}

/// The model of a fallible shape result: the shape's model on success, the
/// error's model on failure.
pub open spec fn result_model(r: Result<Value, Error>) -> Result<Shape, ErrModel> {
    match r {
        Result::Ok(v) => Result::Ok(shape_of(v)),
        Result::Err(e) => Result::Err(err_model(e)),
    }
}

} // verus!
