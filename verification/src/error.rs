//! Shared error type for loader and validator code.

use vstd::prelude::*;
use crate::text::concat2;

verus! {

/// Top-level error type used across the library.
#[derive(Debug)]
pub enum ConcertoError {
    /// Raised when model JSON cannot be parsed or lacks a required field.
    Parse(String),
    /// Raised when a requested type cannot be found.
    TypeNotFound(String),
    /// Raised when a namespace lookup fails.
    NamespaceNotFound(String),
    /// Raised when inheritance loops back on itself.
    CircularDependency(String),
    /// Raised for semantically invalid model definitions.
    Semantic(String),
    /// Raised when JSON text does not parse; holds `serde_json`'s message.
    Json(String),
    /// Raised when the incoming instance is the wrong JSON shape to validate.
    InvalidInstance(String),
}

/// The mathematical content of a `ConcertoError`.
pub enum ErrorView {
    Parse(Seq<char>),
    TypeNotFound(Seq<char>),
    NamespaceNotFound(Seq<char>),
    CircularDependency(Seq<char>),
    Semantic(Seq<char>),
    Json(Seq<char>),
    InvalidInstance(Seq<char>),
}

impl View for ConcertoError {
    type V = ErrorView;

    open spec fn view(&self) -> ErrorView {
        match self {
            ConcertoError::Parse(s) => ErrorView::Parse(s@),
            ConcertoError::TypeNotFound(s) => ErrorView::TypeNotFound(s@),
            ConcertoError::NamespaceNotFound(s) => ErrorView::NamespaceNotFound(s@),
            ConcertoError::CircularDependency(s) => ErrorView::CircularDependency(s@),
            ConcertoError::Semantic(s) => ErrorView::Semantic(s@),
            ConcertoError::Json(s) => ErrorView::Json(s@),
            ConcertoError::InvalidInstance(s) => ErrorView::InvalidInstance(s@),
        }
    }
}

impl ErrorView {
    /// The text that the error displays as.
    pub open spec fn display(self) -> Seq<char> {
        match self {
            ErrorView::Parse(s) => "parse error: "@ + s,
            ErrorView::TypeNotFound(s) => "type not found: "@ + s,
            ErrorView::NamespaceNotFound(s) => "namespace not found: "@ + s,
            ErrorView::CircularDependency(s) => "circular dependency: "@ + s,
            ErrorView::Semantic(s) => "semantic error: "@ + s,
            ErrorView::Json(s) => "json error: "@ + s,
            ErrorView::InvalidInstance(s) => "invalid instance: "@ + s,
        }
    }
}

impl ConcertoError {
    /// The text that the error displays as, such as
    /// `"type not found: type 'Missing' not found in 'org.example@1.0.0'"`.
    pub fn to_string(&self) -> (r: String)
        ensures
            r@ == self@.display(),
    {
        match self {
            ConcertoError::Parse(s) => concat2("parse error: ", s.as_str()),
            ConcertoError::TypeNotFound(s) => concat2("type not found: ", s.as_str()),
            ConcertoError::NamespaceNotFound(s) => concat2("namespace not found: ", s.as_str()),
            ConcertoError::CircularDependency(s) => concat2("circular dependency: ", s.as_str()),
            ConcertoError::Semantic(s) => concat2("semantic error: ", s.as_str()),
            ConcertoError::Json(s) => concat2("json error: ", s.as_str()),
            ConcertoError::InvalidInstance(s) => concat2("invalid instance: ", s.as_str()),
        }
    }
}

} // verus!
