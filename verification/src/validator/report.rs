//! What validation reports: errors with their JSON path and kind.

use vstd::prelude::*;
use crate::json::{JsonValue, debug_text, str_debug_text};
use crate::text::{concat3, concat4};

verus! {

/// Kinds of validation failure the runtime can report.
#[derive(Debug)]
pub enum ErrorKind {
    /// A required field was missing.
    MissingRequiredProperty,
    /// A value had the wrong JSON type.
    TypeMismatch {
        /// The type the validator expected to see.
        expected: String,
        /// The type it actually saw.
        found: String,
    },
    /// A declared validator rejected the value.
    ConstraintViolation {
        /// Short label for the failed constraint.
        constraint: String,
    },
    /// The requested type or a referenced type could not be resolved.
    UnknownType,
    /// The instance had a field that is not declared on the type.
    UnknownProperty,
    /// A relationship string was malformed or pointed at the wrong thing.
    InvalidRelationship,
    /// A regex check failed.
    PatternMismatch {
        /// The regex pattern that failed.
        pattern: String,
    },
    /// An enum field got a string outside the declared set.
    InvalidEnumValue {
        /// Allowed enum literal names.
        valid_values: Vec<String>,
    },
    /// `$class` points at an abstract declaration.
    AbstractTypeInstantiation,
}

/// One validation error with its JSON path and category.
#[derive(Debug)]
pub struct ValidationError {
    /// Path to the bad value, `$`-rooted.
    pub path: String,
    /// Short message meant for CLI output, demos, and bindings.
    pub message: String,
    /// Structured error kind for callers that do not want to parse text.
    pub error_type: ErrorKind,
}

/// Result of validating one JSON value against one Concerto type: every
/// error found, in traversal order.
#[derive(Debug)]
pub struct ValidationResult {
    /// Whether the instance passed every check.
    pub valid: bool,
    /// Collected validation errors in traversal order.
    pub errors: Vec<ValidationError>,
}

/// The content of an `ErrorKind`.
pub enum KindView {
    MissingRequiredProperty,
    TypeMismatch(Seq<char>, Seq<char>),
    ConstraintViolation(Seq<char>),
    UnknownType,
    UnknownProperty,
    InvalidRelationship,
    PatternMismatch(Seq<char>),
    InvalidEnumValue(Seq<Seq<char>>),
    AbstractTypeInstantiation,
}

/// The texts of a list of strings.
pub open spec fn strings_view(v: Seq<String>) -> Seq<Seq<char>> {
    v.map_values(|s: String| s@)
}

impl View for ErrorKind {
    type V = KindView;

    open spec fn view(&self) -> KindView {
        match self {
            ErrorKind::MissingRequiredProperty => KindView::MissingRequiredProperty,
            ErrorKind::TypeMismatch { expected, found } => KindView::TypeMismatch(expected@, found@),
            ErrorKind::ConstraintViolation { constraint } => KindView::ConstraintViolation(constraint@),
            ErrorKind::UnknownType => KindView::UnknownType,
            ErrorKind::UnknownProperty => KindView::UnknownProperty,
            ErrorKind::InvalidRelationship => KindView::InvalidRelationship,
            ErrorKind::PatternMismatch { pattern } => KindView::PatternMismatch(pattern@),
            ErrorKind::InvalidEnumValue { valid_values } => KindView::InvalidEnumValue(strings_view(valid_values@)),
            ErrorKind::AbstractTypeInstantiation => KindView::AbstractTypeInstantiation,
        }
    }
}

/// The content of a `ValidationError`.
pub struct ErrView {
    pub path: Seq<char>,
    pub message: Seq<char>,
    pub kind: KindView,
}

impl View for ValidationError {
    type V = ErrView;

    open spec fn view(&self) -> ErrView {
        ErrView { path: self.path@, message: self.message@, kind: self.error_type@ }
    }
}

/// The contents of a list of validation errors.
pub open spec fn errs_view(v: Seq<ValidationError>) -> Seq<ErrView> {
    v.map_values(|e: ValidationError| e@)
}

/// A validation error with the given path, message and kind.
pub open spec fn verr(path: Seq<char>, message: Seq<char>, kind: KindView) -> ErrView {
    ErrView { path, message, kind }
}

/// Builds a validation error.
pub fn new_error(path: String, message: String, error_type: ErrorKind) -> (r: ValidationError)
    ensures
        r@ == verr(path@, message@, error_type@),
{
    ValidationError { path, message, error_type }
}

/// Appends one error to a list.
pub fn push_error(errors: &mut Vec<ValidationError>, e: ValidationError)
    ensures
        errs_view(final(errors)@) == errs_view(old(errors)@).push(e@),
{
    let ghost before = errors@;
    errors.push(e);
    assert(errs_view(errors@) =~= errs_view(before).push(e@));
}

/// Appends a list of errors to another.
pub fn append_errors(errors: &mut Vec<ValidationError>, more: Vec<ValidationError>)
    ensures
        errs_view(final(errors)@) == errs_view(old(errors)@) + errs_view(more@),
{
    let ghost before = errors@;
    let ghost added = more@;
    let mut more = more;
    errors.append(&mut more);
    assert(errs_view(errors@) =~= errs_view(before) + errs_view(added)) by {
        assert(errors@ =~= before + added);
    }
}

/// The JSON type of a value, as errors name it. A double with a whole
/// value in the `i64` range counts as an integer.
pub open spec fn json_type_label(v: JsonValue) -> Seq<char> {
    match v {
        JsonValue::Null => "Null"@,
        JsonValue::Bool(_) => "Boolean"@,
        JsonValue::Number(n) => if (n is Float) && !n.spec_is_integral_double() { "Double"@ } else { "Integer"@ },
        JsonValue::String(_) => "String"@,
        JsonValue::Array(_) => "Array"@,
        JsonValue::Object(_) => "Object"@,
    }
}

/// How a found value is shown in a message.
pub open spec fn rendered(v: JsonValue) -> Seq<char> {
    match v {
        JsonValue::String(s) => "string ("@ + str_debug_text(s@) + ")"@,
        JsonValue::Bool(b) => if b { "bool (true)"@ } else { "bool (false)"@ },
        JsonValue::Number(n) => json_type_label(v) + " ("@ + n.spec_text() + ")"@,
        JsonValue::Null => "null"@,
        JsonValue::Array(_) => "array"@,
        JsonValue::Object(_) => "object"@,
    }
}

/// The error for a value of the wrong JSON type.
pub open spec fn mismatch(path: Seq<char>, expected: Seq<char>, v: JsonValue, name: Seq<char>) -> ErrView {
    verr(
        path,
        "'"@ + name + "' should be "@ + expected + ", got "@ + rendered(v),
        KindView::TypeMismatch(expected, json_type_label(v)),
    )
}

/// The JSON type of a value, as errors name it.
pub fn json_type_name(v: &JsonValue) -> (r: &'static str)
    ensures
        r@ == json_type_label(*v),
{
    match v {
        JsonValue::Null => "Null",
        JsonValue::Bool(_) => "Boolean",
        JsonValue::Number(n) => {
            if n.is_float() && !n.is_integral_double() { "Double" } else { "Integer" }
        }
        JsonValue::String(_) => "String",
        JsonValue::Array(_) => "Array",
        JsonValue::Object(_) => "Object",
    }
}

/// How a found value is shown in a message, such as `string ("x")` or
/// `Integer (3)`.
pub fn render_found_value(v: &JsonValue) -> (r: String)
    ensures
        r@ == rendered(*v),
{
    match v {
        JsonValue::String(s) => {
            let d = debug_text(s.as_str());
            concat3("string (", d.as_str(), ")")
        }
        JsonValue::Bool(b) => {
            if *b { String::from_str("bool (true)") } else { String::from_str("bool (false)") }
        }
        JsonValue::Number(n) => {
            let t = n.text();
            concat4(json_type_name(v), " (", t.as_str(), ")")
        }
        JsonValue::Null => String::from_str("null"),
        JsonValue::Array(_) => String::from_str("array"),
        JsonValue::Object(_) => String::from_str("object"),
    }
}

/// The error for a value of the wrong JSON type:
/// `'<name>' should be <expected>, got <value>`.
pub fn type_mismatch(path: &str, expected: &str, found_val: &JsonValue, prop_name: &str) -> (r: ValidationError)
    ensures
        r@ == mismatch(path@, expected@, *found_val, prop_name@),
{
    let mut message = concat4("'", prop_name, "' should be ", expected);
    message.append(", got ");
    let shown = render_found_value(found_val);
    message.append(shown.as_str());
    let found = String::from_str(json_type_name(found_val));
    new_error(
        String::from_str(path),
        message,
        ErrorKind::TypeMismatch { expected: String::from_str(expected), found },
    )
}

} // verus!
