//! Property metadata after model loading.

use vstd::prelude::*;
use crate::number::{Dec, dec_lt, dec_less, double_display, double_text};
use crate::text::{concat3, int_text, i64_text};

verus! {

/// String-specific validation rules.
#[derive(Debug, Clone)]
pub struct StringValidator {
    /// Optional regex pattern.
    pub regex: Option<String>,
    /// Optional inclusive minimum length, in characters.
    pub min_length: Option<usize>,
    /// Optional inclusive maximum length, in characters.
    pub max_length: Option<usize>,
}

/// Inclusive lower/upper bounds for Integer, Long and Double values.
#[derive(Debug, Clone, Copy)]
pub struct NumericValidator<T> {
    /// Inclusive lower bound.
    pub lower: Option<T>,
    /// Inclusive upper bound.
    pub upper: Option<T>,
}

/// Semantic type of a property. Double bounds are held as exact decimals
/// (see `crate::number`).
#[derive(Debug, Clone)]
pub enum PropertyType {
    /// String with optional validators.
    String(Option<StringValidator>),
    /// Boolean value.
    Boolean,
    /// Integer with optional range limits.
    Integer(Option<NumericValidator<i64>>),
    /// Long with optional range limits.
    Long(Option<NumericValidator<i64>>),
    /// Double with optional range limits.
    Double(Option<NumericValidator<Dec>>),
    /// RFC 3339 date-time string.
    DateTime,
    /// Relationship URI that points at another declaration.
    Relationship {
        /// Referenced target type.
        type_ref: String,
    },
    /// Nested object reference.
    ObjectRef {
        /// Referenced target type.
        type_ref: String,
    },
}

/// One property declared on a class-like type.
#[derive(Debug, Clone)]
pub struct Property {
    /// Property name from the model.
    pub name: String,
    /// Namespace of the declaration that introduced this property.
    pub declaring_namespace: String,
    /// Whether the property can be absent.
    pub is_optional: bool,
    /// Whether the property is an array.
    pub is_array: bool,
    /// Semantic property type plus any attached validator.
    pub property_type: PropertyType,
}

impl PropertyType {
    /// The short label used in diagnostics and CLI output.
    pub open spec fn spec_describe(self) -> Seq<char> {
        match self {
            PropertyType::String(_) => "String"@,
            PropertyType::Boolean => "Boolean"@,
            PropertyType::Integer(_) => "Integer"@,
            PropertyType::Long(_) => "Long"@,
            PropertyType::Double(_) => "Double"@,
            PropertyType::DateTime => "DateTime"@,
            PropertyType::Relationship { type_ref } => "Relationship<"@ + type_ref@ + ">"@,
            PropertyType::ObjectRef { type_ref } => "Object<"@ + type_ref@ + ">"@,
        }
    }

    /// The type is one that a scalar declaration can have (not a reference).
    pub open spec fn is_primitive(self) -> bool {
        !(self is Relationship) && !(self is ObjectRef)
    }

    /// Returns a short human-readable label used in diagnostics and CLI
    /// output.
    pub fn describe(&self) -> (r: String)
        ensures
            r@ == self.spec_describe(),
    {
        match self {
            PropertyType::String(_) => String::from_str("String"),
            PropertyType::Boolean => String::from_str("Boolean"),
            PropertyType::Integer(_) => String::from_str("Integer"),
            PropertyType::Long(_) => String::from_str("Long"),
            PropertyType::Double(_) => String::from_str("Double"),
            PropertyType::DateTime => String::from_str("DateTime"),
            PropertyType::Relationship { type_ref } => concat3("Relationship<", type_ref.as_str(), ">"),
            PropertyType::ObjectRef { type_ref } => concat3("Object<", type_ref.as_str(), ">"),
        }
    }
}

/// The content of a `StringValidator`.
pub struct StringValidatorView {
    pub regex: Option<Seq<char>>,
    pub min_length: Option<usize>,
    pub max_length: Option<usize>,
}

impl View for StringValidator {
    type V = StringValidatorView;

    open spec fn view(&self) -> StringValidatorView {
        StringValidatorView {
            regex: match self.regex { Some(r) => Some(r@), None => None },
            min_length: self.min_length,
            max_length: self.max_length,
        }
    }
}

/// The content of an optional string validator.
pub open spec fn opt_string_validator_view(v: Option<StringValidator>) -> Option<StringValidatorView> {
    match v {
        Some(x) => Some(x@),
        None => None,
    }
}

/// The content of a `PropertyType`.
pub enum PropertyTypeView {
    String(Option<StringValidatorView>),
    Boolean,
    Integer(Option<NumericValidator<i64>>),
    Long(Option<NumericValidator<i64>>),
    Double(Option<NumericValidator<Dec>>),
    DateTime,
    Relationship(Seq<char>),
    ObjectRef(Seq<char>),
}

impl View for PropertyType {
    type V = PropertyTypeView;

    open spec fn view(&self) -> PropertyTypeView {
        match self {
            PropertyType::String(v) => PropertyTypeView::String(opt_string_validator_view(*v)),
            PropertyType::Boolean => PropertyTypeView::Boolean,
            PropertyType::Integer(v) => PropertyTypeView::Integer(*v),
            PropertyType::Long(v) => PropertyTypeView::Long(*v),
            PropertyType::Double(v) => PropertyTypeView::Double(*v),
            PropertyType::DateTime => PropertyTypeView::DateTime,
            PropertyType::Relationship { type_ref } => PropertyTypeView::Relationship(type_ref@),
            PropertyType::ObjectRef { type_ref } => PropertyTypeView::ObjectRef(type_ref@),
        }
    }
}

/// The content of a `Property`.
pub struct PropertyView {
    pub name: Seq<char>,
    pub declaring_namespace: Seq<char>,
    pub is_optional: bool,
    pub is_array: bool,
    pub property_type: PropertyTypeView,
}

impl View for Property {
    type V = PropertyView;

    open spec fn view(&self) -> PropertyView {
        PropertyView {
            name: self.name@,
            declaring_namespace: self.declaring_namespace@,
            is_optional: self.is_optional,
            is_array: self.is_array,
            property_type: self.property_type@,
        }
    }
}

/// A value that numeric bounds can be given in: it orders, and it prints
/// as Rust's `{}` prints it.
pub trait BoundValue: Copy + Sized {
    /// `self < other`.
    spec fn spec_less(self, other: Self) -> bool;

    /// How the value prints with `{}`.
    spec fn spec_text(self) -> Seq<char>;

    /// Whether `self < other`.
    fn less(&self, other: &Self) -> (r: bool)
        ensures
            r == self.spec_less(*other);

    /// How the value prints with `{}`.
    fn text(&self) -> (r: String)
        ensures
            r@ == self.spec_text();
}

impl BoundValue for i64 {
    open spec fn spec_less(self, other: i64) -> bool {
        self < other
    }

    open spec fn spec_text(self) -> Seq<char> {
        int_text(self as int)
    }

    fn less(&self, other: &i64) -> (r: bool) {
        *self < *other
    }

    fn text(&self) -> (r: String) {
        i64_text(*self)
    }
}

impl BoundValue for Dec {
    open spec fn spec_less(self, other: Dec) -> bool {
        dec_lt(self, other)
    }

    open spec fn spec_text(self) -> Seq<char> {
        double_display(self)
    }

    fn less(&self, other: &Dec) -> (r: bool) {
        dec_less(self, other)
    }

    fn text(&self) -> (r: String) {
        double_text(self)
    }
}

} // verus!
