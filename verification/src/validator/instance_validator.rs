//! The instance validator: checks a JSON value against a Concerto type and
//! collects every error it finds, in traversal order.
//!
//! The validation of a value is stated by the spec functions below, one per
//! step of the walk; each executable function ensures that it appends
//! exactly the errors its spec function gives (or returns the error that
//! stops the walk).

use vstd::prelude::*;
use crate::validator::type_resolver::{resolve, resolve_in_context};
use vstd::string::*;
use crate::declaration::{Declaration, EnumDeclaration, MapDeclaration, prop_index, lemma_prop_index_bounds};
use crate::error::{ConcertoError, ErrorView};
use crate::external::{rfc3339_accepts, is_rfc3339};
use crate::json::{JsonValue, str_debug_text, debug_text, member_lookup};
use crate::model_file::ModelFile;
use crate::model_manager::{ModelManager, all_decls, spec_resolve_type, spec_resolve_in_context,
    lemma_resolved_in};
use crate::number::Dec;
use crate::property::{Property, PropertyType, NumericValidator, StringValidator, opt_string_validator_view};
use crate::text::{int_text, decimal_text, first_index_of, find_char, lemma_first_index_bounds, str_eq, concat2, concat3,
    concat4, concat5, dotted, with_number};
use crate::validator::hierarchy::{assignable, inherited_props, walk_fuel, is_assignable_to, collect_properties, derefs};
use crate::validator::numeric_validator::{numeric_errors, validate_numeric};
use crate::validator::report::{ErrView, KindView, ValidationError, ValidationResult, ErrorKind, verr, errs_view,
    new_error, push_error, append_errors, strings_view, json_type_label, rendered, mismatch, json_type_name,
    render_found_value, type_mismatch};
use crate::validator::string_validator::{string_errors, validate_string};

verus! {

/// `pre` followed by what `r` holds, or `r`'s error.
pub open spec fn chain(pre: Seq<ErrView>, r: Result<Seq<ErrView>, ErrorView>) -> Result<Seq<ErrView>, ErrorView> {
    match r {
        Ok(es) => Ok(pre + es),
        Err(e) => Err(e),
    }
}

/// The errors of an Integer or Long value: it must be a JSON integer that
/// fits in an `i64`, within the bounds.
pub open spec fn integerish_errors(v: JsonValue, nv: Option<NumericValidator<i64>>, path: Seq<char>, name: Seq<char>, expected: Seq<char>) -> Seq<ErrView> {
    match v {
        JsonValue::Number(n) => match n.spec_as_i64() {
            Some(x) => numeric_errors(x, nv, path, name),
            None => seq![mismatch(path, expected, v, name)],
        },
        _ => seq![mismatch(path, expected, v, name)],
    }
}

/// The errors of a Double value: any JSON number, within the bounds.
pub open spec fn double_errors(v: JsonValue, nv: Option<NumericValidator<Dec>>, path: Seq<char>, name: Seq<char>) -> Seq<ErrView> {
    match v {
        JsonValue::Number(n) => match n.spec_as_dec() {
            Some(d) => numeric_errors(d, nv, path, name),
            None => seq![mismatch(path, "Double"@, v, name)],
        },
        _ => seq![mismatch(path, "Double"@, v, name)],
    }
}

/// The errors of a DateTime value: a string that RFC 3339 accepts.
pub open spec fn datetime_errors(v: JsonValue, path: Seq<char>, name: Seq<char>) -> Seq<ErrView> {
    match v {
        JsonValue::String(s) => if rfc3339_accepts(s@) {
            Seq::empty()
        } else {
            seq![verr(
                path,
                "'"@ + name + "' should be rfc3339 datetime, got "@ + str_debug_text(s@),
                KindView::TypeMismatch("DateTime (RFC 3339)"@, "String ("@ + s@ + ")"@),
            )]
        },
        _ => seq![mismatch(path, "DateTime"@, v, name)],
    }
}

/// The errors of a value of a primitive type (String, Boolean, Integer,
/// Long, Double, DateTime).
pub open spec fn primitive_errors(v: JsonValue, t: PropertyType, path: Seq<char>, name: Seq<char>) -> Seq<ErrView> {
    match t {
        PropertyType::String(sv) => match v {
            JsonValue::String(s) => string_errors(s@, opt_string_validator_view(sv), path, name),
            _ => seq![mismatch(path, "String"@, v, name)],
        },
        PropertyType::Boolean => if v is Bool { Seq::empty() } else { seq![mismatch(path, "Boolean"@, v, name)] },
        PropertyType::Integer(nv) => integerish_errors(v, nv, path, name, "Integer"@),
        PropertyType::Long(nv) => integerish_errors(v, nv, path, name, "Long"@),
        PropertyType::Double(nv) => double_errors(v, nv, path, name),
        PropertyType::DateTime => datetime_errors(v, path, name),
        _ => Seq::empty(),
    }
}

/// The type named by a relationship URI `resource:<Type>#<id>`, where both
/// parts are non-empty (the type ends at the first `#`).
pub open spec fn relationship_type(uri: Seq<char>) -> Option<Seq<char>> {
    if uri.len() >= 9 && uri.take(9) == "resource:"@ {
        let rest = uri.skip(9);
        match first_index_of(rest, '#') {
            Some(i) => if i > 0 && i + 1 < rest.len() { Some(rest.take(i)) } else { None },
            None => None,
        }
    } else {
        None
    }
}

/// The errors of a relationship value: a URI string whose type resolves
/// to the declared target.
pub open spec fn relationship_errors(ms: Seq<ModelFile>, v: JsonValue, type_ref: Seq<char>, ctx: Seq<char>, path: Seq<char>, name: Seq<char>) -> Seq<ErrView> {
    match v.spec_as_str() {
        None => seq![verr(path, "'"@ + name + "' should be relationship string, got "@ + rendered(v), KindView::InvalidRelationship)],
        Some(uri) => match spec_resolve_in_context(ms, type_ref, ctx) {
            Err(_) => seq![verr(path, "relationship target '"@ + type_ref + "' isn't loaded"@, KindView::UnknownType)],
            Ok(declared) => match relationship_type(uri) {
                None => seq![verr(
                    path,
                    "'"@ + name + "' should look like resource:Type#id, got "@ + str_debug_text(uri),
                    KindView::InvalidRelationship,
                )],
                Some(at) => match spec_resolve_type(ms, at) {
                    Err(_) => seq![verr(
                        path,
                        "'"@ + name + "' points at '"@ + at + "', but that type isn't loaded"@,
                        KindView::UnknownType,
                    )],
                    Ok(actual) => if actual.spec_namespace() != declared.spec_namespace() || actual.spec_name() != declared.spec_name() {
                        seq![verr(
                            path,
                            "'"@ + name + "' should point to '"@ + declared.spec_fqn() + "', got '"@ + actual.spec_fqn() + "'"@,
                            KindView::InvalidRelationship,
                        )]
                    } else {
                        Seq::empty()
                    },
                },
            },
        },
    }
}

/// The items of a list, each shown with `{:?}`, separated by `, `.
pub open spec fn debug_items(vs: Seq<Seq<char>>) -> Seq<char>
    decreases vs.len(),
{
    if vs.len() == 0 {
        Seq::empty()
    } else if vs.len() == 1 {
        str_debug_text(vs[0])
    } else {
        debug_items(vs.drop_last()) + ", "@ + str_debug_text(vs.last())
    }
}

/// A list of strings shown with `{:?}`: `["a", "b"]`.
pub open spec fn debug_list(vs: Seq<Seq<char>>) -> Seq<char> {
    "["@ + debug_items(vs) + "]"@
}

/// The errors of an enum value: one of the declared literal names.
pub open spec fn enum_errors(v: JsonValue, e: EnumDeclaration, path: Seq<char>, name: Seq<char>) -> Seq<ErrView> {
    match v.spec_as_str() {
        Some(s) => if strings_view(e.values@).contains(s) {
            Seq::empty()
        } else {
            seq![verr(
                path,
                "'"@ + name + "' should be one of "@ + debug_list(strings_view(e.values@)) + ", got "@ + str_debug_text(s),
                KindView::InvalidEnumValue(strings_view(e.values@)),
            )]
        },
        None => seq![mismatch(path, "String (Enum)"@, v, name)],
    }
}

/// The errors of a map key (JSON keys are strings).
pub open spec fn map_key_errors(key_type: PropertyType, k: Seq<char>, path: Seq<char>, name: Seq<char>) -> Seq<ErrView> {
    match key_type {
        PropertyType::String(sv) => string_errors(k, opt_string_validator_view(sv), path, name),
        PropertyType::DateTime => if rfc3339_accepts(k) {
            Seq::empty()
        } else {
            seq![verr(
                path,
                "map key for '"@ + name + "' should be rfc3339 datetime, got "@ + str_debug_text(k),
                KindView::TypeMismatch("DateTime (RFC 3339)"@, "String"@),
            )]
        },
        _ => seq![verr(
            path,
            "map '"@ + name + "' has key type '"@ + key_type.spec_describe() + "' but json keys are strings"@,
            KindView::TypeMismatch("String-compatible key type"@, key_type.spec_describe()),
        )],
    }
}

/// The errors for required properties that an object lacks, in property
/// order.
pub open spec fn missing_errors(v: JsonValue, props: Seq<Property>, path: Seq<char>) -> Seq<ErrView>
    decreases props.len(),
{
    if props.len() == 0 {
        Seq::empty()
    } else {
        let p = props.last();
        missing_errors(v, props.drop_last(), path) + if !p.is_optional && v.spec_get(p.name@) is None {
            seq![verr(path + "."@ + p.name@, "missing required field '"@ + p.name@ + "'"@, KindView::MissingRequiredProperty)]
        } else {
            Seq::empty()
        }
    }
}

/// The errors for members that no property declares, in member order
/// (`$class` is always allowed).
pub open spec fn unknown_errors(members: Seq<(String, JsonValue)>, props: Seq<Property>, path: Seq<char>) -> Seq<ErrView>
    decreases members.len(),
{
    if members.len() == 0 {
        Seq::empty()
    } else {
        let k = members.last().0@;
        unknown_errors(members.drop_last(), props, path) + if k == "$class"@ || prop_index(props, k) is Some {
            Seq::empty()
        } else {
            seq![verr(path + "."@ + k, "'"@ + k + "' isn't declared here"@, KindView::UnknownProperty)]
        }
    }
}

/// Whether `d` is an abstract class-like declaration.
pub open spec fn is_abstract_class(d: Declaration) -> bool {
    d.spec_class() matches Some(c) && c.is_abstract
}

/// The check of an object's `$class` against the requested type: the
/// errors found and, where the object may be validated further, the
/// declaration it names. The requested type must resolve, and the walk of
/// the supertype chain must not loop back on itself: where either fails,
/// that error stops the validation.
pub open spec fn class_check(ms: Seq<ModelFile>, v: JsonValue, tn: Seq<char>, path: Seq<char>) -> Result<(Seq<ErrView>, Option<Declaration>), ErrorView> {
    let cp = path + ".$class"@;
    match v.spec_str_member("$class"@) {
        None => Ok((seq![verr(cp, "missing required field '$class'"@, KindView::MissingRequiredProperty)], None)),
        Some(cn) => match spec_resolve_type(ms, cn) {
            Err(_) => Ok((seq![verr(cp, "can't resolve '"@ + cn + "'"@, KindView::UnknownType)], None)),
            Ok(actual) => match spec_resolve_type(ms, tn) {
                Err(e) => Err(e),
                Ok(req) => match assignable(ms, actual, req) {
                    Err(e) => if e is CircularDependency {
                        Err(e)
                    } else {
                        Ok((seq![verr(cp, "supertype walk blew up: "@ + e.display(), KindView::UnknownType)], None))
                    },
                    Ok(b) => if !b {
                        Ok((seq![verr(
                            cp,
                            "'$class' is '"@ + cn + "', expected '"@ + req.spec_fqn() + "'"@,
                            KindView::TypeMismatch(req.spec_fqn(), cn),
                        )], None))
                    } else if is_abstract_class(actual) {
                        Ok((seq![verr(
                            cp,
                            "can't instantiate abstract type '"@ + actual.spec_fqn() + "'"@,
                            KindView::AbstractTypeInstantiation,
                        )], Some(actual)))
                    } else {
                        Ok((Seq::empty(), Some(actual)))
                    },
                },
            },
        },
    }
}

/// The number of items or members of an array or object.
pub open spec fn json_len(v: JsonValue) -> int {
    match v {
        JsonValue::Array(a) => a@.len() as int,
        JsonValue::Object(m) => m@.len() as int,
        _ => 0,
    }
}

/// The validation of value `v` against the type named `tn`, at `path`.
pub open spec fn object_result(ms: Seq<ModelFile>, v: JsonValue, tn: Seq<char>, path: Seq<char>) -> Result<Seq<ErrView>, ErrorView>
    decreases v, 4int, 0int,
{
    match v {
        JsonValue::Object(members) => match class_check(ms, v, tn, path) {
            Err(e) => Err(e),
            Ok((e1, found)) => match found {
                None => Ok(e1),
                Some(actual) => {
                    let (e2, pr) = inherited_props(ms, actual, Seq::empty(), walk_fuel(ms));
                    match pr {
                        Err(e) => if e is CircularDependency {
                            Err(e)
                        } else {
                            Ok(e1 + e2 + seq![verr(
                                path + ".$class"@,
                                "couldn't collect props: "@ + e.display(),
                                KindView::UnknownType,
                            )])
                        },
                        Ok(props) => chain(
                            e1 + e2 + missing_errors(v, props, path) + unknown_errors(members@, props, path),
                            present_result(ms, v, props, path, 0),
                        ),
                    }
                }
            },
        },
        _ => Ok(seq![verr(
            path,
            "expected object, got "@ + rendered(v),
            KindView::TypeMismatch("Object"@, json_type_label(v)),
        )]),
    }
}

/// The validation of the members of object `v` from the `i`-th on, each
/// against the property of its name (members without one, `$class`, and
/// optional members that are null are skipped).
pub open spec fn present_result(ms: Seq<ModelFile>, v: JsonValue, props: Seq<Property>, path: Seq<char>, i: int) -> Result<Seq<ErrView>, ErrorView>
    decreases v, 3int, json_len(v) - i,
{
    match v {
        JsonValue::Object(members) => if i < 0 || i >= members@.len() {
            Ok(Seq::empty())
        } else {
            let k = members@[i].0@;
            let x = members@[i].1;
            if k == "$class"@ {
                present_result(ms, v, props, path, i + 1)
            } else {
                match prop_index(props, k) {
                    None => present_result(ms, v, props, path, i + 1),
                    Some(j) => if 0 <= j < props.len() && !(props[j].is_optional && x is Null) {
                        match property_result(ms, x, props[j], path + "."@ + k) {
                            Err(e) => Err(e),
                            Ok(es) => chain(es, present_result(ms, v, props, path, i + 1)),
                        }
                    } else {
                        present_result(ms, v, props, path, i + 1)
                    },
                }
            }
        },
        _ => Ok(Seq::empty()),
    }
}

/// The validation of one member value against its property: arrays item
/// by item (at `path[i]`), other values as they are.
pub open spec fn property_result(ms: Seq<ModelFile>, x: JsonValue, p: Property, path: Seq<char>) -> Result<Seq<ErrView>, ErrorView>
    decreases x, 9int, 0int,
{
    if p.is_array {
        match x {
            JsonValue::Array(_) => items_result(ms, x, p, path, 0),
            _ => Ok(seq![verr(
                path,
                "'"@ + p.name@ + "' should be array, got "@ + rendered(x),
                KindView::TypeMismatch("Array"@, json_type_label(x)),
            )]),
        }
    } else if x is Array {
        Ok(seq![verr(
            path,
            "'"@ + p.name@ + "' should be "@ + p.property_type.spec_describe() + ", got array"@,
            KindView::TypeMismatch(p.property_type.spec_describe(), "Array"@),
        )])
    } else {
        type_result(ms, x, p.property_type, p.declaring_namespace@, path, p.name@)
    }
}

/// The validation of the items of array `x` from the `i`-th on.
pub open spec fn items_result(ms: Seq<ModelFile>, x: JsonValue, p: Property, path: Seq<char>, i: int) -> Result<Seq<ErrView>, ErrorView>
    decreases x, 8int, json_len(x) - i,
{
    match x {
        JsonValue::Array(items) => if i < 0 || i >= items@.len() {
            Ok(Seq::empty())
        } else {
            match type_result(ms, items@[i], p.property_type, p.declaring_namespace@,
                path + "["@ + decimal_text(i as nat) + "]"@, p.name@) {
                Err(e) => Err(e),
                Ok(es) => chain(es, items_result(ms, x, p, path, i + 1)),
            }
        },
        _ => Ok(Seq::empty()),
    }
}

/// The validation of a value against a property type, with type names
/// resolved in namespace `ctx`.
pub open spec fn type_result(ms: Seq<ModelFile>, x: JsonValue, t: PropertyType, ctx: Seq<char>, path: Seq<char>, name: Seq<char>) -> Result<Seq<ErrView>, ErrorView>
    decreases x, 7int, 0int,
{
    match t {
        PropertyType::Relationship { type_ref } => Ok(relationship_errors(ms, x, type_ref@, ctx, path, name)),
        PropertyType::ObjectRef { type_ref } => object_ref_result(ms, x, type_ref@, ctx, path, name),
        _ => Ok(primitive_errors(x, t, path, name)),
    }
}

/// The validation of a value against a named type: an enum, a class-like
/// type (a nested object), a scalar, or a map.
pub open spec fn object_ref_result(ms: Seq<ModelFile>, x: JsonValue, type_ref: Seq<char>, ctx: Seq<char>, path: Seq<char>, name: Seq<char>) -> Result<Seq<ErrView>, ErrorView>
    decreases x, 6int, 0int,
{
    match spec_resolve_in_context(ms, type_ref, ctx) {
        Err(_) => Ok(seq![verr(path, "can't resolve '"@ + type_ref + "'"@, KindView::UnknownType)]),
        Ok(d) => match d {
            Declaration::Enum(e) => Ok(enum_errors(x, e, path, name)),
            Declaration::Scalar(s) => Ok(primitive_errors(x, s.scalar_type, path, name)),
            Declaration::MapDecl(m) => map_result(ms, x, m, path, name, 0),
            _ => if x is Object {
                object_result(ms, x, d.spec_fqn(), path)
            } else {
                Ok(seq![mismatch(path, "Object"@, x, name)])
            },
        },
    }
}

/// The validation of the members of map value `x` from the `i`-th on:
/// each key (at `path["key"]`) against the key type, each value (at
/// `path.key`) against the value type.
pub open spec fn map_result(ms: Seq<ModelFile>, x: JsonValue, m: MapDeclaration, path: Seq<char>, name: Seq<char>, i: int) -> Result<Seq<ErrView>, ErrorView>
    decreases x, 5int, json_len(x) - i,
{
    match x {
        JsonValue::Object(members) => if i < 0 || i >= members@.len() {
            Ok(Seq::empty())
        } else {
            let k = members@[i].0@;
            let key_errs = map_key_errors(m.key_type, k, path + "["@ + str_debug_text(k) + "]"@, name);
            match type_result(ms, members@[i].1, m.value_type, m.namespace@, path + "."@ + k, name) {
                Err(e) => Err(e),
                Ok(es) => chain(key_errs + es, map_result(ms, x, m, path, name, i + 1)),
            }
        },
        _ => Ok(seq![mismatch(path, "Object"@, x, name)]),
    }
}

/// The validation of an instance against the type named `tn`: the errors
/// found, in traversal order, or the error that stopped it. The requested
/// type is resolved first: where it does not resolve, that error is the
/// outcome, whatever the instance.
pub open spec fn validation(ms: Seq<ModelFile>, instance: JsonValue, tn: Seq<char>) -> Result<Seq<ErrView>, ErrorView> {
    match spec_resolve_type(ms, tn) {
        Err(e) => Err(e),
        Ok(_) => object_result(ms, instance, tn, "$"@),
    }
}


/// Appends the errors a String value gets.
fn validate_string_property(val: &JsonValue, validator: &Option<StringValidator>, path: &str, prop_name: &str, errors: &mut Vec<ValidationError>)
    ensures
        errs_view(final(errors)@) == errs_view(old(errors)@)
            + primitive_errors(*val, PropertyType::String(*validator), path@, prop_name@),
{
    match val.as_str() {
        Some(string_val) => {
            let string_errors = validate_string(string_val, validator, path, prop_name);
            append_errors(errors, string_errors);
        }
        None => {
            let e = type_mismatch(path, "String", val, prop_name);
            push_error(errors, e);
        }
    }
}

/// Appends the error a non-boolean value gets where a Boolean is expected.
fn validate_boolean_property(val: &JsonValue, path: &str, prop_name: &str, errors: &mut Vec<ValidationError>)
    ensures
        errs_view(final(errors)@) == errs_view(old(errors)@) + primitive_errors(*val, PropertyType::Boolean, path@, prop_name@),
{
    match val {
        JsonValue::Bool(_) => {
            assert(errs_view(errors@) =~= errs_view(old(errors)@) + Seq::<ErrView>::empty());
        }
        _ => {
            let e = type_mismatch(path, "Boolean", val, prop_name);
            push_error(errors, e);
        }
    }
}

/// Appends the errors an Integer or Long value gets.
fn validate_integerish_property(
    val: &JsonValue,
    validator: &Option<NumericValidator<i64>>,
    path: &str,
    prop_name: &str,
    expected_type: &str,
    errors: &mut Vec<ValidationError>,
)
    ensures
        errs_view(final(errors)@) == errs_view(old(errors)@)
            + integerish_errors(*val, *validator, path@, prop_name@, expected_type@),
{
    let number = match val {
        JsonValue::Number(n) => n.as_i64(),
        _ => None,
    };
    match number {
        Some(number) => {
            let numeric_errors = validate_numeric(number, validator, path, prop_name);
            append_errors(errors, numeric_errors);
        }
        None => {
            let e = type_mismatch(path, expected_type, val, prop_name);
            push_error(errors, e);
        }
    }
}

/// Appends the errors a Double value gets; integers count as doubles.
fn validate_double_property(val: &JsonValue, validator: &Option<NumericValidator<Dec>>, path: &str, prop_name: &str, errors: &mut Vec<ValidationError>)
    ensures
        errs_view(final(errors)@) == errs_view(old(errors)@) + double_errors(*val, *validator, path@, prop_name@),
{
    let number = match val {
        JsonValue::Number(n) => n.as_dec(),
        _ => None,
    };
    match number {
        Some(number) => {
            let numeric_errors = validate_numeric(number, validator, path, prop_name);
            append_errors(errors, numeric_errors);
        }
        None => {
            let e = type_mismatch(path, "Double", val, prop_name);
            push_error(errors, e);
        }
    }
}

/// Appends the error a DateTime value gets, if it is not an RFC 3339 string.
fn validate_datetime_property(val: &JsonValue, path: &str, prop_name: &str, errors: &mut Vec<ValidationError>)
    ensures
        errs_view(final(errors)@) == errs_view(old(errors)@) + datetime_errors(*val, path@, prop_name@),
{
    match val.as_str() {
        Some(datetime) => {
            if !is_rfc3339(datetime) {
                let d = debug_text(datetime);
                let message = concat4("'", prop_name, "' should be rfc3339 datetime, got ", d.as_str());
                let e = new_error(
                    String::from_str(path),
                    message,
                    ErrorKind::TypeMismatch {
                        expected: String::from_str("DateTime (RFC 3339)"),
                        found: concat3("String (", datetime, ")"),
                    },
                );
                push_error(errors, e);
            } else {
                assert(errs_view(errors@) =~= errs_view(old(errors)@) + Seq::<ErrView>::empty());
            }
        }
        None => {
            let e = type_mismatch(path, "DateTime", val, prop_name);
            push_error(errors, e);
        }
    }
}

/// Appends the errors a value of a primitive type gets (nothing for the
/// reference types, which are not primitive).
fn validate_primitive(val: &JsonValue, prop_type: &PropertyType, path: &str, prop_name: &str, errors: &mut Vec<ValidationError>)
    ensures
        errs_view(final(errors)@) == errs_view(old(errors)@) + primitive_errors(*val, *prop_type, path@, prop_name@),
{
    match prop_type {
        PropertyType::String(validator) => validate_string_property(val, validator, path, prop_name, errors),
        PropertyType::Boolean => validate_boolean_property(val, path, prop_name, errors),
        PropertyType::Integer(validator) => validate_integerish_property(val, validator, path, prop_name, "Integer", errors),
        PropertyType::Long(validator) => validate_integerish_property(val, validator, path, prop_name, "Long", errors),
        PropertyType::Double(validator) => validate_double_property(val, validator, path, prop_name, errors),
        PropertyType::DateTime => validate_datetime_property(val, path, prop_name, errors),
        _ => {
            assert(errs_view(errors@) =~= errs_view(old(errors)@) + Seq::<ErrView>::empty());
        }
    }
}

/// The type part of a relationship URI `resource:<Type>#<id>`; both parts
/// must be non-empty.
pub fn parse_relationship_uri(uri: &str) -> (r: Option<String>)
    ensures
        match r {
            Some(t) => relationship_type(uri@) == Some(t@),
            None => relationship_type(uri@) is None,
        },
{
    proof { reveal_strlit("resource:"); }
    let n = uri.unicode_len();
    if n < 9 {
        return None;
    }
    let prefix = uri.substring_char(0, 9);
    if !str_eq(prefix, "resource:") {
        return None;
    }
    assert(uri@.take(9) =~= prefix@);
    let rest = uri.substring_char(9, n);
    assert(rest@ =~= uri@.skip(9));
    match find_char(rest, '#') {
        Some(i) => {
            proof { lemma_first_index_bounds(rest@, '#'); }
            let m = rest.unicode_len();
            if i > 0 && i + 1 < m {
                let type_part = rest.substring_char(0, i);
                assert(type_part@ =~= rest@.take(i as int));
                Some(String::from_str(type_part))
            } else {
                None
            }
        }
        None => None,
    }
}

/// Appends the errors a relationship value gets.
fn validate_relationship(
    model_manager: &ModelManager,
    val: &JsonValue,
    type_ref: &str,
    context_namespace: &str,
    path: &str,
    prop_name: &str,
    errors: &mut Vec<ValidationError>,
)
    ensures
        errs_view(final(errors)@) == errs_view(old(errors)@)
            + relationship_errors(model_manager.spec_models(), *val, type_ref@, context_namespace@, path@, prop_name@),
{
    let uri = match val.as_str() {
        Some(uri) => uri,
        None => {
            let shown = render_found_value(val);
            let message = concat3("'", prop_name, "' should be relationship string, got ");
            let mut message = message;
            message.append(shown.as_str());
            push_error(errors, new_error(String::from_str(path), message, ErrorKind::InvalidRelationship));
            return;
        }
    };
    let declared_target = match resolve_in_context(model_manager, type_ref, context_namespace) {
        Ok(decl) => decl,
        Err(_) => {
            let message = concat3("relationship target '", type_ref, "' isn't loaded");
            push_error(errors, new_error(String::from_str(path), message, ErrorKind::UnknownType));
            return;
        }
    };
    let actual_type = match parse_relationship_uri(uri) {
        Some(t) => t,
        None => {
            let d = debug_text(uri);
            let message = concat4("'", prop_name, "' should look like resource:Type#id, got ", d.as_str());
            push_error(errors, new_error(String::from_str(path), message, ErrorKind::InvalidRelationship));
            return;
        }
    };
    let actual_target = match resolve(model_manager, actual_type.as_str()) {
        Ok(decl) => decl,
        Err(_) => {
            let mut message = concat5("'", prop_name, "' points at '", actual_type.as_str(), "', but that type isn't loaded");
            push_error(errors, new_error(String::from_str(path), message, ErrorKind::UnknownType));
            return;
        }
    };
    if !str_eq(actual_target.namespace(), declared_target.namespace()) || !str_eq(actual_target.name(), declared_target.name()) {
        let declared_fqn = dotted(declared_target.namespace(), declared_target.name());
        let actual_fqn = dotted(actual_target.namespace(), actual_target.name());
        let mut message = concat5("'", prop_name, "' should point to '", declared_fqn.as_str(), "', got '");
        message.append(actual_fqn.as_str());
        message.append("'");
        push_error(errors, new_error(String::from_str(path), message, ErrorKind::InvalidRelationship));
    } else {
        assert(errs_view(errors@) =~= errs_view(old(errors)@) + Seq::<ErrView>::empty());
    }
}

/// A list of strings shown with `{:?}`.
fn debug_strings(values: &Vec<String>) -> (r: String)
    ensures
        r@ == debug_list(strings_view(values@)),
{
    let mut out = String::from_str("[");
    let n = values.len();
    let mut i: usize = 0;
    while i < n
        invariant
            n == values@.len(),
            i <= n,
            out@ == "["@ + debug_items(strings_view(values@).take(i as int)),
        decreases n - i,
    {
        let ghost vs = strings_view(values@);
        assert(vs.take(i + 1).drop_last() =~= vs.take(i as int));
        assert(vs.take(i + 1).last() == values@[i as int]@);
        let d = debug_text(values[i].as_str());
        if i > 0 {
            out.append(", ");
        } else {
            assert(vs.take(1) =~= seq![vs[0]]);
        }
        out.append(d.as_str());
        i = i + 1;
    }
    assert(strings_view(values@).take(n as int) =~= strings_view(values@));
    out.append("]");
    out
}

/// A copy of a list of strings.
fn copy_strings(values: &Vec<String>) -> (r: Vec<String>)
    ensures
        strings_view(r@) == strings_view(values@),
{
    let mut out: Vec<String> = Vec::new();
    let n = values.len();
    let mut i: usize = 0;
    while i < n
        invariant
            n == values@.len(),
            i <= n,
            out@.len() == i,
            forall|j: int| 0 <= j < i ==> out@[j]@ == values@[j]@,
        decreases n - i,
    {
        let c = values[i].clone();
        assert(c@ == values@[i as int]@);
        out.push(c);
        i = i + 1;
    }
    assert(strings_view(out@) =~= strings_view(values@));
    out
}

/// Appends the error an enum value gets where it is not one of the
/// declared names.
fn validate_enum_value(val: &JsonValue, enum_decl: &EnumDeclaration, path: &str, prop_name: &str, errors: &mut Vec<ValidationError>)
    ensures
        errs_view(final(errors)@) == errs_view(old(errors)@) + enum_errors(*val, *enum_decl, path@, prop_name@),
{
    match val.as_str() {
        Some(enum_val) => {
            let values = &enum_decl.values;
            let n = values.len();
            let mut found = false;
            let mut i: usize = 0;
            while i < n
                invariant
                    n == values@.len(),
                    i <= n,
                    found <==> exists|j: int| 0 <= j < i && values@[j]@ == enum_val@,
                decreases n - i,
            {
                if str_eq(values[i].as_str(), enum_val) {
                    found = true;
                }
                i = i + 1;
            }
            proof {
                let vs = strings_view(values@);
                if found {
                    let j = choose|j: int| 0 <= j < n && values@[j]@ == enum_val@;
                    assert(vs[j] == enum_val@);
                } else {
                    assert forall|j: int| 0 <= j < vs.len() implies vs[j] != enum_val@ by {
                        assert(vs[j] == values@[j]@);
                    }
                }
            }
            if !found {
                let listed = debug_strings(values);
                let d = debug_text(enum_val);
                let mut message = concat4("'", prop_name, "' should be one of ", listed.as_str());
                message.append(", got ");
                message.append(d.as_str());
                let valid_values = copy_strings(values);
                push_error(errors, new_error(String::from_str(path), message, ErrorKind::InvalidEnumValue { valid_values }));
            } else {
                assert(errs_view(errors@) =~= errs_view(old(errors)@) + Seq::<ErrView>::empty());
            }
        }
        None => {
            let e = type_mismatch(path, "String (Enum)", val, prop_name);
            push_error(errors, e);
        }
    }
}

/// Appends the errors a map key gets from the map's key type.
fn validate_map_key(key_type: &PropertyType, map_key: &str, path: &str, prop_name: &str, errors: &mut Vec<ValidationError>)
    ensures
        errs_view(final(errors)@) == errs_view(old(errors)@) + map_key_errors(*key_type, map_key@, path@, prop_name@),
{
    match key_type {
        PropertyType::String(validator) => {
            let key_errors = validate_string(map_key, validator, path, prop_name);
            append_errors(errors, key_errors);
        }
        PropertyType::DateTime => {
            if !is_rfc3339(map_key) {
                let d = debug_text(map_key);
                let message = concat4("map key for '", prop_name, "' should be rfc3339 datetime, got ", d.as_str());
                let e = new_error(
                    String::from_str(path),
                    message,
                    ErrorKind::TypeMismatch {
                        expected: String::from_str("DateTime (RFC 3339)"),
                        found: String::from_str("String"),
                    },
                );
                push_error(errors, e);
            } else {
                assert(errs_view(errors@) =~= errs_view(old(errors)@) + Seq::<ErrView>::empty());
            }
        }
        _ => {
            let described = key_type.describe();
            let message = concat5("map '", prop_name, "' has key type '", described.as_str(), "' but json keys are strings");
            let e = new_error(
                String::from_str(path),
                message,
                ErrorKind::TypeMismatch { expected: String::from_str("String-compatible key type"), found: key_type.describe() },
            );
            push_error(errors, e);
        }
    }
}

/// The first property named `name`.
fn find_prop<'a>(props: &Vec<&'a Property>, name: &str) -> (r: Option<&'a Property>)
    ensures
        match r {
            Some(p) => prop_index(derefs(props@), name@) matches Some(j) && 0 <= j < props@.len() && *p == derefs(props@)[j],
            None => prop_index(derefs(props@), name@) is None,
        },
{
    let ghost ps = derefs(props@);
    let n = props.len();
    let mut i: usize = 0;
    while i < n
        invariant
            n == props@.len(),
            ps == derefs(props@),
            i <= n,
            prop_index(ps.take(i as int), name@) is None,
        decreases n - i,
    {
        assert(ps.take(i + 1).drop_last() =~= ps.take(i as int));
        if str_eq(props[i].name.as_str(), name) {
            assert(prop_index(ps.take(i + 1), name@) == Some(i as int));
            proof { crate::declaration::lemma_prop_index_extends(ps, name@, i + 1); }
            return Some(props[i]);
        }
        i = i + 1;
    }
    assert(ps.take(n as int) =~= ps);
    None
}

/// Appends an error for each required property that the object lacks.
fn check_missing_properties(instance: &JsonValue, props: &Vec<&Property>, path: &str, errors: &mut Vec<ValidationError>)
    ensures
        errs_view(final(errors)@) == errs_view(old(errors)@) + missing_errors(*instance, derefs(props@), path@),
{
    let ghost ps = derefs(props@);
    let n = props.len();
    let mut i: usize = 0;
    assert(errs_view(errors@) =~= errs_view(old(errors)@) + missing_errors(*instance, ps.take(0), path@));
    while i < n
        invariant
            n == props@.len(),
            ps == derefs(props@),
            i <= n,
            errs_view(errors@) == errs_view(old(errors)@) + missing_errors(*instance, ps.take(i as int), path@),
        decreases n - i,
    {
        assert(ps.take(i + 1).drop_last() =~= ps.take(i as int));
        let prop = props[i];
        let ghost before = errs_view(errors@);
        if !prop.is_optional && instance.get(prop.name.as_str()).is_none() {
            let name = prop.name.as_str();
            let e = new_error(
                concat3(path, ".", name),
                concat3("missing required field '", name, "'"),
                ErrorKind::MissingRequiredProperty,
            );
            push_error(errors, e);
        }
        assert(errs_view(errors@) =~= errs_view(old(errors)@) + missing_errors(*instance, ps.take(i + 1), path@));
        i = i + 1;
    }
    assert(ps.take(n as int) =~= ps);
}

/// Appends an error for each member of the object that no property
/// declares (`$class` aside).
fn check_unknown_properties(members: &Vec<(String, JsonValue)>, props: &Vec<&Property>, path: &str, errors: &mut Vec<ValidationError>)
    ensures
        errs_view(final(errors)@) == errs_view(old(errors)@) + unknown_errors(members@, derefs(props@), path@),
{
    let n = members.len();
    let mut i: usize = 0;
    assert(errs_view(errors@) =~= errs_view(old(errors)@) + unknown_errors(members@.take(0), derefs(props@), path@));
    while i < n
        invariant
            n == members@.len(),
            i <= n,
            errs_view(errors@) == errs_view(old(errors)@) + unknown_errors(members@.take(i as int), derefs(props@), path@),
        decreases n - i,
    {
        assert(members@.take(i + 1).drop_last() =~= members@.take(i as int));
        let key = members[i].0.as_str();
        if !str_eq(key, "$class") && find_prop(props, key).is_none() {
            let e = new_error(concat3(path, ".", key), concat3("'", key, "' isn't declared here"), ErrorKind::UnknownProperty);
            push_error(errors, e);
        }
        assert(errs_view(errors@) =~= errs_view(old(errors)@) + unknown_errors(members@.take(i + 1), derefs(props@), path@));
        i = i + 1;
    }
    assert(members@.take(n as int) =~= members@);
}


/// The errors that a result holds (none for an error).
pub open spec fn ok_errs(r: Result<Seq<ErrView>, ErrorView>) -> Seq<ErrView> {
    match r {
        Ok(es) => es,
        Err(_) => Seq::empty(),
    }
}

proof fn lemma_chain_assoc(a: Seq<ErrView>, b: Seq<ErrView>, r: Result<Seq<ErrView>, ErrorView>)
    ensures
        chain(a, chain(b, r)) == chain(a + b, r),
{
    match r {
        Ok(es) => { assert(a + (b + es) =~= (a + b) + es); }
        Err(_) => {}
    }
}

/// Checks the object's `$class` against the requested type (see
/// `class_check`); returns the declaration to validate the object
/// against, if any.
fn resolve_class<'a>(
    model_manager: &'a ModelManager,
    instance: &JsonValue,
    path: &str,
    requested_name: &str,
    errors: &mut Vec<ValidationError>,
) -> (r: Result<Option<&'a Declaration>, ConcertoError>)
    ensures
        match class_check(model_manager.spec_models(), *instance, requested_name@, path@) {
            Ok((es, found)) => errs_view(final(errors)@) == errs_view(old(errors)@) + es && match found {
                None => r matches Ok(o) && o is None,
                Some(d) => r matches Ok(o) && o matches Some(x) && *x == d,
            },
            Err(e) => r matches Err(x) && x@ == e,
        },
        r matches Ok(Some(d)) ==> all_decls(model_manager.spec_models()).contains(*d),
{
    let ghost ms = model_manager.spec_models();
    let class_path = concat2(path, ".$class");
    let class_name = match instance.str_member("$class") {
        Some(class_name) => class_name,
        None => {
            let e = new_error(class_path, String::from_str("missing required field '$class'"), ErrorKind::MissingRequiredProperty);
            push_error(errors, e);
            return Ok(None);
        }
    };
    let actual_decl = match resolve(model_manager, class_name) {
        Ok(decl) => decl,
        Err(_) => {
            let e = new_error(class_path, concat3("can't resolve '", class_name, "'"), ErrorKind::UnknownType);
            push_error(errors, e);
            return Ok(None);
        }
    };
    proof { lemma_resolved_in(ms, class_name@); }
    let requested_decl = match resolve(model_manager, requested_name) {
        Ok(decl) => decl,
        Err(e) => return Err(e),
    };
    let assignable = match is_assignable_to(model_manager, actual_decl, requested_decl) {
        Ok(b) => b,
        Err(ConcertoError::CircularDependency(fqn)) => return Err(ConcertoError::CircularDependency(fqn)),
        Err(error) => {
            let shown = error.to_string();
            let e = new_error(class_path, concat2("supertype walk blew up: ", shown.as_str()), ErrorKind::UnknownType);
            push_error(errors, e);
            return Ok(None);
        }
    };
    if !assignable {
        let requested_fqn = dotted(requested_decl.namespace(), requested_decl.name());
        let mut message = concat4("'$class' is '", class_name, "', expected '", requested_fqn.as_str());
        message.append("'");
        let e = new_error(
            class_path,
            message,
            ErrorKind::TypeMismatch { expected: requested_fqn, found: String::from_str(class_name) },
        );
        push_error(errors, e);
        return Ok(None);
    }
    let is_abstract = match actual_decl.class() {
        Some(c) => c.is_abstract,
        None => false,
    };
    if is_abstract {
        let actual_fqn = dotted(actual_decl.namespace(), actual_decl.name());
        let e = new_error(
            class_path,
            concat3("can't instantiate abstract type '", actual_fqn.as_str(), "'"),
            ErrorKind::AbstractTypeInstantiation,
        );
        push_error(errors, e);
    } else {
        assert(errs_view(errors@) =~= errs_view(old(errors)@) + Seq::<ErrView>::empty());
    }
    Ok(Some(actual_decl))
}

/// Validates an object against the type named `requested_name` (see
/// `object_result`).
fn validate_object(
    model_manager: &ModelManager,
    instance: &JsonValue,
    requested_name: &str,
    path: &str,
    errors: &mut Vec<ValidationError>,
) -> (r: Result<(), ConcertoError>)
    ensures
        match object_result(model_manager.spec_models(), *instance, requested_name@, path@) {
            Ok(es) => r is Ok && errs_view(final(errors)@) == errs_view(old(errors)@) + es,
            Err(e) => r matches Err(x) && x@ == e,
        },
    decreases *instance, 4int, 0int,
{
    let ghost ms = model_manager.spec_models();
    let members = match instance {
        JsonValue::Object(members) => members,
        _ => {
            let shown = render_found_value(instance);
            let e = new_error(
                String::from_str(path),
                concat2("expected object, got ", shown.as_str()),
                ErrorKind::TypeMismatch { expected: String::from_str("Object"), found: String::from_str(json_type_name(instance)) },
            );
            push_error(errors, e);
            return Ok(());
        }
    };
    let ghost e0 = errs_view(errors@);
    let decl = match resolve_class(model_manager, instance, path, requested_name, errors) {
        Ok(Some(decl)) => decl,
        Ok(None) => return Ok(()),
        Err(e) => return Err(e),
    };
    let ghost e1 = errs_view(errors@);
    let props = match collect_properties(model_manager, decl, errors) {
        Ok(props) => props,
        Err(ConcertoError::CircularDependency(fqn)) => return Err(ConcertoError::CircularDependency(fqn)),
        Err(error) => {
            let shown = error.to_string();
            let e = new_error(
                concat2(path, ".$class"),
                concat2("couldn't collect props: ", shown.as_str()),
                ErrorKind::UnknownType,
            );
            push_error(errors, e);
            return Ok(());
        }
    };
    let ghost e2 = errs_view(errors@);
    check_missing_properties(instance, &props, path, errors);
    let ghost e3 = errs_view(errors@);
    check_unknown_properties(members, &props, path, errors);
    let ghost e4 = errs_view(errors@);
    let r = validate_present_properties(model_manager, instance, &props, path, errors);
    proof {
        let pre = e4.skip(e0.len() as int);
        assert(e4 =~= e0 + pre);
        match present_result(ms, *instance, derefs(props@), path@, 0) {
            Ok(es) => { assert(errs_view(errors@) =~= e0 + (pre + es)); }
            Err(_) => {}
        }
    }
    r
}

/// Validates each member of an object against the property of its name.
fn validate_present_properties(
    model_manager: &ModelManager,
    instance: &JsonValue,
    props: &Vec<&Property>,
    path: &str,
    errors: &mut Vec<ValidationError>,
) -> (r: Result<(), ConcertoError>)
    ensures
        match present_result(model_manager.spec_models(), *instance, derefs(props@), path@, 0) {
            Ok(es) => r is Ok && errs_view(final(errors)@) == errs_view(old(errors)@) + es,
            Err(e) => r matches Err(x) && x@ == e,
        },
    decreases *instance, 3int, 0int,
{
    let ghost ms = model_manager.spec_models();
    let ghost ps = derefs(props@);
    let members = match instance {
        JsonValue::Object(members) => members,
        _ => {
            assert(errs_view(errors@) =~= errs_view(old(errors)@) + Seq::<ErrView>::empty());
            return Ok(());
        }
    };
    let n = members.len();
    let mut i: usize = 0;
    let ghost mut acc: Seq<ErrView> = Seq::empty();
    assert(chain(acc, present_result(ms, *instance, ps, path@, 0)) == present_result(ms, *instance, ps, path@, 0)) by {
        match present_result(ms, *instance, ps, path@, 0) {
            Ok(es) => { assert(acc + es =~= es); }
            Err(_) => {}
        }
    }
    assert(errs_view(errors@) =~= errs_view(old(errors)@) + acc);
    while i < n
        invariant
            n == members@.len(),
            i <= n,
            *instance == JsonValue::Object(*members),
            ms == model_manager.spec_models(),
            ps == derefs(props@),
            errs_view(errors@) == errs_view(old(errors)@) + acc,
            present_result(ms, *instance, ps, path@, 0) == chain(acc, present_result(ms, *instance, ps, path@, i as int)),
        decreases n - i,
    {
        let name = members[i].0.as_str();
        let val = &members[i].1;
        if !str_eq(name, "$class") {
            match find_prop(props, name) {
                None => {}
                Some(prop) => {
                    let skip = prop.is_optional && match val { JsonValue::Null => true, _ => false };
                    if !skip {
                        let prop_path = concat3(path, ".", name);
                        let ghost before = errs_view(errors@);
                        assert(decreases_to!(*instance => members@[i as int].1));
                        match validate_property(model_manager, val, prop, prop_path.as_str(), errors) {
                            Ok(()) => {
                                proof {
                                    let es = ok_errs(property_result(ms, *val, *prop, prop_path@));
                                    lemma_chain_assoc(acc, es, present_result(ms, *instance, ps, path@, i + 1));
                                    assert(errs_view(errors@) =~= errs_view(old(errors)@) + (acc + es));
                                    acc = acc + es;
                                }
                            }
                            Err(e) => {
                                return Err(e);
                            }
                        }
                    }
                }
            }
        }
        i = i + 1;
    }
    proof {
        match present_result(ms, *instance, ps, path@, n as int) {
            Ok(es) => { assert(acc + es =~= acc); }
            Err(_) => {}
        }
    }
    Ok(())
}

/// Validates one member value against its property: an array item by
/// item, any other value as it is.
fn validate_property(
    model_manager: &ModelManager,
    val: &JsonValue,
    prop: &Property,
    path: &str,
    errors: &mut Vec<ValidationError>,
) -> (r: Result<(), ConcertoError>)
    ensures
        match property_result(model_manager.spec_models(), *val, *prop, path@) {
            Ok(es) => r is Ok && errs_view(final(errors)@) == errs_view(old(errors)@) + es,
            Err(e) => r matches Err(x) && x@ == e,
        },
    decreases *val, 9int, 0int,
{
    let ghost ms = model_manager.spec_models();
    if prop.is_array {
        match val {
            JsonValue::Array(items) => {
                let n = items.len();
                let mut i: usize = 0;
                let ghost mut acc: Seq<ErrView> = Seq::empty();
                assert(chain(acc, items_result(ms, *val, *prop, path@, 0)) == items_result(ms, *val, *prop, path@, 0)) by {
                    match items_result(ms, *val, *prop, path@, 0) {
                        Ok(es) => { assert(acc + es =~= es); }
                        Err(_) => {}
                    }
                }
                assert(errs_view(errors@) =~= errs_view(old(errors)@) + acc);
                while i < n
                    invariant
                        n == items@.len(),
                        i <= n,
                        *val == JsonValue::Array(*items),
                        ms == model_manager.spec_models(),
                        errs_view(errors@) == errs_view(old(errors)@) + acc,
                        items_result(ms, *val, *prop, path@, 0) == chain(acc, items_result(ms, *val, *prop, path@, i as int)),
                        property_result(ms, *val, *prop, path@) == items_result(ms, *val, *prop, path@, 0),
                    decreases n - i,
                {
                    let open_bracket = concat2(path, "[");
                    let item_path = with_number(open_bracket.as_str(), i, "]");
                    assert(decreases_to!(*val => items@[i as int]));
                    match validate_type(model_manager, &items[i], &prop.property_type, prop.declaring_namespace.as_str(),
                        item_path.as_str(), prop.name.as_str(), errors) {
                        Ok(()) => {
                            proof {
                                let es = ok_errs(type_result(ms, items@[i as int], prop.property_type, prop.declaring_namespace@,
                                    item_path@, prop.name@));
                                lemma_chain_assoc(acc, es, items_result(ms, *val, *prop, path@, i + 1));
                                assert(errs_view(errors@) =~= errs_view(old(errors)@) + (acc + es));
                                acc = acc + es;
                            }
                        }
                        Err(e) => {
                            return Err(e);
                        }
                    }
                    i = i + 1;
                }
                proof {
                    match items_result(ms, *val, *prop, path@, n as int) {
                        Ok(es) => { assert(acc + es =~= acc); }
                        Err(_) => {}
                    }
                }
                Ok(())
            }
            _ => {
                let shown = render_found_value(val);
                let mut message = concat3("'", prop.name.as_str(), "' should be array, got ");
                message.append(shown.as_str());
                let e = new_error(
                    String::from_str(path),
                    message,
                    ErrorKind::TypeMismatch { expected: String::from_str("Array"), found: String::from_str(json_type_name(val)) },
                );
                push_error(errors, e);
                Ok(())
            }
        }
    } else if match val { JsonValue::Array(_) => true, _ => false } {
        let described = prop.property_type.describe();
        let message = concat5("'", prop.name.as_str(), "' should be ", described.as_str(), ", got array");
        let e = new_error(
            String::from_str(path),
            message,
            ErrorKind::TypeMismatch { expected: prop.property_type.describe(), found: String::from_str("Array") },
        );
        push_error(errors, e);
        Ok(())
    } else {
        validate_type(model_manager, val, &prop.property_type, prop.declaring_namespace.as_str(), path, prop.name.as_str(), errors)
    }
}

/// Validates a value against a property type.
fn validate_type(
    model_manager: &ModelManager,
    val: &JsonValue,
    prop_type: &PropertyType,
    context_namespace: &str,
    path: &str,
    prop_name: &str,
    errors: &mut Vec<ValidationError>,
) -> (r: Result<(), ConcertoError>)
    ensures
        match type_result(model_manager.spec_models(), *val, *prop_type, context_namespace@, path@, prop_name@) {
            Ok(es) => r is Ok && errs_view(final(errors)@) == errs_view(old(errors)@) + es,
            Err(e) => r matches Err(x) && x@ == e,
        },
    decreases *val, 7int, 0int,
{
    match prop_type {
        PropertyType::Relationship { type_ref } => {
            validate_relationship(model_manager, val, type_ref.as_str(), context_namespace, path, prop_name, errors);
            Ok(())
        }
        PropertyType::ObjectRef { type_ref } => {
            validate_object_ref(model_manager, val, type_ref.as_str(), context_namespace, path, prop_name, errors)
        }
        _ => {
            validate_primitive(val, prop_type, path, prop_name, errors);
            Ok(())
        }
    }
}

/// Validates a value against a named type: an enum, a class-like type, a
/// scalar or a map.
fn validate_object_ref(
    model_manager: &ModelManager,
    val: &JsonValue,
    type_ref: &str,
    context_namespace: &str,
    path: &str,
    prop_name: &str,
    errors: &mut Vec<ValidationError>,
) -> (r: Result<(), ConcertoError>)
    ensures
        match object_ref_result(model_manager.spec_models(), *val, type_ref@, context_namespace@, path@, prop_name@) {
            Ok(es) => r is Ok && errs_view(final(errors)@) == errs_view(old(errors)@) + es,
            Err(e) => r matches Err(x) && x@ == e,
        },
    decreases *val, 6int, 0int,
{
    let decl = match resolve_in_context(model_manager, type_ref, context_namespace) {
        Ok(decl) => decl,
        Err(_) => {
            let e = new_error(String::from_str(path), concat3("can't resolve '", type_ref, "'"), ErrorKind::UnknownType);
            push_error(errors, e);
            return Ok(());
        }
    };
    match decl {
        Declaration::Enum(enum_decl) => {
            validate_enum_value(val, enum_decl, path, prop_name, errors);
            Ok(())
        }
        Declaration::Scalar(scalar_decl) => {
            validate_primitive(val, &scalar_decl.scalar_type, path, prop_name, errors);
            Ok(())
        }
        Declaration::MapDecl(map_decl) => validate_map(model_manager, val, map_decl, path, prop_name, errors),
        _ => match val {
            JsonValue::Object(_) => {
                let expected_fqn = dotted(decl.namespace(), decl.name());
                validate_object(model_manager, val, expected_fqn.as_str(), path, errors)
            }
            _ => {
                let e = type_mismatch(path, "Object", val, prop_name);
                push_error(errors, e);
                Ok(())
            }
        },
    }
}

/// Validates a map value: each key against the key type, each value
/// against the value type.
fn validate_map(
    model_manager: &ModelManager,
    val: &JsonValue,
    map_decl: &MapDeclaration,
    path: &str,
    prop_name: &str,
    errors: &mut Vec<ValidationError>,
) -> (r: Result<(), ConcertoError>)
    ensures
        match map_result(model_manager.spec_models(), *val, *map_decl, path@, prop_name@, 0) {
            Ok(es) => r is Ok && errs_view(final(errors)@) == errs_view(old(errors)@) + es,
            Err(e) => r matches Err(x) && x@ == e,
        },
    decreases *val, 5int, 0int,
{
    let ghost ms = model_manager.spec_models();
    let members = match val {
        JsonValue::Object(members) => members,
        _ => {
            let e = type_mismatch(path, "Object", val, prop_name);
            push_error(errors, e);
            return Ok(());
        }
    };
    let n = members.len();
    let mut i: usize = 0;
    let ghost mut acc: Seq<ErrView> = Seq::empty();
    assert(chain(acc, map_result(ms, *val, *map_decl, path@, prop_name@, 0)) == map_result(ms, *val, *map_decl, path@, prop_name@, 0)) by {
        match map_result(ms, *val, *map_decl, path@, prop_name@, 0) {
            Ok(es) => { assert(acc + es =~= es); }
            Err(_) => {}
        }
    }
    assert(errs_view(errors@) =~= errs_view(old(errors)@) + acc);
    while i < n
        invariant
            n == members@.len(),
            i <= n,
            *val == JsonValue::Object(*members),
            ms == model_manager.spec_models(),
            errs_view(errors@) == errs_view(old(errors)@) + acc,
            map_result(ms, *val, *map_decl, path@, prop_name@, 0)
                == chain(acc, map_result(ms, *val, *map_decl, path@, prop_name@, i as int)),
        decreases n - i,
    {
        let map_key = members[i].0.as_str();
        let shown_key = debug_text(map_key);
        let key_path = concat4(path, "[", shown_key.as_str(), "]");
        let ghost before = errs_view(errors@);
        validate_map_key(&map_decl.key_type, map_key, key_path.as_str(), prop_name, errors);
        let ghost key_errs = map_key_errors(map_decl.key_type, map_key@, key_path@, prop_name@);
        let value_path = concat3(path, ".", map_key);
        assert(decreases_to!(*val => members@[i as int].1));
        match validate_type(model_manager, &members[i].1, &map_decl.value_type, map_decl.namespace.as_str(),
            value_path.as_str(), prop_name, errors) {
            Ok(()) => {
                proof {
                    let es = ok_errs(type_result(ms, members@[i as int].1, map_decl.value_type, map_decl.namespace@,
                        value_path@, prop_name@));
                    lemma_chain_assoc(acc, key_errs + es, map_result(ms, *val, *map_decl, path@, prop_name@, i + 1));
                    assert(errs_view(errors@) =~= errs_view(old(errors)@) + (acc + (key_errs + es)));
                    acc = acc + (key_errs + es);
                }
            }
            Err(e) => {
                return Err(e);
            }
        }
        i = i + 1;
    }
    proof {
        match map_result(ms, *val, *map_decl, path@, prop_name@, n as int) {
            Ok(es) => { assert(acc + es =~= acc); }
            Err(_) => {}
        }
    }
    Ok(())
}

/// Validates a JSON value against a named Concerto type and collects every
/// error found. `requested_name` should be fully qualified, like
/// `"org.example@1.0.0.Person"`. Where the requested type does not resolve
/// (`TypeNotFound`, `NamespaceNotFound`), or a supertype chain loops back on
/// itself (`CircularDependency`), that error is returned instead.
pub fn validate_instance(model_manager: &ModelManager, instance: &JsonValue, requested_name: &str) -> (r: Result<ValidationResult, ConcertoError>)
    ensures
        match validation(model_manager.spec_models(), *instance, requested_name@) {
            Ok(es) => r matches Ok(res) && errs_view(res.errors@) == es && res.valid == (es.len() == 0),
            Err(e) => r matches Err(x) && x@ == e,
        },
{
    match resolve(model_manager, requested_name) {
        Ok(_) => {}
        Err(e) => return Err(e),
    }
    let mut errors: Vec<ValidationError> = Vec::new();
    assert(errs_view(errors@) =~= Seq::<ErrView>::empty());
    match validate_object(model_manager, instance, requested_name, "$", &mut errors) {
        Ok(()) => {}
        Err(e) => return Err(e),
    }
    assert(errs_view(errors@).len() == errors@.len());
    let valid = errors.len() == 0;
    Ok(ValidationResult { valid, errors })
}


/// A relationship URI built as `resource:<Type>#<id>` names `<Type>`,
/// where the type is non-empty and holds no `#`, and the id is non-empty.
pub proof fn lemma_relationship_uri_names_type(t: Seq<char>, id: Seq<char>)
    requires
        t.len() > 0,
        id.len() > 0,
        forall|j: int| 0 <= j < t.len() ==> t[j] != '#',
    ensures
        relationship_type("resource:"@ + t + "#"@ + id) == Some(t),
{
    reveal_strlit("resource:");
    reveal_strlit("#");
    let uri = "resource:"@ + t + "#"@ + id;
    assert(uri.take(9) =~= "resource:"@);
    let rest = uri.skip(9);
    assert(rest =~= t + "#"@ + id);
    crate::text::lemma_first_index_at(rest, '#', t.len() as int);
    assert(rest.take(t.len() as int) =~= t);
}


/// Where the requested type does not resolve, validation stops with the
/// resolution error before looking at the instance, whatever it is.
pub proof fn lemma_unresolved_request_is_error(ms: Seq<ModelFile>, v: JsonValue, tn: Seq<char>)
    requires
        spec_resolve_type(ms, tn) is Err,
    ensures
        validation(ms, v, tn) == Err::<Seq<ErrView>, ErrorView>(spec_resolve_type(ms, tn)->Err_0),
{
}

/// An object without a `$class` string gets exactly one error, at
/// `<path>.$class`.
pub proof fn lemma_missing_class_single_error(ms: Seq<ModelFile>, v: JsonValue, tn: Seq<char>, path: Seq<char>)
    requires
        v is Object,
        v.spec_str_member("$class"@) is None,
    ensures
        object_result(ms, v, tn, path) == Ok::<Seq<ErrView>, ErrorView>(seq![verr(
            path + ".$class"@,
            "missing required field '$class'"@,
            KindView::MissingRequiredProperty,
        )]),
{
}


/// A class that names itself as its supertype loops back at once: an
/// instance of it validated against any other type stops with
/// `CircularDependency` for the class's name.
pub proof fn lemma_self_supertype_is_circular(ms: Seq<ModelFile>, v: JsonValue, tn: Seq<char>, actual: Declaration, req: Declaration)
    requires
        v is Object,
        v.spec_str_member("$class"@) matches Some(cn) && spec_resolve_type(ms, cn) == Ok::<Declaration, ErrorView>(actual),
        spec_resolve_type(ms, tn) == Ok::<Declaration, ErrorView>(req),
        actual.spec_class() matches Some(c) && c.super_type matches Some(st)
            && spec_resolve_in_context(ms, st@, c.namespace@) == Ok::<Declaration, ErrorView>(actual),
        !(actual.spec_namespace() == req.spec_namespace() && actual.spec_name() == req.spec_name()),
    ensures
        validation(ms, v, tn) == Err::<Seq<ErrView>, ErrorView>(ErrorView::CircularDependency(actual.spec_fqn())),
{
    let f = actual.spec_fqn();
    let visited = Seq::<Seq<char>>::empty().push(f);
    assert(visited.contains(f)) by { assert(visited[0] == f); }
    assert(!Seq::<Seq<char>>::empty().contains(f));
    let n = crate::validator::hierarchy::walk_fuel(ms);
    assert(crate::validator::hierarchy::supertype_walk(ms, actual, req, visited, (n - 1) as nat)
        == Err::<bool, ErrorView>(ErrorView::CircularDependency(f)));
    assert(assignable(ms, actual, req) == Err::<bool, ErrorView>(ErrorView::CircularDependency(f)));
}


proof fn lemma_lookup_insert(members: Seq<(String, JsonValue)>, p: int, kx: (String, JsonValue), key: Seq<char>)
    requires
        0 <= p <= members.len(),
        kx.0@ != key,
    ensures
        member_lookup(members.insert(p, kx), key) == member_lookup(members, key),
    decreases p,
{
    let m2 = members.insert(p, kx);
    if p == 0 {
        assert(m2[0] == kx);
        assert(m2.skip(1) =~= members);
    } else {
        assert(m2[0] == members[0]);
        assert(m2.skip(1) =~= members.skip(1).insert(p - 1, kx));
        lemma_lookup_insert(members.skip(1), p - 1, kx, key);
    }
}

proof fn lemma_missing_same(v: JsonValue, v2: JsonValue, props: Seq<Property>, path: Seq<char>)
    requires
        forall|i: int| 0 <= i < props.len() ==> v2.spec_get(#[trigger] props[i].name@) == v.spec_get(props[i].name@),
    ensures
        missing_errors(v2, props, path) == missing_errors(v, props, path),
    decreases props.len(),
{
    if props.len() > 0 {
        let rest = props.drop_last();
        assert forall|i: int| 0 <= i < rest.len() implies v2.spec_get(#[trigger] rest[i].name@) == v.spec_get(rest[i].name@) by {
            assert(rest[i] == props[i]);
        }
        assert(v2.spec_get(props[props.len() - 1].name@) == v.spec_get(props[props.len() - 1].name@));
        lemma_missing_same(v, v2, rest, path);
    }
}

proof fn lemma_unknown_concat(a: Seq<(String, JsonValue)>, b: Seq<(String, JsonValue)>, props: Seq<Property>, path: Seq<char>)
    ensures
        unknown_errors(a + b, props, path) == unknown_errors(a, props, path) + unknown_errors(b, props, path),
    decreases b.len(),
{
    if b.len() == 0 {
        assert(a + b =~= a);
        assert(unknown_errors(a, props, path) + unknown_errors(b, props, path) =~= unknown_errors(a, props, path));
    } else {
        assert((a + b).drop_last() =~= a + b.drop_last());
        assert((a + b).last() == b.last());
        lemma_unknown_concat(a, b.drop_last(), props, path);
        assert(unknown_errors(a + b, props, path) =~= unknown_errors(a, props, path) + unknown_errors(b, props, path));
    }
}

proof fn lemma_present_after(
    ms: Seq<ModelFile>, v: JsonValue, v2: JsonValue, props: Seq<Property>, path: Seq<char>,
    p: int, kx: (String, JsonValue), i: int,
)
    requires
        v is Object,
        v2 is Object,
        0 <= p <= v->Object_0@.len(),
        v2->Object_0@ == v->Object_0@.insert(p, kx),
        p <= i <= v->Object_0@.len(),
    ensures
        present_result(ms, v2, props, path, i + 1) == present_result(ms, v, props, path, i),
    decreases v->Object_0@.len() - i,
{
    let m = v->Object_0@;
    let m2 = v2->Object_0@;
    if i < m.len() {
        assert(m2[i + 1] == m[i]);
        lemma_present_after(ms, v, v2, props, path, p, kx, i + 1);
    }
}

proof fn lemma_present_before(
    ms: Seq<ModelFile>, v: JsonValue, v2: JsonValue, props: Seq<Property>, path: Seq<char>,
    p: int, kx: (String, JsonValue), i: int,
)
    requires
        v is Object,
        v2 is Object,
        0 <= p <= v->Object_0@.len(),
        v2->Object_0@ == v->Object_0@.insert(p, kx),
        0 <= i <= p,
        kx.0@ != "$class"@,
        prop_index(props, kx.0@) is None,
    ensures
        present_result(ms, v2, props, path, i) == present_result(ms, v, props, path, i),
    decreases p - i,
{
    let m = v->Object_0@;
    let m2 = v2->Object_0@;
    if i == p {
        assert(m2[p] == kx);
        lemma_present_after(ms, v, v2, props, path, p, kx, p);
    } else {
        assert(m2[i] == m[i]);
        lemma_present_before(ms, v, v2, props, path, p, kx, i + 1);
    }
}

/// The unknown-member errors of an object with one more member `kx` at
/// position `p`: the old ones with one error for `kx` put among them.
proof fn lemma_unknown_with_member(m: Seq<(String, JsonValue)>, p: int, kx: (String, JsonValue), props: Seq<Property>, path: Seq<char>)
    requires
        0 <= p <= m.len(),
        kx.0@ != "$class"@,
        prop_index(props, kx.0@) is None,
    ensures
        unknown_errors(m.insert(p, kx), props, path) == unknown_errors(m.take(p), props, path)
            + seq![verr(path + "."@ + kx.0@, "'"@ + kx.0@ + "' isn't declared here"@, KindView::UnknownProperty)]
            + unknown_errors(m.skip(p), props, path),
        unknown_errors(m, props, path) == unknown_errors(m.take(p), props, path) + unknown_errors(m.skip(p), props, path),
{
    let k = kx.0@;
    let err = verr(path + "."@ + k, "'"@ + k + "' isn't declared here"@, KindView::UnknownProperty);
    assert(m.insert(p, kx) =~= m.take(p) + seq![kx] + m.skip(p));
    assert(m =~= m.take(p) + m.skip(p));
    lemma_unknown_concat(m.take(p) + seq![kx], m.skip(p), props, path);
    lemma_unknown_concat(m.take(p), seq![kx], props, path);
    lemma_unknown_concat(m.take(p), m.skip(p), props, path);
    let single = seq![kx];
    assert(single.drop_last() =~= Seq::<(String, JsonValue)>::empty());
    assert(single.last() == kx);
    assert(unknown_errors(Seq::<(String, JsonValue)>::empty(), props, path) =~= Seq::<ErrView>::empty());
    assert(unknown_errors(single, props, path) == unknown_errors(single.drop_last(), props, path) + seq![err]);
    assert(unknown_errors(single, props, path) =~= seq![err]);
}

/// The object-level part of `lemma_unknown_member_adds_one_error`.
#[verifier::spinoff_prover]
#[verifier::rlimit(30)]
proof fn lemma_object_with_member(
    ms: Seq<ModelFile>,
    v: JsonValue,
    v2: JsonValue,
    tn: Seq<char>,
    p: int,
    kx: (String, JsonValue),
) -> (q: int)
    requires
        v is Object,
        v2 is Object,
        0 <= p <= v->Object_0@.len(),
        v2->Object_0@ == v->Object_0@.insert(p, kx),
        kx.0@ != "$class"@,
        class_check(ms, v, tn, "$"@) matches Ok((_, found)) && found matches Some(actual)
            && inherited_props(ms, actual, Seq::empty(), walk_fuel(ms)).1 matches Ok(props)
            && prop_index(props, kx.0@) is None,
        object_result(ms, v, tn, "$"@) is Ok,
    ensures
        0 <= q <= object_result(ms, v, tn, "$"@)->Ok_0.len(),
        object_result(ms, v2, tn, "$"@) == Ok::<Seq<ErrView>, ErrorView>(object_result(ms, v, tn, "$"@)->Ok_0.insert(
            q,
            verr("$"@ + "."@ + kx.0@, "'"@ + kx.0@ + "' isn't declared here"@, KindView::UnknownProperty),
        )),
{
    let m = v->Object_0@;
    let m2 = v2->Object_0@;
    let path = "$"@;
    let k = kx.0@;
    let err = verr(path + "."@ + k, "'"@ + k + "' isn't declared here"@, KindView::UnknownProperty);
    assert(class_check(ms, v2, tn, path) == class_check(ms, v, tn, path)) by {
        lemma_lookup_insert(m, p, kx, "$class"@);
    }
    let (e1, found) = class_check(ms, v, tn, path)->Ok_0;
    let actual = found.unwrap();
    let (e2, pr) = inherited_props(ms, actual, Seq::empty(), walk_fuel(ms));
    let props = pr->Ok_0;
    assert(missing_errors(v2, props, path) == missing_errors(v, props, path)) by {
        lemma_prop_index_bounds(props, k);
        assert forall|i: int| 0 <= i < props.len() implies v2.spec_get(#[trigger] props[i].name@) == v.spec_get(props[i].name@) by {
            lemma_lookup_insert(m, p, kx, props[i].name@);
        }
        lemma_missing_same(v, v2, props, path);
    }
    lemma_unknown_with_member(m, p, kx, props, path);
    assert(present_result(ms, v2, props, path, 0) == present_result(ms, v, props, path, 0)) by {
        lemma_present_before(ms, v, v2, props, path, p, kx, 0);
    }
    let u1 = unknown_errors(m.take(p), props, path);
    let u2 = unknown_errors(m.skip(p), props, path);
    let pre = e1 + e2 + missing_errors(v, props, path);
    let es = present_result(ms, v, props, path, 0)->Ok_0;
    assert(object_result(ms, v, tn, path) == Ok::<Seq<ErrView>, ErrorView>(pre + (u1 + u2) + es));
    assert(object_result(ms, v2, tn, path) == Ok::<Seq<ErrView>, ErrorView>(pre + (u1 + seq![err] + u2) + es));
    let q: int = (pre.len() + u1.len()) as int;
    assert(pre + (u1 + seq![err] + u2) + es =~= (pre + (u1 + u2) + es).insert(q, err));
    q
}

/// Adding one member that no property declares (and that is not `$class`)
/// to an object whose class resolves and whose properties collect adds
/// exactly one error to its validation, `UnknownProperty` at `$.<key>`, and
/// leaves the others as they were.
pub proof fn lemma_unknown_member_adds_one_error(
    ms: Seq<ModelFile>,
    v: JsonValue,
    v2: JsonValue,
    tn: Seq<char>,
    p: int,
    kx: (String, JsonValue),
)
    requires
        v is Object,
        v2 is Object,
        0 <= p <= v->Object_0@.len(),
        v2->Object_0@ == v->Object_0@.insert(p, kx),
        kx.0@ != "$class"@,
        class_check(ms, v, tn, "$"@) matches Ok((_, found)) && found matches Some(actual)
            && inherited_props(ms, actual, Seq::empty(), walk_fuel(ms)).1 matches Ok(props)
            && prop_index(props, kx.0@) is None,
        validation(ms, v, tn) is Ok,
    ensures
        validation(ms, v2, tn) matches Ok(es2) && exists|q: int| 0 <= q <= validation(ms, v, tn)->Ok_0.len()
            && es2 == validation(ms, v, tn)->Ok_0.insert(
                q,
                verr("$"@ + "."@ + kx.0@, "'"@ + kx.0@ + "' isn't declared here"@, KindView::UnknownProperty),
            ),
{
    let q = lemma_object_with_member(ms, v, v2, tn, p, kx);
    let err = verr("$"@ + "."@ + kx.0@, "'"@ + kx.0@ + "' isn't declared here"@, KindView::UnknownProperty);
    let es1 = validation(ms, v, tn)->Ok_0;
    assert(es1 == object_result(ms, v, tn, "$"@)->Ok_0);
    assert(validation(ms, v2, tn)->Ok_0 == es1.insert(q, err));
}


/// The value of a JSON integer that fits in an `i64`.
pub open spec fn integer_value(v: JsonValue) -> Option<i64> {
    match v {
        JsonValue::Number(n) => n.spec_as_i64(),
        _ => None,
    }
}

/// Integer and Long values are checked alike: a JSON integer that fits in
/// an `i64` gets exactly the bound errors of its value (the same for both
/// kinds, see `lemma_bounds_checked_independently`), so a value above the
/// upper bound is reported as such; any other value gets one type mismatch
/// naming the kind.
pub proof fn lemma_integer_and_long_bounds(v: JsonValue, nv: Option<NumericValidator<i64>>, path: Seq<char>, name: Seq<char>)
    ensures
        integer_value(v) matches Some(x) ==>
            primitive_errors(v, PropertyType::Long(nv), path, name) == numeric_errors(x, nv, path, name),
        integer_value(v) matches Some(x) ==>
            primitive_errors(v, PropertyType::Integer(nv), path, name) == numeric_errors(x, nv, path, name),
        integer_value(v) matches Some(x) ==> (nv is Some && nv.unwrap().upper is Some && nv.unwrap().upper.unwrap() < x ==> {
            let errs = primitive_errors(v, PropertyType::Long(nv), path, name);
            &&& errs.len() >= 1
            &&& errs[errs.len() - 1] == verr(
                path,
                "'"@ + name + "' is "@ + int_text(x as int) + ", max is "@ + int_text(nv.unwrap().upper.unwrap() as int),
                KindView::ConstraintViolation("upper="@ + int_text(nv.unwrap().upper.unwrap() as int)),
            )
        }),
        integer_value(v) matches Some(x) ==> (nv is Some && nv.unwrap().lower is Some && x < nv.unwrap().lower.unwrap() ==> {
            let errs = primitive_errors(v, PropertyType::Long(nv), path, name);
            &&& errs.len() >= 1
            &&& errs[0] == verr(
                path,
                "'"@ + name + "' is "@ + int_text(x as int) + ", min is "@ + int_text(nv.unwrap().lower.unwrap() as int),
                KindView::ConstraintViolation("lower="@ + int_text(nv.unwrap().lower.unwrap() as int)),
            )
        }),
        integer_value(v) is None ==> primitive_errors(v, PropertyType::Long(nv), path, name) == seq![mismatch(path, "Long"@, v, name)],
        integer_value(v) is None ==> primitive_errors(v, PropertyType::Integer(nv), path, name) == seq![mismatch(path, "Integer"@, v, name)],
{
    if let JsonValue::Number(n) = v {
        if let Some(x) = n.spec_as_i64() {
            if let Some(b) = nv {
                crate::validator::numeric_validator::lemma_bounds_checked_independently(x, b, path, name);
            }
        }
    }
}

} // verus!
