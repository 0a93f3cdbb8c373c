//! Loads Concerto models from metamodel JSON.
//!
//! Unknown declaration kinds are skipped; missing required fields are
//! errors.

use vstd::prelude::*;
use crate::json::{JsonValue, serde_json_parse};
use crate::number::Dec;
use crate::declaration::{
    ClassDeclaration, Declaration, EnumDeclaration, MapDeclaration, ScalarDeclaration,
    ClassView, EnumView, ScalarView, MapView, DeclarationView, props_map, insert_property};
use crate::error::{ConcertoError, ErrorView};
use crate::external::{regex_build_error, regex_error};
use crate::model_file::{Imports, ImportsView, ModelFile, ModelFileView, decls_map};
use crate::model_manager::{model_wf};
use crate::property::{
    BoundValue, NumericValidator, Property, PropertyType, PropertyTypeView, PropertyView,
    StringValidator, StringValidatorView};
use crate::text::{concat3, concat4, concat5, decimal_text, dotted, str_eq, with_number};

verus! {

// ---------------------------------------------------------------------
// What each part of a model document loads to
// ---------------------------------------------------------------------

/// A referenced type name: `namespace.name` where the reference names a
/// non-empty namespace, else `name` alone (resolved later against imports).
pub open spec fn spec_type_name(node: Option<JsonValue>) -> Option<Seq<char>> {
    match node {
        None => None,
        Some(t) => match t.spec_str_member("name"@) {
            None => None,
            Some(name) => match t.spec_str_member("namespace"@) {
                Some(ns) => if ns.len() > 0 { Some(ns + "."@ + name) } else { Some(name) },
                None => Some(name),
            },
        },
    }
}

/// `v`'s `min`/`max` member `key` as a length.
pub open spec fn spec_length_member(v: JsonValue, key: Seq<char>) -> Option<usize> {
    match v.spec_u64_member(key) {
        Some(n) => Some(n as usize),
        None => None,
    }
}

/// A string validator node.
pub open spec fn spec_string_validator(node: Option<JsonValue>) -> Result<Option<StringValidatorView>, ErrorView> {
    match node {
        None => Ok(None),
        Some(v) => match v.spec_str_member("$class"@) {
            None => Err(ErrorView::Parse("validator is missing '$class'"@)),
            Some(c) => if c == "concerto.metamodel@1.0.0.StringRegexValidator"@ {
                match v.spec_str_member("pattern"@) {
                    None => Err(ErrorView::Parse("StringRegexValidator is missing 'pattern'"@)),
                    Some(p) => match regex_build_error(p) {
                        Some(e) => Err(ErrorView::Semantic("bad regex '"@ + p + "': "@ + e)),
                        None => Ok(Some(StringValidatorView { regex: Some(p), min_length: None, max_length: None })),
                    },
                }
            } else if c == "concerto.metamodel@1.0.0.StringLengthValidator"@ {
                let min = spec_length_member(v, "minLength"@);
                let max = spec_length_member(v, "maxLength"@);
                if min is None && max is None {
                    Err(ErrorView::Parse("StringLengthValidator needs 'minLength', 'maxLength', or both"@))
                } else {
                    Ok(Some(StringValidatorView { regex: None, min_length: min, max_length: max }))
                }
            } else {
                Err(ErrorView::Parse("unsupported string validator $class '"@ + c + "'"@))
            },
        },
    }
}

/// The validators of a string scalar: the regex one under `validator`
/// and the length one under `lengthValidator`, merged.
pub open spec fn spec_string_scalar_validator(root: JsonValue) -> Result<Option<StringValidatorView>, ErrorView> {
    match spec_string_validator(root.spec_get("validator"@)) {
        Err(e) => Err(e),
        Ok(rv) => match spec_string_validator(root.spec_get("lengthValidator"@)) {
            Err(e) => Err(e),
            Ok(lv) => {
                let regex = match rv { Some(v) => v.regex, None => None };
                let min = match lv { Some(v) => v.min_length, None => None };
                let max = match lv { Some(v) => v.max_length, None => None };
                if regex is None && min is None && max is None {
                    Ok(None)
                } else {
                    Ok(Some(StringValidatorView { regex, min_length: min, max_length: max }))
                }
            },
        },
    }
}

/// Bounds are refused where the lower one exceeds the upper one.
pub open spec fn spec_numeric_bounds<T: BoundValue>(lower: Option<T>, upper: Option<T>, label: Seq<char>) -> Result<(), ErrorView> {
    match (lower, upper) {
        (Some(l), Some(u)) => if u.spec_less(l) {
            Err(ErrorView::Semantic(label + " range is backwards: "@ + l.spec_text() + " > "@ + u.spec_text()))
        } else {
            Ok(())
        },
        _ => Ok(()),
    }
}

/// An Integer or Long domain validator node.
pub open spec fn spec_integer_validator(node: Option<JsonValue>) -> Result<Option<NumericValidator<i64>>, ErrorView> {
    match node {
        None => Ok(None),
        Some(v) => match v.spec_str_member("$class"@) {
            None => Err(ErrorView::Parse("validator is missing '$class'"@)),
            Some(c) => if c != "concerto.metamodel@1.0.0.IntegerDomainValidator"@
                && c != "concerto.metamodel@1.0.0.LongDomainValidator"@ {
                Err(ErrorView::Parse("unsupported integer validator $class '"@ + c + "'"@))
            } else {
                let lower = v.spec_i64_member("lower"@);
                let upper = v.spec_i64_member("upper"@);
                match spec_numeric_bounds(lower, upper, "integer"@) {
                    Err(e) => Err(e),
                    Ok(_) => Ok(Some(NumericValidator { lower, upper })),
                }
            },
        },
    }
}

/// A Double domain validator node.
pub open spec fn spec_double_validator(node: Option<JsonValue>) -> Result<Option<NumericValidator<Dec>>, ErrorView> {
    match node {
        None => Ok(None),
        Some(v) => match v.spec_str_member("$class"@) {
            None => Err(ErrorView::Parse("validator is missing '$class'"@)),
            Some(c) => if c != "concerto.metamodel@1.0.0.DoubleDomainValidator"@ {
                Err(ErrorView::Parse("unsupported double validator $class '"@ + c + "'"@))
            } else {
                let lower = v.spec_dec_member("lower"@);
                let upper = v.spec_dec_member("upper"@);
                match spec_numeric_bounds(lower, upper, "double"@) {
                    Err(e) => Err(e),
                    Ok(_) => Ok(Some(NumericValidator { lower, upper })),
                }
            },
        },
    }
}

/// The type of a property node with metamodel class `c`.
pub open spec fn spec_property_type(v: JsonValue, c: Seq<char>, name: Seq<char>, decl_name: Seq<char>) -> Result<PropertyTypeView, ErrorView> {
    let validator = v.spec_get("validator"@);
    let ty = spec_type_name(v.spec_get("type"@));
    if c == "concerto.metamodel@1.0.0.StringProperty"@ {
        match spec_string_validator(validator) { Err(e) => Err(e), Ok(x) => Ok(PropertyTypeView::String(x)) }
    } else if c == "concerto.metamodel@1.0.0.BooleanProperty"@ {
        Ok(PropertyTypeView::Boolean)
    } else if c == "concerto.metamodel@1.0.0.IntegerProperty"@ {
        match spec_integer_validator(validator) { Err(e) => Err(e), Ok(x) => Ok(PropertyTypeView::Integer(x)) }
    } else if c == "concerto.metamodel@1.0.0.LongProperty"@ {
        match spec_integer_validator(validator) { Err(e) => Err(e), Ok(x) => Ok(PropertyTypeView::Long(x)) }
    } else if c == "concerto.metamodel@1.0.0.DoubleProperty"@ {
        match spec_double_validator(validator) { Err(e) => Err(e), Ok(x) => Ok(PropertyTypeView::Double(x)) }
    } else if c == "concerto.metamodel@1.0.0.DateTimeProperty"@ {
        Ok(PropertyTypeView::DateTime)
    } else if c == "concerto.metamodel@1.0.0.ObjectProperty"@ {
        match ty {
            Some(t) => Ok(PropertyTypeView::ObjectRef(t)),
            None => Err(ErrorView::Parse("object property '"@ + name + "' in '"@ + decl_name + "' is missing 'type'"@)),
        }
    } else if c == "concerto.metamodel@1.0.0.RelationshipProperty"@ {
        match ty {
            Some(t) => Ok(PropertyTypeView::Relationship(t)),
            None => Err(ErrorView::Parse("relationship property '"@ + name + "' in '"@ + decl_name + "' is missing 'type'"@)),
        }
    } else if c == "concerto.metamodel@1.0.0.EnumProperty"@ {
        match ty {
            Some(t) => Ok(PropertyTypeView::ObjectRef(t)),
            None => Ok(PropertyTypeView::String(None)),
        }
    } else {
        Err(ErrorView::Parse("unknown property $class '"@ + c + "'"@))
    }
}

/// A property node of declaration `decl_name` in namespace `ns`.
pub open spec fn spec_property(v: JsonValue, ns: Seq<char>, decl_name: Seq<char>) -> Result<PropertyView, ErrorView> {
    match v.spec_str_member("$class"@) {
        None => Err(ErrorView::Parse("property in '"@ + decl_name + "' is missing '$class'"@)),
        Some(c) => match v.spec_str_member("name"@) {
            None => Err(ErrorView::Parse("property in '"@ + decl_name + "' is missing 'name'"@)),
            Some(name) => match spec_property_type(v, c, name, decl_name) {
                Err(e) => Err(e),
                Ok(t) => Ok(PropertyView {
                    name,
                    declaring_namespace: ns,
                    is_optional: match v.spec_bool_member("isOptional"@) { Some(b) => b, None => false },
                    is_array: match v.spec_bool_member("isArray"@) { Some(b) => b, None => false },
                    property_type: t,
                }),
            },
        },
    }
}

/// The name of declaration number `index`.
pub open spec fn spec_decl_name(v: JsonValue, index: nat) -> Result<Seq<char>, ErrorView> {
    match v.spec_str_member("name"@) {
        Some(n) => Ok(n),
        None => Err(ErrorView::Parse("declaration #"@ + decimal_text(index) + " is missing 'name'"@)),
    }
}

/// The properties of a class, later ones in place of earlier ones of the
/// same name.
pub open spec fn spec_properties(nodes: Seq<JsonValue>, ns: Seq<char>, decl_name: Seq<char>) -> Result<Map<Seq<char>, PropertyView>, ErrorView>
    decreases nodes.len(),
{
    if nodes.len() == 0 {
        Ok(Map::empty())
    } else {
        match spec_properties(nodes.drop_last(), ns, decl_name) {
            Err(e) => Err(e),
            Ok(m) => match spec_property(nodes.last(), ns, decl_name) {
                Err(e) => Err(e),
                Ok(p) => Ok(m.insert(p.name, p)),
            },
        }
    }
}

/// A concept-like declaration node.
pub open spec fn spec_class_decl(v: JsonValue, ns: Seq<char>, index: nat) -> Result<ClassView, ErrorView> {
    match spec_decl_name(v, index) {
        Err(e) => Err(e),
        Ok(name) => {
            let props = match v.spec_array_member("properties"@) {
                Some(nodes) => spec_properties(nodes, ns, name),
                None => Ok(Map::empty()),
            };
            match props {
                Err(e) => Err(e),
                Ok(p) => Ok(ClassView {
                    name,
                    namespace: ns,
                    is_abstract: match v.spec_bool_member("isAbstract"@) { Some(b) => b, None => false },
                    super_type: spec_type_name(v.spec_get("superType"@)),
                    properties: p,
                }),
            }
        },
    }
}

/// The value names of an enum.
pub open spec fn spec_enum_values(nodes: Seq<JsonValue>, decl_name: Seq<char>) -> Result<Seq<Seq<char>>, ErrorView>
    decreases nodes.len(),
{
    if nodes.len() == 0 {
        Ok(Seq::empty())
    } else {
        match spec_enum_values(nodes.drop_last(), decl_name) {
            Err(e) => Err(e),
            Ok(vs) => match nodes.last().spec_str_member("name"@) {
                None => Err(ErrorView::Parse("property in '"@ + decl_name + "' is missing 'name'"@)),
                Some(n) => Ok(vs.push(n)),
            },
        }
    }
}

/// An enum declaration node.
pub open spec fn spec_enum_decl(v: JsonValue, ns: Seq<char>, index: nat) -> Result<EnumView, ErrorView> {
    match spec_decl_name(v, index) {
        Err(e) => Err(e),
        Ok(name) => {
            let values = match v.spec_array_member("properties"@) {
                Some(nodes) => spec_enum_values(nodes, name),
                None => Ok(Seq::empty()),
            };
            match values {
                Err(e) => Err(e),
                Ok(vs) => Ok(EnumView { name, namespace: ns, values: vs }),
            }
        },
    }
}

/// The metamodel classes of scalar declarations.
pub open spec fn is_scalar_class(c: Seq<char>) -> bool {
    c == "concerto.metamodel@1.0.0.BooleanScalar"@ || c == "concerto.metamodel@1.0.0.IntegerScalar"@
        || c == "concerto.metamodel@1.0.0.LongScalar"@ || c == "concerto.metamodel@1.0.0.DoubleScalar"@
        || c == "concerto.metamodel@1.0.0.StringScalar"@ || c == "concerto.metamodel@1.0.0.DateTimeScalar"@
}

/// A scalar declaration node of metamodel class `c`.
pub open spec fn spec_scalar_decl(v: JsonValue, ns: Seq<char>, index: nat, c: Seq<char>) -> Result<ScalarView, ErrorView> {
    match spec_decl_name(v, index) {
        Err(e) => Err(e),
        Ok(name) => {
            let validator = v.spec_get("validator"@);
            let t = if c == "concerto.metamodel@1.0.0.BooleanScalar"@ {
                Ok(PropertyTypeView::Boolean)
            } else if c == "concerto.metamodel@1.0.0.IntegerScalar"@ {
                match spec_integer_validator(validator) { Err(e) => Err(e), Ok(x) => Ok(PropertyTypeView::Integer(x)) }
            } else if c == "concerto.metamodel@1.0.0.LongScalar"@ {
                match spec_integer_validator(validator) { Err(e) => Err(e), Ok(x) => Ok(PropertyTypeView::Long(x)) }
            } else if c == "concerto.metamodel@1.0.0.DoubleScalar"@ {
                match spec_double_validator(validator) { Err(e) => Err(e), Ok(x) => Ok(PropertyTypeView::Double(x)) }
            } else if c == "concerto.metamodel@1.0.0.StringScalar"@ {
                match spec_string_scalar_validator(v) { Err(e) => Err(e), Ok(x) => Ok(PropertyTypeView::String(x)) }
            } else if c == "concerto.metamodel@1.0.0.DateTimeScalar"@ {
                Ok(PropertyTypeView::DateTime)
            } else {
                Err(ErrorView::Parse("unknown scalar $class '"@ + c + "'"@))
            };
            match t {
                Err(e) => Err(e),
                Ok(t) => Ok(ScalarView { name, namespace: ns, scalar_type: t }),
            }
        },
    }
}

/// A map key or value type node.
pub open spec fn spec_map_endpoint(v: JsonValue) -> Result<PropertyTypeView, ErrorView> {
    match v.spec_str_member("$class"@) {
        None => Err(ErrorView::Parse("JSON node is missing '$class'"@)),
        Some(c) => {
            let ty = spec_type_name(v.spec_get("type"@));
            if c == "concerto.metamodel@1.0.0.StringMapKeyType"@ || c == "concerto.metamodel@1.0.0.StringMapValueType"@ {
                Ok(PropertyTypeView::String(None))
            } else if c == "concerto.metamodel@1.0.0.DateTimeMapKeyType"@ || c == "concerto.metamodel@1.0.0.DateTimeMapValueType"@ {
                Ok(PropertyTypeView::DateTime)
            } else if c == "concerto.metamodel@1.0.0.BooleanMapValueType"@ {
                Ok(PropertyTypeView::Boolean)
            } else if c == "concerto.metamodel@1.0.0.IntegerMapValueType"@ {
                Ok(PropertyTypeView::Integer(None))
            } else if c == "concerto.metamodel@1.0.0.LongMapValueType"@ {
                Ok(PropertyTypeView::Long(None))
            } else if c == "concerto.metamodel@1.0.0.DoubleMapValueType"@ {
                Ok(PropertyTypeView::Double(None))
            } else if c == "concerto.metamodel@1.0.0.ObjectMapKeyType"@ || c == "concerto.metamodel@1.0.0.ObjectMapValueType"@ {
                match ty {
                    Some(t) => Ok(PropertyTypeView::ObjectRef(t)),
                    None => Err(ErrorView::Parse("object map endpoint is missing 'type'"@)),
                }
            } else if c == "concerto.metamodel@1.0.0.RelationshipMapValueType"@ {
                match ty {
                    Some(t) => Ok(PropertyTypeView::Relationship(t)),
                    None => Err(ErrorView::Parse("relationship map endpoint is missing 'type'"@)),
                }
            } else {
                Err(ErrorView::Parse("unsupported map endpoint $class '"@ + c + "'"@))
            }
        },
    }
}

/// A map declaration node.
pub open spec fn spec_map_decl(v: JsonValue, ns: Seq<char>, index: nat) -> Result<MapView, ErrorView> {
    match spec_decl_name(v, index) {
        Err(e) => Err(e),
        Ok(name) => match v.spec_get("key"@) {
            None => Err(ErrorView::Parse("map declaration is missing 'key'"@)),
            Some(k) => match spec_map_endpoint(k) {
                Err(e) => Err(e),
                Ok(kt) => match v.spec_get("value"@) {
                    None => Err(ErrorView::Parse("map declaration is missing 'value'"@)),
                    Some(x) => match spec_map_endpoint(x) {
                        Err(e) => Err(e),
                        Ok(vt) => Ok(MapView { name, namespace: ns, key_type: kt, value_type: vt }),
                    },
                },
            },
        },
    }
}

/// Declaration node number `index`: `None` for a kind this loader skips.
pub open spec fn spec_declaration(v: JsonValue, ns: Seq<char>, index: nat) -> Result<Option<DeclarationView>, ErrorView> {
    match v.spec_str_member("$class"@) {
        None => Err(ErrorView::Parse("declaration #"@ + decimal_text(index) + " is missing '$class'"@)),
        Some(c) => if c == "concerto.metamodel@1.0.0.ConceptDeclaration"@ {
            match spec_class_decl(v, ns, index) { Err(e) => Err(e), Ok(x) => Ok(Some(DeclarationView::Concept(x))) }
        } else if c == "concerto.metamodel@1.0.0.AssetDeclaration"@ {
            match spec_class_decl(v, ns, index) { Err(e) => Err(e), Ok(x) => Ok(Some(DeclarationView::Asset(x))) }
        } else if c == "concerto.metamodel@1.0.0.ParticipantDeclaration"@ {
            match spec_class_decl(v, ns, index) { Err(e) => Err(e), Ok(x) => Ok(Some(DeclarationView::Participant(x))) }
        } else if c == "concerto.metamodel@1.0.0.TransactionDeclaration"@ {
            match spec_class_decl(v, ns, index) { Err(e) => Err(e), Ok(x) => Ok(Some(DeclarationView::Transaction(x))) }
        } else if c == "concerto.metamodel@1.0.0.EventDeclaration"@ {
            match spec_class_decl(v, ns, index) { Err(e) => Err(e), Ok(x) => Ok(Some(DeclarationView::Event(x))) }
        } else if c == "concerto.metamodel@1.0.0.EnumDeclaration"@ {
            match spec_enum_decl(v, ns, index) { Err(e) => Err(e), Ok(x) => Ok(Some(DeclarationView::Enum(x))) }
        } else if c == "concerto.metamodel@1.0.0.MapDeclaration"@ {
            match spec_map_decl(v, ns, index) { Err(e) => Err(e), Ok(x) => Ok(Some(DeclarationView::MapDecl(x))) }
        } else if is_scalar_class(c) {
            match spec_scalar_decl(v, ns, index, c) { Err(e) => Err(e), Ok(x) => Ok(Some(DeclarationView::Scalar(x))) }
        } else {
            Ok(None)
        },
    }
}

/// The declarations of a model, later ones in place of earlier ones of the
/// same name.
pub open spec fn spec_declarations(nodes: Seq<JsonValue>, ns: Seq<char>) -> Result<Map<Seq<char>, DeclarationView>, ErrorView>
    decreases nodes.len(),
{
    if nodes.len() == 0 {
        Ok(Map::empty())
    } else {
        match spec_declarations(nodes.drop_last(), ns) {
            Err(e) => Err(e),
            Ok(m) => match spec_declaration(nodes.last(), ns, (nodes.len() - 1) as nat) {
                Err(e) => Err(e),
                Ok(None) => Ok(m),
                Ok(Some(d)) => Ok(m.insert(d.name(), d)),
            },
        }
    }
}

/// The names that an `ImportTypes` entry lists under `types` (strings only).
pub open spec fn spec_import_types(im: ImportsView, ns: Seq<char>, types: Seq<JsonValue>) -> ImportsView
    decreases types.len(),
{
    if types.len() == 0 {
        im
    } else {
        let prev = spec_import_types(im, ns, types.drop_last());
        match types.last().spec_as_str() {
            Some(t) => ImportsView { explicit: prev.explicit.insert(t, ns + "."@ + t), ..prev },
            None => prev,
        }
    }
}

/// The aliases that an `ImportTypes` entry lists under `aliasedTypes`.
pub open spec fn spec_import_aliases(im: ImportsView, ns: Seq<char>, aliases: Seq<JsonValue>) -> Result<ImportsView, ErrorView>
    decreases aliases.len(),
{
    if aliases.len() == 0 {
        Ok(im)
    } else {
        match spec_import_aliases(im, ns, aliases.drop_last()) {
            Err(e) => Err(e),
            Ok(prev) => {
                let a = aliases.last();
                match a.spec_str_member("name"@) {
                    None => Err(ErrorView::Parse("aliased type is missing 'name'"@)),
                    Some(orig) => match a.spec_str_member("aliasedName"@) {
                        None => Err(ErrorView::Parse("aliased type is missing 'aliasedName'"@)),
                        Some(alias) => Ok(ImportsView { explicit: prev.explicit.insert(alias, ns + "."@ + orig), ..prev }),
                    },
                }
            },
        }
    }
}

/// One import entry, number `index`.
pub open spec fn spec_import_entry(im: ImportsView, e: JsonValue, index: nat) -> Result<ImportsView, ErrorView> {
    match e.spec_str_member("$class"@) {
        None => Err(ErrorView::Parse("import #"@ + decimal_text(index) + " is missing '$class'"@)),
        Some(c) => match e.spec_str_member("namespace"@) {
            None => Err(ErrorView::Parse("import #"@ + decimal_text(index) + " is missing 'namespace'"@)),
            Some(ns) => if c == "concerto.metamodel@1.0.0.ImportAll"@ {
                Ok(ImportsView { wildcard_namespaces: im.wildcard_namespaces.push(ns), ..im })
            } else if c == "concerto.metamodel@1.0.0.ImportType"@ {
                match e.spec_str_member("name"@) {
                    None => Err(ErrorView::Parse("ImportType #"@ + decimal_text(index) + " is missing 'name'"@)),
                    Some(n) => Ok(ImportsView { explicit: im.explicit.insert(n, ns + "."@ + n), ..im }),
                }
            } else if c == "concerto.metamodel@1.0.0.ImportTypes"@ {
                let with_types = match e.spec_array_member("types"@) {
                    Some(ts) => spec_import_types(im, ns, ts),
                    None => im,
                };
                match e.spec_array_member("aliasedTypes"@) {
                    Some(a) => spec_import_aliases(with_types, ns, a),
                    None => Ok(with_types),
                }
            } else {
                Err(ErrorView::Parse("unknown import $class '"@ + c + "'"@))
            },
        },
    }
}

/// The import entries `entries`, in order.
pub open spec fn spec_import_entries(entries: Seq<JsonValue>) -> Result<ImportsView, ErrorView>
    decreases entries.len(),
{
    if entries.len() == 0 {
        Ok(ImportsView { explicit: Map::empty(), wildcard_namespaces: Seq::empty() })
    } else {
        match spec_import_entries(entries.drop_last()) {
            Err(e) => Err(e),
            Ok(im) => spec_import_entry(im, entries.last(), (entries.len() - 1) as nat),
        }
    }
}

/// The imports of a model document.
pub open spec fn spec_imports(root: JsonValue) -> Result<ImportsView, ErrorView> {
    match root.spec_array_member("imports"@) {
        Some(entries) => spec_import_entries(entries),
        None => Ok(ImportsView { explicit: Map::empty(), wildcard_namespaces: Seq::empty() }),
    }
}

/// What a model document loads to.
pub open spec fn spec_load_model(root: JsonValue) -> Result<ModelFileView, ErrorView> {
    match root.spec_str_member("namespace"@) {
        None => Err(ErrorView::Parse("model is missing 'namespace'"@)),
        Some(ns) => match spec_imports(root) {
            Err(e) => Err(e),
            Ok(im) => {
                let decls = match root.spec_array_member("declarations"@) {
                    Some(nodes) => spec_declarations(nodes, ns),
                    None => Ok(Map::empty()),
                };
                match decls {
                    Err(e) => Err(e),
                    Ok(d) => Ok(ModelFileView { namespace: ns, imports: im, declarations: d }),
                }
            },
        },
    }
}

/// What a model text loads to; text that is not JSON is a parse error
/// carrying `serde_json`'s message.
pub open spec fn spec_load_model_text(text: Seq<char>) -> Result<ModelFileView, ErrorView> {
    match serde_json_parse(text) {
        Err(e) => Err(ErrorView::Parse(e)),
        Ok(root) => spec_load_model(root),
    }
}

// ---------------------------------------------------------------------
// The loader
// ---------------------------------------------------------------------

/// The node that an optional reference points at.
pub open spec fn deref_opt(o: Option<&JsonValue>) -> Option<JsonValue> {
    match o {
        Some(v) => Some(*v),
        None => None,
    }
}

/// The text of an optional string.
pub open spec fn opt_string_view(o: Option<String>) -> Option<Seq<char>> {
    match o {
        Some(s) => Some(s@),
        None => None,
    }
}

/// Reads a type reference: `namespace.name` where the reference names a
/// non-empty namespace, else `name` alone.
pub fn parse_type_name(node: Option<&JsonValue>) -> (r: Option<String>)
    ensures
        opt_string_view(r) == spec_type_name(deref_opt(node)),
{
    let type_id = match node {
        Some(t) => t,
        None => return None,
    };
    let name = match type_id.str_member("name") {
        Some(n) => n,
        None => return None,
    };
    match type_id.str_member("namespace") {
        Some(namespace) => {
            if namespace.unicode_len() > 0 {
                Some(dotted(namespace, name))
            } else {
                Some(String::from_str(name))
            }
        }
        None => Some(String::from_str(name)),
    }
}

fn length_member(v: &JsonValue, key: &str) -> (r: Option<usize>)
    ensures
        r == spec_length_member(*v, key@),
{
    match v.u64_member(key) {
        Some(n) => Some(n as usize),
        None => None,
    }
}

/// Reads a string validator node (regex or length).
pub fn parse_string_validator_node(node: Option<&JsonValue>) -> (r: Result<Option<StringValidator>, ConcertoError>)
    ensures
        match r {
            Ok(o) => spec_string_validator(deref_opt(node)) == Ok::<Option<StringValidatorView>, ErrorView>(
                crate::property::opt_string_validator_view(o)),
            Err(e) => spec_string_validator(deref_opt(node)) == Err::<Option<StringValidatorView>, ErrorView>(e@),
        },
{
    let validator = match node {
        Some(v) => v,
        None => return Ok(None),
    };
    let class = match validator.str_member("$class") {
        Some(c) => c,
        None => return Err(ConcertoError::Parse(String::from_str("validator is missing '$class'"))),
    };
    if str_eq(class, "concerto.metamodel@1.0.0.StringRegexValidator") {
        let pattern = match validator.str_member("pattern") {
            Some(p) => p,
            None => return Err(ConcertoError::Parse(String::from_str("StringRegexValidator is missing 'pattern'"))),
        };
        match regex_error(pattern) {
            Some(error) => Err(ConcertoError::Semantic(concat4("bad regex '", pattern, "': ", error.as_str()))),
            None => Ok(Some(StringValidator { regex: Some(String::from_str(pattern)), min_length: None, max_length: None })),
        }
    } else if str_eq(class, "concerto.metamodel@1.0.0.StringLengthValidator") {
        let min_length = length_member(validator, "minLength");
        let max_length = length_member(validator, "maxLength");
        if min_length.is_none() && max_length.is_none() {
            return Err(ConcertoError::Parse(String::from_str(
                "StringLengthValidator needs 'minLength', 'maxLength', or both")));
        }
        Ok(Some(StringValidator { regex: None, min_length, max_length }))
    } else {
        Err(ConcertoError::Parse(concat3("unsupported string validator $class '", class, "'")))
    }
}

/// Reads the validators of a string scalar: the regex one under
/// `validator` and the length one under `lengthValidator`, merged.
pub fn parse_string_scalar_validator(root: &JsonValue) -> (r: Result<Option<StringValidator>, ConcertoError>)
    ensures
        match r {
            Ok(o) => spec_string_scalar_validator(*root) == Ok::<Option<StringValidatorView>, ErrorView>(
                crate::property::opt_string_validator_view(o)),
            Err(e) => spec_string_scalar_validator(*root) == Err::<Option<StringValidatorView>, ErrorView>(e@),
        },
{
    let regex_validator = parse_string_validator_node(root.get("validator"))?;
    let length_validator = parse_string_validator_node(root.get("lengthValidator"))?;
    let regex = match regex_validator {
        Some(v) => v.regex,
        None => None,
    };
    let min_length = match &length_validator {
        Some(v) => v.min_length,
        None => None,
    };
    let max_length = match &length_validator {
        Some(v) => v.max_length,
        None => None,
    };
    if regex.is_none() && min_length.is_none() && max_length.is_none() {
        Ok(None)
    } else {
        Ok(Some(StringValidator { regex, min_length, max_length }))
    }
}

/// Refuses bounds whose lower one exceeds the upper one.
pub fn validate_numeric_bounds<T: BoundValue>(lower: Option<T>, upper: Option<T>, label: &str) -> (r: Result<(), ConcertoError>)
    ensures
        match r {
            Ok(_) => spec_numeric_bounds(lower, upper, label@) == Ok::<(), ErrorView>(()),
            Err(e) => spec_numeric_bounds(lower, upper, label@) == Err::<(), ErrorView>(e@),
        },
{
    if let (Some(l), Some(u)) = (lower, upper) {
        if u.less(&l) {
            let lt = l.text();
            let ut = u.text();
            return Err(ConcertoError::Semantic(concat5(label, " range is backwards: ", lt.as_str(), " > ", ut.as_str())));
        }
    }
    Ok(())
}

/// Reads an Integer or Long domain validator node.
pub fn parse_integer_validator_node(node: Option<&JsonValue>) -> (r: Result<Option<NumericValidator<i64>>, ConcertoError>)
    ensures
        match r {
            Ok(o) => spec_integer_validator(deref_opt(node)) == Ok::<Option<NumericValidator<i64>>, ErrorView>(o),
            Err(e) => spec_integer_validator(deref_opt(node)) == Err::<Option<NumericValidator<i64>>, ErrorView>(e@),
        },
{
    let validator = match node {
        Some(v) => v,
        None => return Ok(None),
    };
    let class = match validator.str_member("$class") {
        Some(c) => c,
        None => return Err(ConcertoError::Parse(String::from_str("validator is missing '$class'"))),
    };
    if !str_eq(class, "concerto.metamodel@1.0.0.IntegerDomainValidator")
        && !str_eq(class, "concerto.metamodel@1.0.0.LongDomainValidator") {
        return Err(ConcertoError::Parse(concat3("unsupported integer validator $class '", class, "'")));
    }
    let lower = validator.i64_member("lower");
    let upper = validator.i64_member("upper");
    validate_numeric_bounds(lower, upper, "integer")?;
    Ok(Some(NumericValidator { lower, upper }))
}

/// Reads a Double domain validator node.
pub fn parse_double_validator_node(node: Option<&JsonValue>) -> (r: Result<Option<NumericValidator<Dec>>, ConcertoError>)
    ensures
        match r {
            Ok(o) => spec_double_validator(deref_opt(node)) == Ok::<Option<NumericValidator<Dec>>, ErrorView>(o),
            Err(e) => spec_double_validator(deref_opt(node)) == Err::<Option<NumericValidator<Dec>>, ErrorView>(e@),
        },
{
    let validator = match node {
        Some(v) => v,
        None => return Ok(None),
    };
    let class = match validator.str_member("$class") {
        Some(c) => c,
        None => return Err(ConcertoError::Parse(String::from_str("validator is missing '$class'"))),
    };
    if !str_eq(class, "concerto.metamodel@1.0.0.DoubleDomainValidator") {
        return Err(ConcertoError::Parse(concat3("unsupported double validator $class '", class, "'")));
    }
    let lower = validator.dec_member("lower");
    let upper = validator.dec_member("upper");
    validate_numeric_bounds(lower, upper, "double")?;
    Ok(Some(NumericValidator { lower, upper }))
}

fn property_type(v: &JsonValue, c: &str, name: &str, decl_name: &str) -> (r: Result<PropertyType, ConcertoError>)
    ensures
        match r {
            Ok(t) => spec_property_type(*v, c@, name@, decl_name@) == Ok::<PropertyTypeView, ErrorView>(t@),
            Err(e) => spec_property_type(*v, c@, name@, decl_name@) == Err::<PropertyTypeView, ErrorView>(e@),
        },
{
    let validator = v.get("validator");
    if str_eq(c, "concerto.metamodel@1.0.0.StringProperty") {
        Ok(PropertyType::String(parse_string_validator_node(validator)?))
    } else if str_eq(c, "concerto.metamodel@1.0.0.BooleanProperty") {
        Ok(PropertyType::Boolean)
    } else if str_eq(c, "concerto.metamodel@1.0.0.IntegerProperty") {
        Ok(PropertyType::Integer(parse_integer_validator_node(validator)?))
    } else if str_eq(c, "concerto.metamodel@1.0.0.LongProperty") {
        Ok(PropertyType::Long(parse_integer_validator_node(validator)?))
    } else if str_eq(c, "concerto.metamodel@1.0.0.DoubleProperty") {
        Ok(PropertyType::Double(parse_double_validator_node(validator)?))
    } else if str_eq(c, "concerto.metamodel@1.0.0.DateTimeProperty") {
        Ok(PropertyType::DateTime)
    } else if str_eq(c, "concerto.metamodel@1.0.0.ObjectProperty") {
        match parse_type_name(v.get("type")) {
            Some(type_ref) => Ok(PropertyType::ObjectRef { type_ref }),
            None => Err(ConcertoError::Parse(concat5("object property '", name, "' in '", decl_name, "' is missing 'type'"))),
        }
    } else if str_eq(c, "concerto.metamodel@1.0.0.RelationshipProperty") {
        match parse_type_name(v.get("type")) {
            Some(type_ref) => Ok(PropertyType::Relationship { type_ref }),
            None => Err(ConcertoError::Parse(concat5("relationship property '", name, "' in '", decl_name, "' is missing 'type'"))),
        }
    } else if str_eq(c, "concerto.metamodel@1.0.0.EnumProperty") {
        // An EnumProperty inside a class: with a `type` it is checked like
        // an ObjectProperty; without one it is an unconstrained string.
        match parse_type_name(v.get("type")) {
            Some(type_ref) => Ok(PropertyType::ObjectRef { type_ref }),
            None => Ok(PropertyType::String(None)),
        }
    } else {
        Err(ConcertoError::Parse(concat3("unknown property $class '", c, "'")))
    }
}

/// Reads a property node of declaration `decl_name` in namespace `namespace`.
pub fn parse_property(val: &JsonValue, namespace: &str, decl_name: &str) -> (r: Result<Property, ConcertoError>)
    ensures
        match r {
            Ok(p) => spec_property(*val, namespace@, decl_name@) == Ok::<PropertyView, ErrorView>(p@),
            Err(e) => spec_property(*val, namespace@, decl_name@) == Err::<PropertyView, ErrorView>(e@),
        },
{
    let class = match val.str_member("$class") {
        Some(c) => c,
        None => return Err(ConcertoError::Parse(concat3("property in '", decl_name, "' is missing '$class'"))),
    };
    let name = match val.str_member("name") {
        Some(n) => n,
        None => return Err(ConcertoError::Parse(concat3("property in '", decl_name, "' is missing 'name'"))),
    };
    let is_optional = match val.bool_member("isOptional") {
        Some(b) => b,
        None => false,
    };
    let is_array = match val.bool_member("isArray") {
        Some(b) => b,
        None => false,
    };
    let property_type = property_type(val, class, name, decl_name)?;
    Ok(Property {
        name: String::from_str(name),
        declaring_namespace: String::from_str(namespace),
        is_optional,
        is_array,
        property_type,
    })
}

fn get_decl_name(val: &JsonValue, index: usize) -> (r: Result<&str, ConcertoError>)
    ensures
        match r {
            Ok(n) => spec_decl_name(*val, index as nat) == Ok::<Seq<char>, ErrorView>(n@),
            Err(e) => spec_decl_name(*val, index as nat) == Err::<Seq<char>, ErrorView>(e@),
        },
{
    match val.str_member("name") {
        Some(n) => Ok(n),
        None => Err(ConcertoError::Parse(with_number("declaration #", index, " is missing 'name'"))),
    }
}

/// Reads a concept-like declaration node.
pub fn parse_class_decl(val: &JsonValue, namespace: &str, index: usize) -> (r: Result<ClassDeclaration, ConcertoError>)
    ensures
        match r {
            Ok(c) => spec_class_decl(*val, namespace@, index as nat) == Ok::<ClassView, ErrorView>(c@),
            Err(e) => spec_class_decl(*val, namespace@, index as nat) == Err::<ClassView, ErrorView>(e@),
        },
{
    let name = get_decl_name(val, index)?;
    let is_abstract = match val.bool_member("isAbstract") {
        Some(b) => b,
        None => false,
    };
    let super_type = parse_type_name(val.get("superType"));
    let mut props: Vec<Property> = Vec::new();
    assert(props_map(props@) =~= Map::<Seq<char>, PropertyView>::empty());
    if let Some(prop_vals) = val.array_member("properties") {
        let n = prop_vals.len();
        let mut i: usize = 0;
        assert(prop_vals@.take(0) =~= Seq::<JsonValue>::empty());
        while i < n
            invariant
                n == prop_vals@.len(),
                i <= n,
                val.spec_array_member("properties"@) == Some(prop_vals@),
                spec_decl_name(*val, index as nat) == Ok::<Seq<char>, ErrorView>(name@),
                spec_properties(prop_vals@.take(i as int), namespace@, name@)
                    == Ok::<Map<Seq<char>, PropertyView>, ErrorView>(props_map(props@)),
            decreases n - i,
        {
            assert(prop_vals@.take(i + 1).drop_last() =~= prop_vals@.take(i as int));
            let prop = match parse_property(&prop_vals[i], namespace, name) {
                Ok(p) => p,
                Err(e) => {
                    proof { lemma_properties_err(prop_vals@, namespace@, name@, i + 1); }
                    return Err(e);
                }
            };
            insert_property(&mut props, prop);
            i = i + 1;
        }
        assert(prop_vals@.take(n as int) =~= prop_vals@);
    }
    Ok(ClassDeclaration {
        name: String::from_str(name),
        namespace: String::from_str(namespace),
        is_abstract,
        super_type,
        properties: props,
    })
}

proof fn lemma_properties_err(nodes: Seq<JsonValue>, ns: Seq<char>, d: Seq<char>, k: int)
    requires
        0 <= k <= nodes.len(),
        spec_properties(nodes.take(k), ns, d) is Err,
    ensures
        spec_properties(nodes, ns, d) == spec_properties(nodes.take(k), ns, d),
    decreases nodes.len() - k,
{
    if k < nodes.len() {
        assert(nodes.take(k + 1).drop_last() =~= nodes.take(k));
        lemma_properties_err(nodes, ns, d, k + 1);
    } else {
        assert(nodes.take(k) =~= nodes);
    }
}

/// Reads an enum declaration node.
pub fn parse_enum_decl(val: &JsonValue, namespace: &str, index: usize) -> (r: Result<EnumDeclaration, ConcertoError>)
    ensures
        match r {
            Ok(d) => spec_enum_decl(*val, namespace@, index as nat) == Ok::<EnumView, ErrorView>(d@),
            Err(e) => spec_enum_decl(*val, namespace@, index as nat) == Err::<EnumView, ErrorView>(e@),
        },
{
    let name = get_decl_name(val, index)?;
    let mut values: Vec<String> = Vec::new();
    if let Some(props) = val.array_member("properties") {
        let n = props.len();
        let mut i: usize = 0;
        assert(props@.take(0) =~= Seq::<JsonValue>::empty());
        assert(values@.map_values(|v: String| v@) =~= Seq::<Seq<char>>::empty());
        while i < n
            invariant
                n == props@.len(),
                i <= n,
                val.spec_array_member("properties"@) == Some(props@),
                spec_decl_name(*val, index as nat) == Ok::<Seq<char>, ErrorView>(name@),
                spec_enum_values(props@.take(i as int), name@)
                    == Ok::<Seq<Seq<char>>, ErrorView>(values@.map_values(|v: String| v@)),
            decreases n - i,
        {
            assert(props@.take(i + 1).drop_last() =~= props@.take(i as int));
            match props[i].str_member("name") {
                Some(p) => {
                    let ghost before = values@;
                    values.push(String::from_str(p));
                    assert(values@.map_values(|v: String| v@) =~= before.map_values(|v: String| v@).push(p@));
                }
                None => {
                    proof { lemma_enum_values_err(props@, name@, i + 1); }
                    return Err(ConcertoError::Parse(concat3("property in '", name, "' is missing 'name'")));
                }
            }
            i = i + 1;
        }
        assert(props@.take(n as int) =~= props@);
    } else {
        assert(values@.map_values(|v: String| v@) =~= Seq::<Seq<char>>::empty());
    }
    Ok(EnumDeclaration { name: String::from_str(name), namespace: String::from_str(namespace), values })
}

proof fn lemma_enum_values_err(nodes: Seq<JsonValue>, d: Seq<char>, k: int)
    requires
        0 <= k <= nodes.len(),
        spec_enum_values(nodes.take(k), d) is Err,
    ensures
        spec_enum_values(nodes, d) == spec_enum_values(nodes.take(k), d),
    decreases nodes.len() - k,
{
    if k < nodes.len() {
        assert(nodes.take(k + 1).drop_last() =~= nodes.take(k));
        lemma_enum_values_err(nodes, d, k + 1);
    } else {
        assert(nodes.take(k) =~= nodes);
    }
}

/// Reads a scalar declaration node of metamodel class `class`.
pub fn parse_scalar_decl(val: &JsonValue, namespace: &str, index: usize, class: &str) -> (r: Result<ScalarDeclaration, ConcertoError>)
    ensures
        match r {
            Ok(d) => spec_scalar_decl(*val, namespace@, index as nat, class@) == Ok::<ScalarView, ErrorView>(d@)
                && d.scalar_type.is_primitive(),
            Err(e) => spec_scalar_decl(*val, namespace@, index as nat, class@) == Err::<ScalarView, ErrorView>(e@),
        },
{
    let name = get_decl_name(val, index)?;
    let validator = val.get("validator");
    let scalar_type = if str_eq(class, "concerto.metamodel@1.0.0.BooleanScalar") {
        PropertyType::Boolean
    } else if str_eq(class, "concerto.metamodel@1.0.0.IntegerScalar") {
        PropertyType::Integer(parse_integer_validator_node(validator)?)
    } else if str_eq(class, "concerto.metamodel@1.0.0.LongScalar") {
        PropertyType::Long(parse_integer_validator_node(validator)?)
    } else if str_eq(class, "concerto.metamodel@1.0.0.DoubleScalar") {
        PropertyType::Double(parse_double_validator_node(validator)?)
    } else if str_eq(class, "concerto.metamodel@1.0.0.StringScalar") {
        PropertyType::String(parse_string_scalar_validator(val)?)
    } else if str_eq(class, "concerto.metamodel@1.0.0.DateTimeScalar") {
        PropertyType::DateTime
    } else {
        return Err(ConcertoError::Parse(concat3("unknown scalar $class '", class, "'")));
    };
    Ok(ScalarDeclaration { name: String::from_str(name), namespace: String::from_str(namespace), scalar_type })
}

/// Reads a map key or value type node.
pub fn parse_map_endpoint(val: &JsonValue) -> (r: Result<PropertyType, ConcertoError>)
    ensures
        match r {
            Ok(t) => spec_map_endpoint(*val) == Ok::<PropertyTypeView, ErrorView>(t@),
            Err(e) => spec_map_endpoint(*val) == Err::<PropertyTypeView, ErrorView>(e@),
        },
{
    let c = match val.str_member("$class") {
        Some(c) => c,
        None => return Err(ConcertoError::Parse(String::from_str("JSON node is missing '$class'"))),
    };
    if str_eq(c, "concerto.metamodel@1.0.0.StringMapKeyType") || str_eq(c, "concerto.metamodel@1.0.0.StringMapValueType") {
        Ok(PropertyType::String(None))
    } else if str_eq(c, "concerto.metamodel@1.0.0.DateTimeMapKeyType") || str_eq(c, "concerto.metamodel@1.0.0.DateTimeMapValueType") {
        Ok(PropertyType::DateTime)
    } else if str_eq(c, "concerto.metamodel@1.0.0.BooleanMapValueType") {
        Ok(PropertyType::Boolean)
    } else if str_eq(c, "concerto.metamodel@1.0.0.IntegerMapValueType") {
        Ok(PropertyType::Integer(None))
    } else if str_eq(c, "concerto.metamodel@1.0.0.LongMapValueType") {
        Ok(PropertyType::Long(None))
    } else if str_eq(c, "concerto.metamodel@1.0.0.DoubleMapValueType") {
        Ok(PropertyType::Double(None))
    } else if str_eq(c, "concerto.metamodel@1.0.0.ObjectMapKeyType") || str_eq(c, "concerto.metamodel@1.0.0.ObjectMapValueType") {
        match parse_type_name(val.get("type")) {
            Some(type_ref) => Ok(PropertyType::ObjectRef { type_ref }),
            None => Err(ConcertoError::Parse(String::from_str("object map endpoint is missing 'type'"))),
        }
    } else if str_eq(c, "concerto.metamodel@1.0.0.RelationshipMapValueType") {
        match parse_type_name(val.get("type")) {
            Some(type_ref) => Ok(PropertyType::Relationship { type_ref }),
            None => Err(ConcertoError::Parse(String::from_str("relationship map endpoint is missing 'type'"))),
        }
    } else {
        Err(ConcertoError::Parse(concat3("unsupported map endpoint $class '", c, "'")))
    }
}

/// Reads a map declaration node.
pub fn parse_map_decl(val: &JsonValue, namespace: &str, index: usize) -> (r: Result<MapDeclaration, ConcertoError>)
    ensures
        match r {
            Ok(d) => spec_map_decl(*val, namespace@, index as nat) == Ok::<MapView, ErrorView>(d@),
            Err(e) => spec_map_decl(*val, namespace@, index as nat) == Err::<MapView, ErrorView>(e@),
        },
{
    let name = get_decl_name(val, index)?;
    let key = match val.get("key") {
        Some(k) => k,
        None => return Err(ConcertoError::Parse(String::from_str("map declaration is missing 'key'"))),
    };
    let key_type = parse_map_endpoint(key)?;
    let value = match val.get("value") {
        Some(v) => v,
        None => return Err(ConcertoError::Parse(String::from_str("map declaration is missing 'value'"))),
    };
    let value_type = parse_map_endpoint(value)?;
    Ok(MapDeclaration { name: String::from_str(name), namespace: String::from_str(namespace), key_type, value_type })
}

/// The view of an optional declaration.
pub open spec fn opt_decl_view(o: Option<Declaration>) -> Option<DeclarationView> {
    match o {
        Some(d) => Some(d@),
        None => None,
    }
}

/// A declaration that a model may hold: a scalar only with a primitive type.
pub open spec fn decl_wf(d: Declaration) -> bool {
    d matches Declaration::Scalar(s) ==> s.scalar_type.is_primitive()
}

/// Reads declaration node number `index`; kinds this loader does not know
/// are skipped (`None`).
pub fn parse_declaration(val: &JsonValue, namespace: &str, index: usize) -> (r: Result<Option<Declaration>, ConcertoError>)
    ensures
        match r {
            Ok(o) => spec_declaration(*val, namespace@, index as nat) == Ok::<Option<DeclarationView>, ErrorView>(opt_decl_view(o))
                && (o matches Some(d) ==> decl_wf(d) && d@.name() == d.spec_name()),
            Err(e) => spec_declaration(*val, namespace@, index as nat) == Err::<Option<DeclarationView>, ErrorView>(e@),
        },
{
    let class = match val.str_member("$class") {
        Some(c) => c,
        None => return Err(ConcertoError::Parse(with_number("declaration #", index, " is missing '$class'"))),
    };
    if str_eq(class, "concerto.metamodel@1.0.0.ConceptDeclaration") {
        Ok(Some(Declaration::Concept(parse_class_decl(val, namespace, index)?)))
    } else if str_eq(class, "concerto.metamodel@1.0.0.AssetDeclaration") {
        Ok(Some(Declaration::Asset(parse_class_decl(val, namespace, index)?)))
    } else if str_eq(class, "concerto.metamodel@1.0.0.ParticipantDeclaration") {
        Ok(Some(Declaration::Participant(parse_class_decl(val, namespace, index)?)))
    } else if str_eq(class, "concerto.metamodel@1.0.0.TransactionDeclaration") {
        Ok(Some(Declaration::Transaction(parse_class_decl(val, namespace, index)?)))
    } else if str_eq(class, "concerto.metamodel@1.0.0.EventDeclaration") {
        Ok(Some(Declaration::Event(parse_class_decl(val, namespace, index)?)))
    } else if str_eq(class, "concerto.metamodel@1.0.0.EnumDeclaration") {
        Ok(Some(Declaration::Enum(parse_enum_decl(val, namespace, index)?)))
    } else if str_eq(class, "concerto.metamodel@1.0.0.MapDeclaration") {
        Ok(Some(Declaration::MapDecl(parse_map_decl(val, namespace, index)?)))
    } else if str_eq(class, "concerto.metamodel@1.0.0.BooleanScalar")
        || str_eq(class, "concerto.metamodel@1.0.0.IntegerScalar")
        || str_eq(class, "concerto.metamodel@1.0.0.LongScalar")
        || str_eq(class, "concerto.metamodel@1.0.0.DoubleScalar")
        || str_eq(class, "concerto.metamodel@1.0.0.StringScalar")
        || str_eq(class, "concerto.metamodel@1.0.0.DateTimeScalar") {
        Ok(Some(Declaration::Scalar(parse_scalar_decl(val, namespace, index, class)?)))
    } else {
        Ok(None)
    }
}

proof fn lemma_declarations_err(nodes: Seq<JsonValue>, ns: Seq<char>, k: int)
    requires
        0 <= k <= nodes.len(),
        spec_declarations(nodes.take(k), ns) is Err,
    ensures
        spec_declarations(nodes, ns) == spec_declarations(nodes.take(k), ns),
    decreases nodes.len() - k,
{
    if k < nodes.len() {
        assert(nodes.take(k + 1).drop_last() =~= nodes.take(k));
        lemma_declarations_err(nodes, ns, k + 1);
    } else {
        assert(nodes.take(k) =~= nodes);
    }
}

proof fn lemma_import_entries_err(entries: Seq<JsonValue>, k: int)
    requires
        0 <= k <= entries.len(),
        spec_import_entries(entries.take(k)) is Err,
    ensures
        spec_import_entries(entries) == spec_import_entries(entries.take(k)),
    decreases entries.len() - k,
{
    if k < entries.len() {
        assert(entries.take(k + 1).drop_last() =~= entries.take(k));
        lemma_import_entries_err(entries, k + 1);
    } else {
        assert(entries.take(k) =~= entries);
    }
}

proof fn lemma_aliases_err(im: ImportsView, ns: Seq<char>, a: Seq<JsonValue>, k: int)
    requires
        0 <= k <= a.len(),
        spec_import_aliases(im, ns, a.take(k)) is Err,
    ensures
        spec_import_aliases(im, ns, a) == spec_import_aliases(im, ns, a.take(k)),
    decreases a.len() - k,
{
    if k < a.len() {
        assert(a.take(k + 1).drop_last() =~= a.take(k));
        lemma_aliases_err(im, ns, a, k + 1);
    } else {
        assert(a.take(k) =~= a);
    }
}

fn add_import_types(imports: &mut Imports, namespace: &str, types: &Vec<JsonValue>)
    ensures
        final(imports)@ == spec_import_types(old(imports)@, namespace@, types@),
{
    let ghost start = imports@;
    let n = types.len();
    let mut i: usize = 0;
    assert(types@.take(0) =~= Seq::<JsonValue>::empty());
    while i < n
        invariant
            n == types@.len(),
            i <= n,
            start == old(imports)@,
            imports@ == spec_import_types(start, namespace@, types@.take(i as int)),
        decreases n - i,
    {
        assert(types@.take(i + 1).drop_last() =~= types@.take(i as int));
        if let Some(ty) = types[i].as_str() {
            imports.insert_explicit(String::from_str(ty), dotted(namespace, ty));
        }
        i = i + 1;
    }
    assert(types@.take(n as int) =~= types@);
}

fn add_import_aliases(imports: &mut Imports, namespace: &str, aliases: &Vec<JsonValue>) -> (r: Result<(), ConcertoError>)
    ensures
        match r {
            Ok(_) => spec_import_aliases(old(imports)@, namespace@, aliases@) == Ok::<ImportsView, ErrorView>(final(imports)@),
            Err(e) => spec_import_aliases(old(imports)@, namespace@, aliases@) == Err::<ImportsView, ErrorView>(e@),
        },
{
    let ghost start = imports@;
    let n = aliases.len();
    let mut i: usize = 0;
    assert(aliases@.take(0) =~= Seq::<JsonValue>::empty());
    while i < n
        invariant
            n == aliases@.len(),
            i <= n,
            start == old(imports)@,
            spec_import_aliases(start, namespace@, aliases@.take(i as int)) == Ok::<ImportsView, ErrorView>(imports@),
        decreases n - i,
    {
        assert(aliases@.take(i + 1).drop_last() =~= aliases@.take(i as int));
        let alias = &aliases[i];
        let orig = match alias.str_member("name") {
            Some(o) => o,
            None => {
                proof { lemma_aliases_err(start, namespace@, aliases@, i + 1); }
                return Err(ConcertoError::Parse(String::from_str("aliased type is missing 'name'")));
            }
        };
        let alias_name = match alias.str_member("aliasedName") {
            Some(a) => a,
            None => {
                proof { lemma_aliases_err(start, namespace@, aliases@, i + 1); }
                return Err(ConcertoError::Parse(String::from_str("aliased type is missing 'aliasedName'")));
            }
        };
        imports.insert_explicit(String::from_str(alias_name), dotted(namespace, orig));
        i = i + 1;
    }
    assert(aliases@.take(n as int) =~= aliases@);
    Ok(())
}

fn add_import_entry(imports: &mut Imports, entry: &JsonValue, index: usize) -> (r: Result<(), ConcertoError>)
    ensures
        match r {
            Ok(_) => spec_import_entry(old(imports)@, *entry, index as nat) == Ok::<ImportsView, ErrorView>(final(imports)@),
            Err(e) => spec_import_entry(old(imports)@, *entry, index as nat) == Err::<ImportsView, ErrorView>(e@),
        },
{
    let class = match entry.str_member("$class") {
        Some(c) => c,
        None => return Err(ConcertoError::Parse(with_number("import #", index, " is missing '$class'"))),
    };
    let namespace = match entry.str_member("namespace") {
        Some(n) => n,
        None => return Err(ConcertoError::Parse(with_number("import #", index, " is missing 'namespace'"))),
    };
    if str_eq(class, "concerto.metamodel@1.0.0.ImportAll") {
        let ghost before = imports@;
        imports.wildcard_namespaces.push(String::from_str(namespace));
        assert(imports@.wildcard_namespaces =~= before.wildcard_namespaces.push(namespace@));
        Ok(())
    } else if str_eq(class, "concerto.metamodel@1.0.0.ImportType") {
        let name = match entry.str_member("name") {
            Some(n) => n,
            None => return Err(ConcertoError::Parse(with_number("ImportType #", index, " is missing 'name'"))),
        };
        imports.insert_explicit(String::from_str(name), dotted(namespace, name));
        Ok(())
    } else if str_eq(class, "concerto.metamodel@1.0.0.ImportTypes") {
        if let Some(types) = entry.array_member("types") {
            add_import_types(imports, namespace, types);
        }
        if let Some(aliases) = entry.array_member("aliasedTypes") {
            add_import_aliases(imports, namespace, aliases)?;
        }
        Ok(())
    } else {
        Err(ConcertoError::Parse(concat3("unknown import $class '", class, "'")))
    }
}

/// Reads the imports of a model document.
pub fn parse_imports(root: &JsonValue) -> (r: Result<Imports, ConcertoError>)
    ensures
        match r {
            Ok(im) => spec_imports(*root) == Ok::<ImportsView, ErrorView>(im@),
            Err(e) => spec_imports(*root) == Err::<ImportsView, ErrorView>(e@),
        },
{
    let mut imports = Imports::new();
    assert(imports@.explicit =~= Map::<Seq<char>, Seq<char>>::empty());
    assert(imports@.wildcard_namespaces =~= Seq::<Seq<char>>::empty());
    if let Some(entries) = root.array_member("imports") {
        let n = entries.len();
        let mut i: usize = 0;
        assert(entries@.take(0) =~= Seq::<JsonValue>::empty());
        while i < n
            invariant
                n == entries@.len(),
                i <= n,
                root.spec_array_member("imports"@) == Some(entries@),
                spec_import_entries(entries@.take(i as int)) == Ok::<ImportsView, ErrorView>(imports@),
            decreases n - i,
        {
            assert(entries@.take(i + 1).drop_last() =~= entries@.take(i as int));
            match add_import_entry(&mut imports, &entries[i], i) {
                Ok(_) => {}
                Err(e) => {
                    proof { lemma_import_entries_err(entries@, i + 1); }
                    return Err(e);
                }
            }
            i = i + 1;
        }
        assert(entries@.take(n as int) =~= entries@);
    }
    Ok(imports)
}

/// Builds a model from a parsed metamodel document.
pub fn load_model_from_value(root: &JsonValue) -> (r: Result<ModelFile, ConcertoError>)
    ensures
        match r {
            Ok(m) => spec_load_model(*root) == Ok::<ModelFileView, ErrorView>(m@) && model_wf(m),
            Err(e) => spec_load_model(*root) == Err::<ModelFileView, ErrorView>(e@),
        },
{
    let namespace = match root.str_member("namespace") {
        Some(n) => n,
        None => return Err(ConcertoError::Parse(String::from_str("model is missing 'namespace'"))),
    };
    let mut model = ModelFile::new(namespace);
    model.imports = parse_imports(root)?;
    assert(decls_map(model.declarations@) =~= Map::<Seq<char>, DeclarationView>::empty());
    if let Some(decls) = root.array_member("declarations") {
        let n = decls.len();
        let mut i: usize = 0;
        assert(decls@.take(0) =~= Seq::<JsonValue>::empty());
        while i < n
            invariant
                n == decls@.len(),
                i <= n,
                root.spec_array_member("declarations"@) == Some(decls@),
                root.spec_str_member("namespace"@) == Some(namespace@),
                model.namespace@ == namespace@,
                spec_imports(*root) == Ok::<ImportsView, ErrorView>(model.imports@),
                spec_declarations(decls@.take(i as int), namespace@)
                    == Ok::<Map<Seq<char>, DeclarationView>, ErrorView>(decls_map(model.declarations@)),
                model_wf(model),
            decreases n - i,
        {
            assert(decls@.take(i + 1).drop_last() =~= decls@.take(i as int));
            match parse_declaration(&decls[i], namespace, i) {
                Ok(Some(decl)) => {
                    let ghost old_ds = model.declarations@;
                    let ghost d = decl;
                    model.add_declaration(decl);
                    proof { lemma_insert_keeps_wf(old_ds, d, model.declarations@); }
                }
                Ok(None) => {}
                Err(e) => {
                    proof { lemma_declarations_err(decls@, namespace@, i + 1); }
                    return Err(e);
                }
            }
            i = i + 1;
        }
        assert(decls@.take(n as int) =~= decls@);
    }
    Ok(model)
}

proof fn lemma_insert_keeps_wf(ds: Seq<Declaration>, d: Declaration, ds2: Seq<Declaration>)
    requires
        forall|i: int| 0 <= i < ds.len() ==> decl_wf(#[trigger] ds[i]),
        decl_wf(d),
        ds2 == crate::model_file::decl_insert(ds, d),
    ensures
        forall|i: int| 0 <= i < ds2.len() ==> decl_wf(#[trigger] ds2[i]),
{
    crate::model_file::lemma_decl_index_bounds(ds, d.spec_name());
}

/// Parses one Concerto metamodel JSON text into a model. Malformed JSON and
/// malformed metamodels give `Parse` (or `Semantic` for a bad regex).
pub fn load_model_from_json(json: &str) -> (r: Result<ModelFile, ConcertoError>)
    ensures
        match r {
            Ok(m) => spec_load_model_text(json@) == Ok::<ModelFileView, ErrorView>(m@) && model_wf(m),
            Err(e) => spec_load_model_text(json@) == Err::<ModelFileView, ErrorView>(e@),
        },
{
    let root = match JsonValue::parse(json) {
        Ok(v) => v,
        Err(e) => return Err(ConcertoError::Parse(e)),
    };
    load_model_from_value(&root)
}


/// The metamodel classes of concept-like declarations.
pub open spec fn is_class_like(c: Seq<char>) -> bool {
    c == "concerto.metamodel@1.0.0.ConceptDeclaration"@ || c == "concerto.metamodel@1.0.0.AssetDeclaration"@
        || c == "concerto.metamodel@1.0.0.ParticipantDeclaration"@ || c == "concerto.metamodel@1.0.0.TransactionDeclaration"@
        || c == "concerto.metamodel@1.0.0.EventDeclaration"@
}

/// Declaration `d` is of the kind that metamodel class `c` names.
pub open spec fn kind_of_class(c: Seq<char>, d: DeclarationView) -> bool {
    &&& c == "concerto.metamodel@1.0.0.ConceptDeclaration"@ ==> d is Concept
    &&& c == "concerto.metamodel@1.0.0.AssetDeclaration"@ ==> d is Asset
    &&& c == "concerto.metamodel@1.0.0.ParticipantDeclaration"@ ==> d is Participant
    &&& c == "concerto.metamodel@1.0.0.TransactionDeclaration"@ ==> d is Transaction
    &&& c == "concerto.metamodel@1.0.0.EventDeclaration"@ ==> d is Event
}

proof fn lemma_class_names_differ()
    ensures
        "concerto.metamodel@1.0.0.ConceptDeclaration"@ != "concerto.metamodel@1.0.0.AssetDeclaration"@,
        "concerto.metamodel@1.0.0.ConceptDeclaration"@ != "concerto.metamodel@1.0.0.ParticipantDeclaration"@,
        "concerto.metamodel@1.0.0.ConceptDeclaration"@ != "concerto.metamodel@1.0.0.TransactionDeclaration"@,
        "concerto.metamodel@1.0.0.ConceptDeclaration"@ != "concerto.metamodel@1.0.0.EventDeclaration"@,
        "concerto.metamodel@1.0.0.AssetDeclaration"@ != "concerto.metamodel@1.0.0.ParticipantDeclaration"@,
        "concerto.metamodel@1.0.0.AssetDeclaration"@ != "concerto.metamodel@1.0.0.TransactionDeclaration"@,
        "concerto.metamodel@1.0.0.AssetDeclaration"@ != "concerto.metamodel@1.0.0.EventDeclaration"@,
        "concerto.metamodel@1.0.0.ParticipantDeclaration"@ != "concerto.metamodel@1.0.0.TransactionDeclaration"@,
        "concerto.metamodel@1.0.0.ParticipantDeclaration"@ != "concerto.metamodel@1.0.0.EventDeclaration"@,
        "concerto.metamodel@1.0.0.TransactionDeclaration"@ != "concerto.metamodel@1.0.0.EventDeclaration"@,
{
    reveal_strlit("concerto.metamodel@1.0.0.ConceptDeclaration");
    reveal_strlit("concerto.metamodel@1.0.0.AssetDeclaration");
    reveal_strlit("concerto.metamodel@1.0.0.ParticipantDeclaration");
    reveal_strlit("concerto.metamodel@1.0.0.TransactionDeclaration");
    reveal_strlit("concerto.metamodel@1.0.0.EventDeclaration");
    assert("concerto.metamodel@1.0.0.ConceptDeclaration"@[25] == 'C');
    assert("concerto.metamodel@1.0.0.AssetDeclaration"@[25] == 'A');
    assert("concerto.metamodel@1.0.0.ParticipantDeclaration"@[25] == 'P');
    assert("concerto.metamodel@1.0.0.TransactionDeclaration"@[25] == 'T');
    assert("concerto.metamodel@1.0.0.EventDeclaration"@[25] == 'E');
}

proof fn lemma_declaration_named(v: JsonValue, ns: Seq<char>, index: nat)
    ensures
        spec_declaration(v, ns, index) matches Ok(Some(d)) ==> v.spec_str_member("name"@) == Some(d.name()),
{
}

proof fn lemma_declarations_prefix_ok(nodes: Seq<JsonValue>, ns: Seq<char>, k: int)
    requires
        0 <= k <= nodes.len(),
        spec_declarations(nodes, ns) is Ok,
    ensures
        spec_declarations(nodes.take(k), ns) is Ok,
    decreases nodes.len() - k,
{
    if k == nodes.len() {
        assert(nodes.take(k) =~= nodes);
    } else {
        lemma_declarations_prefix_ok(nodes, ns, k + 1);
        assert(nodes.take(k + 1).drop_last() =~= nodes.take(k));
    }
}

proof fn lemma_declarations_keep(nodes: Seq<JsonValue>, ns: Seq<char>, i: int, n: Seq<char>, c: Seq<char>, k: int)
    requires
        0 <= i < k <= nodes.len(),
        spec_declarations(nodes.take(k), ns) is Ok,
        nodes[i].spec_str_member("$class"@) == Some(c),
        is_class_like(c),
        nodes[i].spec_str_member("name"@) == Some(n),
        forall|j: int| i < j < nodes.len() ==> (#[trigger] nodes[j]).spec_str_member("name"@) != Some(n),
    ensures
        spec_declarations(nodes.take(k), ns)->Ok_0.dom().contains(n),
        kind_of_class(c, spec_declarations(nodes.take(k), ns)->Ok_0[n]),
        spec_declarations(nodes.take(k), ns)->Ok_0[n].name() == n,
    decreases k,
{
    let t = nodes.take(k);
    assert(t.drop_last() =~= nodes.take(k - 1));
    assert(t.last() == nodes[k - 1]);
    lemma_declaration_named(nodes[k - 1], ns, (k - 1) as nat);
    lemma_class_names_differ();
    if k - 1 > i {
        lemma_declarations_keep(nodes, ns, i, n, c, k - 1);
    }
}

/// Loading a model keeps every concept, asset, participant, transaction and
/// event declaration it lists: where the document loads and its
/// declaration number `i` is such a node named `n` (no later node being
/// named `n`), the loaded model declares `n`, with the kind that the node's
/// `$class` names.
pub proof fn lemma_load_keeps_class_declarations(root: JsonValue, i: int, n: Seq<char>, c: Seq<char>)
    requires
        spec_load_model(root) is Ok,
        root.spec_array_member("declarations"@) matches Some(nodes) && 0 <= i < nodes.len()
            && nodes[i].spec_str_member("$class"@) == Some(c)
            && nodes[i].spec_str_member("name"@) == Some(n)
            && forall|j: int| i < j < nodes.len() ==> (#[trigger] nodes[j]).spec_str_member("name"@) != Some(n),
        is_class_like(c),
    ensures
        spec_load_model(root)->Ok_0.declarations.dom().contains(n),
        kind_of_class(c, spec_load_model(root)->Ok_0.declarations[n]),
        spec_load_model(root)->Ok_0.declarations[n].name() == n,
{
    let nodes = root.spec_array_member("declarations"@).unwrap();
    let ns = root.spec_str_member("namespace"@).unwrap();
    assert(spec_declarations(nodes, ns) is Ok);
    lemma_declarations_prefix_ok(nodes, ns, nodes.len() as int);
    assert(nodes.take(nodes.len() as int) =~= nodes);
    lemma_declarations_keep(nodes, ns, i, n, c, nodes.len() as int);
}

} // verus!
