//! Tests of the library's parts: messages and paths of each kind of
//! validation error, the loader's errors, name resolution, and the helpers.

use concerto_core::conformance::fixture_root;
use concerto_core::summary::text_less;
use concerto_core::number::Dec;
use concerto_core::parser::cto_parser::parse_cto;
use concerto_core::property::{NumericValidator, StringValidator};
use concerto_core::validator::instance_validator::{parse_relationship_uri, validate_instance};
use concerto_core::validator::numeric_validator::validate_numeric;
use concerto_core::validator::string_validator::validate_string;
use concerto_core::validator::type_resolver::split_fqn;
use concerto_core::{ConcertoError, ErrorKind, JsonValue, ModelManager, ValidationError, ValidationResult};

fn parse_json(text: &str) -> JsonValue {
    match JsonValue::parse(text) {
        Ok(value) => value,
        Err(error) => panic!("test json should parse: {error}"),
    }
}

fn manager(models: &[&str]) -> ModelManager {
    let mut mm = ModelManager::new();
    for model in models {
        if let Err(error) = mm.add_model_from_json(model) {
            panic!("model should load: {}", error.to_string());
        }
    }
    mm
}

fn validate(mm: &ModelManager, instance: &str, requested: &str) -> ValidationResult {
    match mm.validate_instance(&parse_json(instance), requested) {
        Ok(result) => result,
        Err(error) => panic!("validation should return a result: {}", error.to_string()),
    }
}

fn only_error(result: &ValidationResult) -> &ValidationError {
    assert_eq!(result.errors.len(), 1, "expected one error, got {:?}", result.errors);
    &result.errors[0]
}

fn concept_model(namespace: &str, properties: &str) -> String {
    format!(
        r#"{{"$class":"concerto.metamodel@1.0.0.Model","namespace":"{namespace}","declarations":[
            {{"$class":"concerto.metamodel@1.0.0.ConceptDeclaration","name":"Thing","isAbstract":false,
              "properties":[{properties}]}}]}}"#
    )
}

const PERSON_MODEL: &str = r#"
{
  "$class": "concerto.metamodel@1.0.0.Model",
  "namespace": "org.example@1.0.0",
  "declarations": [
    {
      "$class": "concerto.metamodel@1.0.0.EnumDeclaration",
      "name": "Gender",
      "properties": [
        {"$class": "concerto.metamodel@1.0.0.EnumProperty", "name": "MALE"},
        {"$class": "concerto.metamodel@1.0.0.EnumProperty", "name": "FEMALE"}
      ]
    },
    {
      "$class": "concerto.metamodel@1.0.0.ConceptDeclaration",
      "name": "Person",
      "isAbstract": false,
      "properties": [
        {"$class": "concerto.metamodel@1.0.0.StringProperty", "name": "email", "isArray": false, "isOptional": false},
        {
          "$class": "concerto.metamodel@1.0.0.IntegerProperty",
          "name": "age",
          "isArray": false,
          "isOptional": false,
          "validator": {"$class": "concerto.metamodel@1.0.0.IntegerDomainValidator", "lower": 0, "upper": 150}
        },
        {
          "$class": "concerto.metamodel@1.0.0.ObjectProperty",
          "name": "gender",
          "isArray": false,
          "isOptional": true,
          "type": {"$class": "concerto.metamodel@1.0.0.TypeIdentifier", "name": "Gender"}
        }
      ]
    },
    {
      "$class": "concerto.metamodel@1.0.0.ConceptDeclaration",
      "name": "Employee",
      "isAbstract": false,
      "superType": {"$class": "concerto.metamodel@1.0.0.TypeIdentifier", "name": "Person"},
      "properties": [
        {"$class": "concerto.metamodel@1.0.0.StringProperty", "name": "employeeId", "isArray": false, "isOptional": false}
      ]
    },
    {
      "$class": "concerto.metamodel@1.0.0.ConceptDeclaration",
      "name": "Manager",
      "isAbstract": false,
      "superType": {"$class": "concerto.metamodel@1.0.0.TypeIdentifier", "name": "Employee"},
      "properties": [
        {"$class": "concerto.metamodel@1.0.0.IntegerProperty", "name": "reports", "isArray": false, "isOptional": true}
      ]
    }
  ]
}
"#;

const CYCLE_MODEL: &str = r#"
{
  "$class": "concerto.metamodel@1.0.0.Model",
  "namespace": "org.cycle@1.0.0",
  "declarations": [
    {
      "$class": "concerto.metamodel@1.0.0.ConceptDeclaration",
      "name": "A",
      "isAbstract": false,
      "superType": {"$class": "concerto.metamodel@1.0.0.TypeIdentifier", "name": "B"},
      "properties": []
    },
    {
      "$class": "concerto.metamodel@1.0.0.ConceptDeclaration",
      "name": "B",
      "isAbstract": false,
      "superType": {"$class": "concerto.metamodel@1.0.0.TypeIdentifier", "name": "A"},
      "properties": []
    },
    {
      "$class": "concerto.metamodel@1.0.0.ConceptDeclaration",
      "name": "C",
      "isAbstract": false,
      "properties": []
    }
  ]
}
"#;

#[test]
fn type_mismatch_message_renders_the_found_value() {
    let mm = manager(&[PERSON_MODEL]);
    let result = validate(
        &mm,
        r#"{"$class":"org.example@1.0.0.Person","email":"a@b.c","age":"thirty"}"#,
        "org.example@1.0.0.Person",
    );
    let error = only_error(&result);
    assert_eq!(error.path, "$.age");
    assert_eq!(error.message, "'age' should be Integer, got string (\"thirty\")");
    assert!(matches!(&error.error_type, ErrorKind::TypeMismatch { expected, found }
        if expected == "Integer" && found == "String"));
    assert!(!result.valid);
}

#[test]
fn double_json_value_is_rejected_for_integer_property() {
    let mm = manager(&[PERSON_MODEL]);
    let result = validate(
        &mm,
        r#"{"$class":"org.example@1.0.0.Person","email":"a@b.c","age":2.5}"#,
        "org.example@1.0.0.Person",
    );
    let error = only_error(&result);
    assert_eq!(error.message, "'age' should be Integer, got Double (2.5)");
    assert!(matches!(&error.error_type, ErrorKind::TypeMismatch { found, .. } if found == "Double"));
}

#[test]
fn integer_bound_violation_reports_value_and_bound() {
    let mm = manager(&[PERSON_MODEL]);
    let result = validate(
        &mm,
        r#"{"$class":"org.example@1.0.0.Person","email":"a@b.c","age":-1}"#,
        "org.example@1.0.0.Person",
    );
    let error = only_error(&result);
    assert_eq!(error.message, "'age' is -1, min is 0");
    assert!(matches!(&error.error_type, ErrorKind::ConstraintViolation { constraint } if constraint == "lower=0"));
}

#[test]
fn enum_violation_lists_the_values() {
    let mm = manager(&[PERSON_MODEL]);
    let result = validate(
        &mm,
        r#"{"$class":"org.example@1.0.0.Person","email":"a@b.c","age":3,"gender":"X"}"#,
        "org.example@1.0.0.Person",
    );
    let error = only_error(&result);
    assert_eq!(error.path, "$.gender");
    assert_eq!(error.message, "'gender' should be one of [\"MALE\", \"FEMALE\"], got \"X\"");
    assert!(matches!(&error.error_type, ErrorKind::InvalidEnumValue { valid_values }
        if valid_values == &vec!["MALE".to_string(), "FEMALE".to_string()]));
}

#[test]
fn optional_null_member_is_skipped() {
    let mm = manager(&[PERSON_MODEL]);
    let result = validate(
        &mm,
        r#"{"$class":"org.example@1.0.0.Person","email":"a@b.c","age":3,"gender":null}"#,
        "org.example@1.0.0.Person",
    );
    assert!(result.valid, "{:?}", result.errors);
}

#[test]
fn three_level_chain_is_assignable_and_inherits_all_properties() {
    let mm = manager(&[PERSON_MODEL]);
    let full = r#"{"$class":"org.example@1.0.0.Manager","email":"a@b.c","age":40,"employeeId":"E1","reports":3}"#;
    assert!(validate(&mm, full, "org.example@1.0.0.Person").valid);
    assert!(validate(&mm, full, "org.example@1.0.0.Employee").valid);
    let missing = validate(
        &mm,
        r#"{"$class":"org.example@1.0.0.Manager","age":40,"employeeId":"E1"}"#,
        "org.example@1.0.0.Person",
    );
    let error = only_error(&missing);
    assert_eq!(error.path, "$.email");
    assert_eq!(error.message, "missing required field 'email'");
}

#[test]
fn parent_instance_is_not_assignable_to_child_request() {
    let mm = manager(&[PERSON_MODEL]);
    let result = validate(
        &mm,
        r#"{"$class":"org.example@1.0.0.Person","email":"a@b.c","age":40}"#,
        "org.example@1.0.0.Employee",
    );
    let error = only_error(&result);
    assert_eq!(error.path, "$.$class");
    assert_eq!(error.message, "'$class' is 'org.example@1.0.0.Person', expected 'org.example@1.0.0.Employee'");
}

#[test]
fn circular_supertypes_stop_validation() {
    let mm = manager(&[CYCLE_MODEL]);
    let instance = parse_json(r#"{"$class":"org.cycle@1.0.0.A"}"#);
    for requested in ["org.cycle@1.0.0.C", "org.cycle@1.0.0.A"] {
        match mm.validate_instance(&instance, requested) {
            Err(ConcertoError::CircularDependency(fqn)) => assert_eq!(fqn, "org.cycle@1.0.0.A"),
            other => panic!("expected a circular dependency, got {:?}", other),
        }
    }
    let plain = validate(&mm, r#"{"$class":"org.cycle@1.0.0.C"}"#, "org.cycle@1.0.0.C");
    assert!(plain.valid);
}

#[test]
fn non_object_instance_gets_one_type_mismatch() {
    let mm = manager(&[PERSON_MODEL]);
    let result = validate(&mm, "[1, 2]", "org.example@1.0.0.Person");
    let error = only_error(&result);
    assert_eq!(error.path, "$");
    assert_eq!(error.message, "expected object, got array");
    assert!(matches!(&error.error_type, ErrorKind::TypeMismatch { expected, found }
        if expected == "Object" && found == "Array"));
}

#[test]
fn unresolvable_class_is_reported() {
    let mm = manager(&[PERSON_MODEL]);
    let result = validate(&mm, r#"{"$class":"org.example@1.0.0.Nobody"}"#, "org.example@1.0.0.Person");
    let error = only_error(&result);
    assert_eq!(error.message, "can't resolve 'org.example@1.0.0.Nobody'");
    assert!(matches!(error.error_type, ErrorKind::UnknownType));
}

#[test]
fn errors_of_all_members_are_collected() {
    let mm = manager(&[PERSON_MODEL]);
    let result = validate(
        &mm,
        r#"{"$class":"org.example@1.0.0.Person","age":500,"nickname":"x"}"#,
        "org.example@1.0.0.Person",
    );
    let paths: Vec<&str> = result.errors.iter().map(|e| e.path.as_str()).collect();
    assert_eq!(paths, vec!["$.email", "$.nickname", "$.age"]);
    assert_eq!(result.errors[1].message, "'nickname' isn't declared here");
    assert_eq!(result.errors[2].message, "'age' is 500, max is 150");
    assert!(!result.valid);
}

#[test]
fn missing_requested_namespace_is_a_hard_error() {
    let mm = manager(&[PERSON_MODEL]);
    let error = match mm.validate_instance(&parse_json(r#"{"$class":"org.example@1.0.0.Person"}"#), "org.none@1.0.0.Person") {
        Ok(result) => panic!("expected an error, got {:?}", result),
        Err(error) => error,
    };
    assert!(matches!(&error, ConcertoError::NamespaceNotFound(m) if m == "namespace 'org.none@1.0.0' isn't loaded"));
    assert_eq!(error.to_string(), "namespace not found: namespace 'org.none@1.0.0' isn't loaded");
}

#[test]
fn free_validate_instance_matches_method() {
    let mm = manager(&[PERSON_MODEL]);
    let instance = parse_json(r#"{"$class":"org.example@1.0.0.Person","email":"a@b.c","age":1}"#);
    let result = match validate_instance(&mm, &instance, "org.example@1.0.0.Person") {
        Ok(result) => result,
        Err(error) => panic!("{}", error.to_string()),
    };
    assert!(result.valid);
}

#[test]
fn double_bounds_and_messages() {
    let model = concept_model(
        "org.d@1.0.0",
        r#"{"$class":"concerto.metamodel@1.0.0.DoubleProperty","name":"v","isArray":false,"isOptional":false,
            "validator":{"$class":"concerto.metamodel@1.0.0.DoubleDomainValidator","lower":0.5,"upper":2}}"#,
    );
    let mm = manager(&[&model]);
    assert!(validate(&mm, r#"{"$class":"org.d@1.0.0.Thing","v":1}"#, "org.d@1.0.0.Thing").valid);
    assert!(validate(&mm, r#"{"$class":"org.d@1.0.0.Thing","v":2.0}"#, "org.d@1.0.0.Thing").valid);
    let high = validate(&mm, r#"{"$class":"org.d@1.0.0.Thing","v":3.5}"#, "org.d@1.0.0.Thing");
    let error = only_error(&high);
    assert_eq!(error.message, "'v' is 3.5, max is 2");
    assert!(matches!(&error.error_type, ErrorKind::ConstraintViolation { constraint } if constraint == "upper=2"));
    let low = validate(&mm, r#"{"$class":"org.d@1.0.0.Thing","v":0.25}"#, "org.d@1.0.0.Thing");
    assert_eq!(only_error(&low).message, "'v' is 0.25, min is 0.5");
    let text = validate(&mm, r#"{"$class":"org.d@1.0.0.Thing","v":"1"}"#, "org.d@1.0.0.Thing");
    assert_eq!(only_error(&text).message, "'v' should be Double, got string (\"1\")");
}

#[test]
fn string_length_bounds_count_characters() {
    let model = concept_model(
        "org.s@1.0.0",
        r#"{"$class":"concerto.metamodel@1.0.0.StringProperty","name":"code","isArray":false,"isOptional":false,
            "validator":{"$class":"concerto.metamodel@1.0.0.StringLengthValidator","minLength":2,"maxLength":3}}"#,
    );
    let mm = manager(&[&model]);
    assert!(validate(&mm, r#"{"$class":"org.s@1.0.0.Thing","code":"äöü"}"#, "org.s@1.0.0.Thing").valid);
    let short = validate(&mm, r#"{"$class":"org.s@1.0.0.Thing","code":"a"}"#, "org.s@1.0.0.Thing");
    let error = only_error(&short);
    assert_eq!(error.message, "'code' is too short: 1 < 2");
    assert!(matches!(&error.error_type, ErrorKind::ConstraintViolation { constraint } if constraint == "minLength=2"));
    let long = validate(&mm, r#"{"$class":"org.s@1.0.0.Thing","code":"abcd"}"#, "org.s@1.0.0.Thing");
    assert_eq!(only_error(&long).message, "'code' is too long: 4 > 3");
}

#[test]
fn boolean_and_datetime_checks() {
    let model = concept_model(
        "org.b@1.0.0",
        r#"{"$class":"concerto.metamodel@1.0.0.BooleanProperty","name":"ok","isArray":false,"isOptional":false},
           {"$class":"concerto.metamodel@1.0.0.DateTimeProperty","name":"at","isArray":false,"isOptional":false}"#,
    );
    let mm = manager(&[&model]);
    assert!(validate(&mm, r#"{"$class":"org.b@1.0.0.Thing","ok":true,"at":"2026-03-30T12:00:00Z"}"#, "org.b@1.0.0.Thing").valid);
    let bad = validate(&mm, r#"{"$class":"org.b@1.0.0.Thing","ok":1,"at":"yesterday"}"#, "org.b@1.0.0.Thing");
    assert_eq!(bad.errors.len(), 2);
    assert_eq!(bad.errors[0].message, "'at' should be rfc3339 datetime, got \"yesterday\"");
    assert!(matches!(&bad.errors[0].error_type, ErrorKind::TypeMismatch { expected, found }
        if expected == "DateTime (RFC 3339)" && found == "String (yesterday)"));
    assert_eq!(bad.errors[1].message, "'ok' should be Boolean, got Integer (1)");
}

#[test]
fn array_property_messages() {
    let model = concept_model(
        "org.a@1.0.0",
        r#"{"$class":"concerto.metamodel@1.0.0.StringProperty","name":"tags","isArray":true,"isOptional":false},
           {"$class":"concerto.metamodel@1.0.0.StringProperty","name":"one","isArray":false,"isOptional":false}"#,
    );
    let mm = manager(&[&model]);
    let result = validate(&mm, r#"{"$class":"org.a@1.0.0.Thing","tags":["x",3],"one":["y"]}"#, "org.a@1.0.0.Thing");
    assert_eq!(result.errors.len(), 2);
    assert_eq!(result.errors[0].path, "$.one");
    assert_eq!(result.errors[0].message, "'one' should be String, got array");
    assert_eq!(result.errors[1].path, "$.tags[1]");
    let scalar = validate(&mm, r#"{"$class":"org.a@1.0.0.Thing","tags":"x","one":"y"}"#, "org.a@1.0.0.Thing");
    assert_eq!(only_error(&scalar).message, "'tags' should be array, got string (\"x\")");
}

const FLEET_MODEL: &str = r#"
{
  "$class": "concerto.metamodel@1.0.0.Model",
  "namespace": "org.fleet@1.0.0",
  "declarations": [
    {"$class": "concerto.metamodel@1.0.0.AssetDeclaration", "name": "Vehicle", "isAbstract": false, "properties": []},
    {"$class": "concerto.metamodel@1.0.0.AssetDeclaration", "name": "Driver", "isAbstract": false, "properties": []},
    {
      "$class": "concerto.metamodel@1.0.0.ConceptDeclaration",
      "name": "Assignment",
      "isAbstract": false,
      "properties": [
        {
          "$class": "concerto.metamodel@1.0.0.RelationshipProperty",
          "name": "vehicle",
          "isArray": false,
          "isOptional": false,
          "type": {"$class": "concerto.metamodel@1.0.0.TypeIdentifier", "name": "Vehicle"}
        }
      ]
    }
  ]
}
"#;

#[test]
fn relationship_messages() {
    let mm = manager(&[FLEET_MODEL]);
    let ok = validate(&mm, r#"{"$class":"org.fleet@1.0.0.Assignment","vehicle":"resource:org.fleet@1.0.0.Vehicle#V1"}"#, "org.fleet@1.0.0.Assignment");
    assert!(ok.valid, "{:?}", ok.errors);
    let wrong = validate(&mm, r#"{"$class":"org.fleet@1.0.0.Assignment","vehicle":"resource:org.fleet@1.0.0.Driver#D1"}"#, "org.fleet@1.0.0.Assignment");
    assert_eq!(only_error(&wrong).message, "'vehicle' should point to 'org.fleet@1.0.0.Vehicle', got 'org.fleet@1.0.0.Driver'");
    let shape = validate(&mm, r#"{"$class":"org.fleet@1.0.0.Assignment","vehicle":"org.fleet@1.0.0.Vehicle"}"#, "org.fleet@1.0.0.Assignment");
    assert_eq!(only_error(&shape).message, "'vehicle' should look like resource:Type#id, got \"org.fleet@1.0.0.Vehicle\"");
    let unknown = validate(&mm, r#"{"$class":"org.fleet@1.0.0.Assignment","vehicle":"resource:org.x@1.0.0.Boat#B1"}"#, "org.fleet@1.0.0.Assignment");
    assert_eq!(only_error(&unknown).message, "'vehicle' points at 'org.x@1.0.0.Boat', but that type isn't loaded");
    let number = validate(&mm, r#"{"$class":"org.fleet@1.0.0.Assignment","vehicle":7}"#, "org.fleet@1.0.0.Assignment");
    let error = only_error(&number);
    assert_eq!(error.message, "'vehicle' should be relationship string, got Integer (7)");
    assert!(matches!(error.error_type, ErrorKind::InvalidRelationship));
}

#[test]
fn relationship_uri_parsing() {
    assert_eq!(parse_relationship_uri("resource:org.a@1.0.0.B#id-1"), Some("org.a@1.0.0.B".to_string()));
    assert_eq!(parse_relationship_uri("resource:a.B#x#y"), Some("a.B".to_string()));
    assert_eq!(parse_relationship_uri("resource:#id"), None);
    assert_eq!(parse_relationship_uri("resource:a.B#"), None);
    assert_eq!(parse_relationship_uri("resource:a.B"), None);
    assert_eq!(parse_relationship_uri("a.B#id"), None);
    assert_eq!(parse_relationship_uri("res"), None);
}

#[test]
fn map_key_and_value_messages() {
    let model = r#"
    {
      "$class": "concerto.metamodel@1.0.0.Model",
      "namespace": "org.map@1.0.0",
      "declarations": [
        {
          "$class": "concerto.metamodel@1.0.0.MapDeclaration",
          "name": "Scores",
          "key": {"$class": "concerto.metamodel@1.0.0.StringMapKeyType"},
          "value": {"$class": "concerto.metamodel@1.0.0.IntegerMapValueType"}
        },
        {
          "$class": "concerto.metamodel@1.0.0.ConceptDeclaration",
          "name": "Board",
          "isAbstract": false,
          "properties": [
            {
              "$class": "concerto.metamodel@1.0.0.ObjectProperty",
              "name": "scores",
              "isArray": false,
              "isOptional": false,
              "type": {"$class": "concerto.metamodel@1.0.0.TypeIdentifier", "name": "Scores"}
            }
          ]
        }
      ]
    }"#;
    let mm = manager(&[model]);
    let result = validate(&mm, r#"{"$class":"org.map@1.0.0.Board","scores":{"a":1,"b":"two"}}"#, "org.map@1.0.0.Board");
    let error = only_error(&result);
    assert_eq!(error.path, "$.scores.b");
    assert_eq!(error.message, "'scores' should be Integer, got string (\"two\")");
    let not_object = validate(&mm, r#"{"$class":"org.map@1.0.0.Board","scores":"x"}"#, "org.map@1.0.0.Board");
    assert_eq!(only_error(&not_object).message, "'scores' should be Object, got string (\"x\")");
    let array = validate(&mm, r#"{"$class":"org.map@1.0.0.Board","scores":[1]}"#, "org.map@1.0.0.Board");
    assert_eq!(only_error(&array).message, "'scores' should be Object<Scores>, got array");
}

#[test]
fn loader_errors_have_their_kinds() {
    let mut mm = ModelManager::new();
    let bad_json = mm.add_model_from_json("{not json");
    assert!(matches!(bad_json, Err(ConcertoError::Parse(_))));
    let no_namespace = mm.add_model_from_json(r#"{"declarations":[]}"#);
    assert!(matches!(&no_namespace, Err(ConcertoError::Parse(m)) if m == "model is missing 'namespace'"));
    let bad_regex = concept_model(
        "org.r@1.0.0",
        r#"{"$class":"concerto.metamodel@1.0.0.StringProperty","name":"s","isArray":false,"isOptional":false,
            "validator":{"$class":"concerto.metamodel@1.0.0.StringRegexValidator","pattern":"(","flags":""}}"#,
    );
    assert!(matches!(mm.add_model_from_json(&bad_regex), Err(ConcertoError::Semantic(_))));
    assert_eq!(mm.namespaces().len(), 0);
}

#[test]
fn json_parse_error_carries_message() {
    match JsonValue::parse("[1,") {
        Ok(value) => panic!("should not parse: {:?}", value),
        Err(message) => assert!(!message.is_empty()),
    }
}

#[test]
fn newer_model_of_a_namespace_wins() {
    let first = concept_model("org.n@1.0.0", r#"{"$class":"concerto.metamodel@1.0.0.StringProperty","name":"a","isArray":false,"isOptional":false}"#);
    let second = concept_model("org.n@1.0.0", r#"{"$class":"concerto.metamodel@1.0.0.StringProperty","name":"b","isArray":false,"isOptional":false}"#);
    let mm = manager(&[&first, &second]);
    assert_eq!(mm.namespaces(), vec!["org.n@1.0.0"]);
    assert!(validate(&mm, r#"{"$class":"org.n@1.0.0.Thing","b":"x"}"#, "org.n@1.0.0.Thing").valid);
    let old = validate(&mm, r#"{"$class":"org.n@1.0.0.Thing","a":"x"}"#, "org.n@1.0.0.Thing");
    assert_eq!(old.errors.len(), 2);
    let older = concept_model("org.r@1.0.0", "").replace("Thing", "Old");
    let newer = concept_model("org.r@1.0.0", "").replace("Thing", "New");
    let replaced = manager(&[&older, &newer]);
    assert!(replaced.resolve_type("org.r@1.0.0.New").is_ok());
    assert!(matches!(replaced.resolve_type("org.r@1.0.0.Old"), Err(ConcertoError::TypeNotFound(_))));
    assert_eq!(replaced.namespaces(), vec!["org.r@1.0.0"]);
}

#[test]
fn resolution_errors_and_lookups() {
    let mm = manager(&[PERSON_MODEL]);
    assert!(matches!(mm.resolve_type("Person"), Err(ConcertoError::TypeNotFound(m)) if m == "can't parse type 'Person'"));
    assert!(matches!(mm.resolve_type("org.example@1.0.0.Nope"),
        Err(ConcertoError::TypeNotFound(m)) if m == "type 'Nope' not found in 'org.example@1.0.0'"));
    assert!(matches!(mm.resolve_type("org.example.Person"), Ok(d) if d.name() == "Person"));
    assert!(matches!(mm.resolve_type_in_context("Employee", "org.example@1.0.0"), Ok(d) if d.name() == "Employee"));
    assert!(matches!(mm.resolve_type_in_context("Ghost", "org.example@1.0.0"),
        Err(ConcertoError::TypeNotFound(m)) if m == "can't resolve 'Ghost' in 'org.example@1.0.0'"));
    assert!(matches!(mm.resolve_type_in_context("Ghost", "org.none"),
        Err(ConcertoError::NamespaceNotFound(m)) if m == "can't resolve 'Ghost' -- namespace 'org.none' isn't loaded"));
    assert_eq!(mm.all_declarations().len(), 4);
    assert!(mm.imports_for("org.example@1.0.0").is_some());
    assert!(mm.imports_for("org.none@1.0.0").is_none());
}

#[test]
fn versionless_name_is_ambiguous_between_two_versions() {
    let v1 = concept_model("org.v@1.0.0", "");
    let v2 = concept_model("org.v@2.0.0", "");
    let mm = manager(&[&v1, &v2]);
    assert!(matches!(mm.resolve_type("org.v.Thing"), Err(ConcertoError::NamespaceNotFound(_))));
    assert!(mm.resolve_type("org.v@2.0.0.Thing").is_ok());
}

#[test]
fn wildcard_imports_must_be_unambiguous() {
    let a = concept_model("org.a@1.0.0", "");
    let b = concept_model("org.b@1.0.0", "");
    let user = r#"{"$class":"concerto.metamodel@1.0.0.Model","namespace":"org.u@1.0.0",
        "imports":[{"$class":"concerto.metamodel@1.0.0.ImportAll","namespace":"org.a@1.0.0"},
                   {"$class":"concerto.metamodel@1.0.0.ImportAll","namespace":"org.b@1.0.0"}],
        "declarations":[]}"#;
    let mm = manager(&[&a, &b, user]);
    assert!(matches!(mm.resolve_type_in_context("Thing", "org.u@1.0.0"),
        Err(ConcertoError::Semantic(m)) if m == "'Thing' is ambiguous in 'org.u@1.0.0'"));
}

#[test]
fn fqn_splits_at_last_dot() {
    assert_eq!(split_fqn("org.example@1.0.0.Person"), Some(("org.example@1.0.0", "Person")));
    assert_eq!(split_fqn("Person"), None);
}

#[test]
fn numeric_validator_direct() {
    let bounds = Some(NumericValidator { lower: Some(1i64), upper: Some(3i64) });
    assert!(validate_numeric(2i64, &bounds, "$.n", "n").is_empty());
    let errors = validate_numeric(0i64, &bounds, "$.n", "n");
    assert_eq!(errors.len(), 1);
    assert_eq!(errors[0].message, "'n' is 0, min is 1");
    assert!(validate_numeric(9i64, &None, "$.n", "n").is_empty());
    let double_bounds = Some(NumericValidator {
        lower: None,
        upper: Some(Dec { neg: false, coef: 1, exp: 21 }),
    });
    let errors = validate_numeric(Dec { neg: false, coef: 2, exp: 21 }, &double_bounds, "$.d", "d");
    assert_eq!(errors[0].message, "'d' is 2000000000000000000000, max is 1000000000000000000000");
}

#[test]
fn string_validator_direct() {
    let validator = Some(StringValidator { regex: Some("^a+$".to_string()), min_length: Some(2), max_length: None });
    assert!(validate_string("aaa", &validator, "$.s", "s").is_empty());
    let errors = validate_string("b", &validator, "$.s", "s");
    assert_eq!(errors.len(), 2);
    assert_eq!(errors[0].message, "'b' doesn't match /^a+$/");
    assert!(matches!(&errors[0].error_type, ErrorKind::PatternMismatch { pattern } if pattern == "^a+$"));
    assert_eq!(errors[1].message, "'s' is too short: 1 < 2");
    assert!(validate_string("anything", &None, "$.s", "s").is_empty());
}

#[test]
fn fixture_root_joins_like_a_path() {
    assert_eq!(fixture_root(""), "fixtures");
    assert_eq!(fixture_root("/work/crate"), "/work/crate/fixtures");
    assert_eq!(fixture_root("/work/crate/"), "/work/crate/fixtures");
}

#[test]
fn cto_source_is_not_supported() {
    match parse_cto("namespace org.example@1.0.0") {
        Err(ConcertoError::Parse(m)) => {
            assert_eq!(m, "cto parser not implemented yet -- use ModelManager::add_model_from_json()")
        }
        _ => panic!("cto parsing should fail"),
    }
}

#[test]
fn default_manager_is_empty() {
    let mm = ModelManager::default();
    assert!(mm.namespaces().is_empty());
}

#[test]
fn error_display_texts() {
    assert_eq!(ConcertoError::Parse("x".to_string()).to_string(), "parse error: x");
    assert_eq!(ConcertoError::TypeNotFound("x".to_string()).to_string(), "type not found: x");
    assert_eq!(ConcertoError::CircularDependency("x".to_string()).to_string(), "circular dependency: x");
    assert_eq!(ConcertoError::Semantic("x".to_string()).to_string(), "semantic error: x");
    assert_eq!(ConcertoError::Json("x".to_string()).to_string(), "json error: x");
    assert_eq!(ConcertoError::InvalidInstance("x".to_string()).to_string(), "invalid instance: x");
}

#[test]
fn declared_property_wins_over_inherited_one() {
    let model = r#"
    {
      "$class": "concerto.metamodel@1.0.0.Model",
      "namespace": "org.w@1.0.0",
      "declarations": [
        {"$class": "concerto.metamodel@1.0.0.ConceptDeclaration", "name": "Base", "isAbstract": false,
         "properties": [{"$class": "concerto.metamodel@1.0.0.StringProperty", "name": "code", "isArray": false, "isOptional": false}]},
        {"$class": "concerto.metamodel@1.0.0.ConceptDeclaration", "name": "Derived", "isAbstract": false,
         "superType": {"$class": "concerto.metamodel@1.0.0.TypeIdentifier", "name": "Base"},
         "properties": [{"$class": "concerto.metamodel@1.0.0.IntegerProperty", "name": "code", "isArray": false, "isOptional": true}]}
      ]
    }"#;
    let mm = manager(&[model]);
    assert!(validate(&mm, r#"{"$class":"org.w@1.0.0.Derived","code":5}"#, "org.w@1.0.0.Derived").valid);
    assert!(validate(&mm, r#"{"$class":"org.w@1.0.0.Derived"}"#, "org.w@1.0.0.Derived").valid);
    let text = validate(&mm, r#"{"$class":"org.w@1.0.0.Derived","code":"x"}"#, "org.w@1.0.0.Derived");
    assert_eq!(only_error(&text).message, "'code' should be Integer, got string (\"x\")");
}

#[test]
fn missing_class_gives_exactly_one_error() {
    let mm = manager(&[PERSON_MODEL]);
    let result = validate(&mm, r#"{"email":"a@b.c","age":1}"#, "org.example@1.0.0.Person");
    let error = only_error(&result);
    assert_eq!(error.path, "$.$class");
    assert_eq!(error.message, "missing required field '$class'");
}

#[test]
fn listings_are_sorted() {
    let zeta = concept_model("org.zeta@1.0.0", "");
    let alpha = concept_model("org.alpha@1.0.0", "");
    let mm = manager(&[&zeta, PERSON_MODEL, &alpha]);
    assert_eq!(
        concerto_core::summary::sorted_namespaces(&mm),
        vec!["org.alpha@1.0.0".to_string(), "org.example@1.0.0".to_string(), "org.zeta@1.0.0".to_string()]
    );
    let names = concerto_core::summary::sorted_declaration_names(&mm);
    let shown: Vec<String> = names.iter().map(|(ns, name)| format!("{ns}.{name}")).collect();
    assert_eq!(
        shown,
        vec![
            "org.alpha@1.0.0.Thing",
            "org.example@1.0.0.Employee",
            "org.example@1.0.0.Gender",
            "org.example@1.0.0.Manager",
            "org.example@1.0.0.Person",
            "org.zeta@1.0.0.Thing",
        ]
    );
    let person = match mm.resolve_type("org.example@1.0.0.Person") {
        Ok(concerto_core::declaration::Declaration::Concept(c)) => c,
        _ => panic!("Person should be a concept"),
    };
    let lines = concerto_core::summary::property_lines(person);
    assert_eq!(
        lines,
        vec![
            ("age".to_string(), "Integer".to_string()),
            ("email".to_string(), "String".to_string()),
            ("gender".to_string(), "Object<Gender> optional".to_string()),
        ]
    );
}

#[test]
fn text_order_is_character_order() {
    assert!(text_less("a", "b"));
    assert!(text_less("ab", "abc"));
    assert!(!text_less("abc", "ab"));
    assert!(!text_less("same", "same"));
    assert!(text_less("Z", "a"));
    assert!(text_less("é", "ü"));
}

#[test]
fn array_property_label() {
    let model = concept_model(
        "org.l@1.0.0",
        r#"{"$class":"concerto.metamodel@1.0.0.StringProperty","name":"tags","isArray":true,"isOptional":true}"#,
    );
    let mm = manager(&[&model]);
    let thing = match mm.resolve_type("org.l@1.0.0.Thing") {
        Ok(concerto_core::declaration::Declaration::Concept(c)) => c,
        _ => panic!("Thing should be a concept"),
    };
    assert_eq!(concerto_core::summary::property_label(&thing.properties[0]), "Array<String> optional");
}

#[test]
fn self_supertype_stops_validation() {
    let model = r#"
    {
      "$class": "concerto.metamodel@1.0.0.Model",
      "namespace": "org.selfloop@1.0.0",
      "declarations": [
        {"$class": "concerto.metamodel@1.0.0.ConceptDeclaration", "name": "Loop", "isAbstract": false,
         "superType": {"$class": "concerto.metamodel@1.0.0.TypeIdentifier", "name": "Loop"}, "properties": []},
        {"$class": "concerto.metamodel@1.0.0.ConceptDeclaration", "name": "Other", "isAbstract": false, "properties": []}
      ]
    }"#;
    let mm = manager(&[model]);
    match mm.validate_instance(&parse_json(r#"{"$class":"org.selfloop@1.0.0.Loop"}"#), "org.selfloop@1.0.0.Other") {
        Err(ConcertoError::CircularDependency(fqn)) => assert_eq!(fqn, "org.selfloop@1.0.0.Loop"),
        other => panic!("expected a circular dependency, got {:?}", other),
    }
}

#[test]
fn unresolved_requested_type_is_checked_before_the_instance() {
    let mm = manager(&[PERSON_MODEL]);
    match mm.validate_instance(&parse_json("42"), "org.example@1.0.0.Missing") {
        Err(ConcertoError::TypeNotFound(m)) => assert_eq!(m, "type 'Missing' not found in 'org.example@1.0.0'"),
        other => panic!("expected TypeNotFound, got {:?}", other),
    }
}

#[test]
fn one_unknown_member_adds_one_error() {
    let mm = manager(&[PERSON_MODEL]);
    let base = validate(&mm, r#"{"$class":"org.example@1.0.0.Person","age":500}"#, "org.example@1.0.0.Person");
    let more = validate(&mm, r#"{"$class":"org.example@1.0.0.Person","age":500,"extra":[1]}"#, "org.example@1.0.0.Person");
    assert_eq!(more.errors.len(), base.errors.len() + 1);
    let added: Vec<&ValidationError> = more.errors.iter().filter(|e| e.path == "$.extra").collect();
    assert_eq!(added.len(), 1);
    assert!(matches!(added[0].error_type, ErrorKind::UnknownProperty));
    assert!(!more.valid);
}
