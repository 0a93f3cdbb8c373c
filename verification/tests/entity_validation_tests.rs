//! Validation scenarios: required fields, type checks, constraints,
//! inheritance, arrays, name forms, imports, relationships, scalars and maps.

use concerto_core::{ConcertoError, ErrorKind, JsonValue, ModelManager, ValidationError, ValidationResult};

fn parse_json(text: &str) -> JsonValue {
    match JsonValue::parse(text) {
        Ok(value) => value,
        Err(error) => panic!("test json should parse: {error}"),
    }
}

const PERSON_MODEL_JSON: &str = r#"
{
  "$class": "concerto.metamodel@1.0.0.Model",
  "namespace": "org.example@1.0.0",
  "declarations": [
    {
      "$class": "concerto.metamodel@1.0.0.ConceptDeclaration",
      "name": "Person",
      "isAbstract": false,
      "properties": [
        {"$class": "concerto.metamodel@1.0.0.StringProperty", "name": "email", "isArray": false, "isOptional": false},
        {"$class": "concerto.metamodel@1.0.0.StringProperty", "name": "firstName", "isArray": false, "isOptional": false},
        {"$class": "concerto.metamodel@1.0.0.StringProperty", "name": "lastName", "isArray": false, "isOptional": true},
        {
          "$class": "concerto.metamodel@1.0.0.IntegerProperty",
          "name": "age",
          "isArray": false,
          "isOptional": false,
          "validator": {
            "$class": "concerto.metamodel@1.0.0.IntegerDomainValidator",
            "lower": 0,
            "upper": 150
          }
        },
        {"$class": "concerto.metamodel@1.0.0.DateTimeProperty", "name": "dateOfBirth", "isArray": false, "isOptional": true}
      ]
    }
  ]
}
"#;

const CONTACT_MODEL_JSON: &str = r#"
{
  "$class": "concerto.metamodel@1.0.0.Model",
  "namespace": "org.example@1.0.0",
  "declarations": [
    {
      "$class": "concerto.metamodel@1.0.0.ConceptDeclaration",
      "name": "Contact",
      "isAbstract": false,
      "properties": [
        {
          "$class": "concerto.metamodel@1.0.0.StringProperty",
          "name": "email",
          "isArray": false,
          "isOptional": false,
          "validator": {
            "$class": "concerto.metamodel@1.0.0.StringRegexValidator",
            "pattern": "^[^@]+@[^@]+\\.[^@]+$",
            "flags": ""
          }
        }
      ]
    }
  ]
}
"#;

const PERSON_WITH_GENDER_MODEL_JSON: &str = r#"
{
  "$class": "concerto.metamodel@1.0.0.Model",
  "namespace": "org.example@1.0.0",
  "declarations": [
    {
      "$class": "concerto.metamodel@1.0.0.EnumDeclaration",
      "name": "Gender",
      "properties": [
        {"$class": "concerto.metamodel@1.0.0.EnumProperty", "name": "MALE"},
        {"$class": "concerto.metamodel@1.0.0.EnumProperty", "name": "FEMALE"},
        {"$class": "concerto.metamodel@1.0.0.EnumProperty", "name": "OTHER"}
      ]
    },
    {
      "$class": "concerto.metamodel@1.0.0.ConceptDeclaration",
      "name": "PersonWithGender",
      "isAbstract": false,
      "properties": [
        {"$class": "concerto.metamodel@1.0.0.StringProperty", "name": "email", "isArray": false, "isOptional": false},
        {"$class": "concerto.metamodel@1.0.0.StringProperty", "name": "firstName", "isArray": false, "isOptional": false},
        {
          "$class": "concerto.metamodel@1.0.0.IntegerProperty",
          "name": "age",
          "isArray": false,
          "isOptional": false,
          "validator": {"$class": "concerto.metamodel@1.0.0.IntegerDomainValidator", "lower": 0, "upper": 150}
        },
        {
          "$class": "concerto.metamodel@1.0.0.ObjectProperty",
          "name": "gender",
          "isArray": false,
          "isOptional": false,
          "type": {"$class": "concerto.metamodel@1.0.0.TypeIdentifier", "name": "Gender"}
        }
      ]
    }
  ]
}
"#;

const EMPLOYEE_MODEL_JSON: &str = r#"
{
  "$class": "concerto.metamodel@1.0.0.Model",
  "namespace": "org.example@1.0.0",
  "declarations": [
    {
      "$class": "concerto.metamodel@1.0.0.ConceptDeclaration",
      "name": "Person",
      "isAbstract": false,
      "properties": [
        {"$class": "concerto.metamodel@1.0.0.StringProperty", "name": "email", "isArray": false, "isOptional": false},
        {"$class": "concerto.metamodel@1.0.0.StringProperty", "name": "firstName", "isArray": false, "isOptional": false},
        {
          "$class": "concerto.metamodel@1.0.0.IntegerProperty",
          "name": "age",
          "isArray": false,
          "isOptional": false,
          "validator": {"$class": "concerto.metamodel@1.0.0.IntegerDomainValidator", "lower": 0, "upper": 150}
        }
      ]
    },
    {
      "$class": "concerto.metamodel@1.0.0.ConceptDeclaration",
      "name": "Employee",
      "isAbstract": false,
      "superType": {
        "$class": "concerto.metamodel@1.0.0.TypeIdentifier",
        "name": "Person"
      },
      "properties": [
        {"$class": "concerto.metamodel@1.0.0.StringProperty", "name": "employeeId", "isArray": false, "isOptional": false}
      ]
    }
  ]
}
"#;

const OPTIONAL_CONSTRAINT_MODEL_JSON: &str = r#"
{
  "$class": "concerto.metamodel@1.0.0.Model",
  "namespace": "org.example@1.0.0",
  "declarations": [
    {
      "$class": "concerto.metamodel@1.0.0.ConceptDeclaration",
      "name": "Profile",
      "isAbstract": false,
      "properties": [
        {"$class": "concerto.metamodel@1.0.0.StringProperty", "name": "username", "isArray": false, "isOptional": false},
        {
          "$class": "concerto.metamodel@1.0.0.IntegerProperty",
          "name": "age",
          "isArray": false,
          "isOptional": true,
          "validator": {
            "$class": "concerto.metamodel@1.0.0.IntegerDomainValidator",
            "lower": 0,
            "upper": 150
          }
        }
      ]
    }
  ]
}
"#;

const ARRAY_MODEL_JSON: &str = r#"
{
  "$class": "concerto.metamodel@1.0.0.Model",
  "namespace": "org.arrays@1.0.0",
  "declarations": [
    {
      "$class": "concerto.metamodel@1.0.0.ConceptDeclaration",
      "name": "TaggedPerson",
      "isAbstract": false,
      "properties": [
        {"$class": "concerto.metamodel@1.0.0.StringProperty", "name": "name", "isArray": false, "isOptional": false},
        {
          "$class": "concerto.metamodel@1.0.0.IntegerProperty",
          "name": "scores",
          "isArray": true,
          "isOptional": false,
          "validator": {"$class": "concerto.metamodel@1.0.0.IntegerDomainValidator", "lower": 0, "upper": 100}
        }
      ]
    }
  ]
}
"#;

const DOUBLE_MODEL_JSON: &str = r#"
{
  "$class": "concerto.metamodel@1.0.0.Model",
  "namespace": "org.double@1.0.0",
  "declarations": [
    {
      "$class": "concerto.metamodel@1.0.0.ConceptDeclaration",
      "name": "Measurement",
      "isAbstract": false,
      "properties": [
        {
          "$class": "concerto.metamodel@1.0.0.DoubleProperty",
          "name": "value",
          "isArray": false,
          "isOptional": false
        }
      ]
    }
  ]
}
"#;

const COMMON_ADDRESS_MODEL_JSON: &str = r#"
{
  "$class": "concerto.metamodel@1.0.0.Model",
  "namespace": "org.common@1.0.0",
  "declarations": [
    {
      "$class": "concerto.metamodel@1.0.0.ConceptDeclaration",
      "name": "PostalAddress",
      "isAbstract": false,
      "properties": [
        {"$class": "concerto.metamodel@1.0.0.StringProperty", "name": "street", "isArray": false, "isOptional": false}
      ]
    }
  ]
}
"#;

const CUSTOMER_MODEL_JSON: &str = r#"
{
  "$class": "concerto.metamodel@1.0.0.Model",
  "namespace": "org.customer@1.0.0",
  "imports": [
    {
      "$class": "concerto.metamodel@1.0.0.ImportType",
      "namespace": "org.common@1.0.0",
      "name": "PostalAddress"
    }
  ],
  "declarations": [
    {
      "$class": "concerto.metamodel@1.0.0.ConceptDeclaration",
      "name": "Customer",
      "isAbstract": false,
      "properties": [
        {"$class": "concerto.metamodel@1.0.0.StringProperty", "name": "name", "isArray": false, "isOptional": false},
        {
          "$class": "concerto.metamodel@1.0.0.ObjectProperty",
          "name": "address",
          "isArray": false,
          "isOptional": false,
          "type": {"$class": "concerto.metamodel@1.0.0.TypeIdentifier", "name": "PostalAddress"}
        }
      ]
    }
  ]
}
"#;

const ABSTRACT_MODEL_JSON: &str = r#"
{
  "$class": "concerto.metamodel@1.0.0.Model",
  "namespace": "org.abstracts@1.0.0",
  "declarations": [
    {
      "$class": "concerto.metamodel@1.0.0.ConceptDeclaration",
      "name": "BaseRecord",
      "isAbstract": true,
      "properties": [
        {"$class": "concerto.metamodel@1.0.0.StringProperty", "name": "id", "isArray": false, "isOptional": false}
      ]
    }
  ]
}
"#;

const UNRELATED_TYPE_MODEL_JSON: &str = r#"
{
  "$class": "concerto.metamodel@1.0.0.Model",
  "namespace": "org.other@1.0.0",
  "declarations": [
    {
      "$class": "concerto.metamodel@1.0.0.ConceptDeclaration",
      "name": "Invoice",
      "isAbstract": false,
      "properties": [
        {"$class": "concerto.metamodel@1.0.0.StringProperty", "name": "invoiceNumber", "isArray": false, "isOptional": false}
      ]
    }
  ]
}
"#;

const RELATIONSHIP_MODEL_JSON: &str = r#"
{
  "$class": "concerto.metamodel@1.0.0.Model",
  "namespace": "org.fleet@1.0.0",
  "declarations": [
    {
      "$class": "concerto.metamodel@1.0.0.AssetDeclaration",
      "name": "Vehicle",
      "isAbstract": false,
      "properties": [
        {"$class": "concerto.metamodel@1.0.0.StringProperty", "name": "vin", "isArray": false, "isOptional": false}
      ]
    },
    {
      "$class": "concerto.metamodel@1.0.0.AssetDeclaration",
      "name": "Driver",
      "isAbstract": false,
      "properties": [
        {"$class": "concerto.metamodel@1.0.0.StringProperty", "name": "licenseId", "isArray": false, "isOptional": false}
      ]
    },
    {
      "$class": "concerto.metamodel@1.0.0.ConceptDeclaration",
      "name": "Assignment",
      "isAbstract": false,
      "properties": [
        {
          "$class": "concerto.metamodel@1.0.0.RelationshipProperty",
          "name": "vehicle",
          "isArray": false,
          "isOptional": false,
          "type": {"$class": "concerto.metamodel@1.0.0.TypeIdentifier", "name": "Vehicle"}
        }
      ]
    }
  ]
}
"#;

const SCALAR_MODEL_JSON: &str = r#"
{
  "$class": "concerto.metamodel@1.0.0.Model",
  "namespace": "org.scalar@1.0.0",
  "declarations": [
    {
      "$class": "concerto.metamodel@1.0.0.StringScalar",
      "name": "PostalCode",
      "validator": {
        "$class": "concerto.metamodel@1.0.0.StringRegexValidator",
        "pattern": "^[0-9]{5}$",
        "flags": ""
      },
      "lengthValidator": {
        "$class": "concerto.metamodel@1.0.0.StringLengthValidator",
        "minLength": 5,
        "maxLength": 5
      }
    },
    {
      "$class": "concerto.metamodel@1.0.0.ConceptDeclaration",
      "name": "Parcel",
      "isAbstract": false,
      "properties": [
        {
          "$class": "concerto.metamodel@1.0.0.ObjectProperty",
          "name": "postalCode",
          "isArray": false,
          "isOptional": false,
          "type": {"$class": "concerto.metamodel@1.0.0.TypeIdentifier", "name": "PostalCode"}
        }
      ]
    }
  ]
}
"#;

const MAP_MODEL_JSON: &str = r#"
{
  "$class": "concerto.metamodel@1.0.0.Model",
  "namespace": "org.map@1.0.0",
  "declarations": [
    {
      "$class": "concerto.metamodel@1.0.0.MapDeclaration",
      "name": "Checklist",
      "key": {"$class": "concerto.metamodel@1.0.0.DateTimeMapKeyType"},
      "value": {"$class": "concerto.metamodel@1.0.0.BooleanMapValueType"}
    },
    {
      "$class": "concerto.metamodel@1.0.0.ConceptDeclaration",
      "name": "Inspection",
      "isAbstract": false,
      "properties": [
        {
          "$class": "concerto.metamodel@1.0.0.ObjectProperty",
          "name": "checks",
          "isArray": false,
          "isOptional": false,
          "type": {"$class": "concerto.metamodel@1.0.0.TypeIdentifier", "name": "Checklist"}
        }
      ]
    }
  ]
}
"#;

fn model_manager_from_json(model_json: &str) -> ModelManager {
    let mut model_manager = ModelManager::new();
    if let Err(error) = model_manager.add_model_from_json(model_json) {
        panic!("fixture model should load: {}", error.to_string());
    }
    model_manager
}

fn model_manager_from_many(model_jsons: &[&str]) -> ModelManager {
    let mut model_manager = ModelManager::new();
    for model_json in model_jsons {
        if let Err(error) = model_manager.add_model_from_json(model_json) {
            panic!("fixture model should load: {}", error.to_string());
        }
    }
    model_manager
}

fn validate_fixture(model_json: &str, instance: &JsonValue, requested: &str) -> ValidationResult {
    let model_manager = model_manager_from_json(model_json);
    validate_with_manager(&model_manager, instance, requested)
}

fn validate_with_manager(
    model_manager: &ModelManager,
    instance: &JsonValue,
    requested: &str,
) -> ValidationResult {
    match model_manager.validate_instance(instance, requested) {
        Ok(validation_result) => validation_result,
        Err(error) => panic!("validation should return structured result: {}", error.to_string()),
    }
}

fn error_at_path<'a>(validation_result: &'a ValidationResult, path: &str) -> &'a ValidationError {
    match validation_result
        .errors
        .iter()
        .find(|validation_error| validation_error.path == path)
    {
        Some(validation_error) => validation_error,
        None => panic!(
            "expected error at path {path}, got {:?}",
            validation_result.errors
        ),
    }
}

#[test]
fn valid_person_passes() {
    let instance = parse_json(r#"{
        "$class": "org.example@1.0.0.Person",
        "email": "alice@example.com",
        "firstName": "Alice",
        "age": 30
    }"#);

    let result = validate_fixture(PERSON_MODEL_JSON, &instance, "org.example@1.0.0.Person");
    assert!(result.valid, "expected valid, got {:?}", result.errors);
    assert!(result.errors.is_empty());
}

#[test]
fn missing_required_properties_are_reported_at_exact_paths() {
    let instance = parse_json(r#"{
        "$class": "org.example@1.0.0.Person",
        "email": "alice@example.com"
    }"#);

    let result = validate_fixture(PERSON_MODEL_JSON, &instance, "org.example@1.0.0.Person");

    assert!(!result.valid);
    assert!(matches!(
        error_at_path(&result, "$.firstName").error_type,
        ErrorKind::MissingRequiredProperty
    ));
    assert!(matches!(
        error_at_path(&result, "$.age").error_type,
        ErrorKind::MissingRequiredProperty
    ));
}

#[test]
fn optional_property_can_be_missing() {
    let instance = parse_json(r#"{
        "$class": "org.example@1.0.0.Person",
        "email": "alice@example.com",
        "firstName": "Alice",
        "age": 25
    }"#);

    let result = validate_fixture(PERSON_MODEL_JSON, &instance, "org.example@1.0.0.Person");
    assert!(result.valid);
}

#[test]
fn missing_class_field_uses_dollar_class_path() {
    let instance = parse_json(r#"{
        "email": "alice@example.com",
        "firstName": "Alice",
        "age": 30
    }"#);

    let result = validate_fixture(PERSON_MODEL_JSON, &instance, "org.example@1.0.0.Person");
    assert!(matches!(
        error_at_path(&result, "$.$class").error_type,
        ErrorKind::MissingRequiredProperty
    ));
}

#[test]
fn integer_property_rejects_string() {
    let instance = parse_json(r#"{
        "$class": "org.example@1.0.0.Person",
        "email": "alice@example.com",
        "firstName": "Alice",
        "age": "thirty"
    }"#);

    let result = validate_fixture(PERSON_MODEL_JSON, &instance, "org.example@1.0.0.Person");
    let age_error = error_at_path(&result, "$.age");

    assert!(matches!(
        &age_error.error_type,
        ErrorKind::TypeMismatch { expected, found }
            if expected == "Integer" && found == "String"
    ));
}

#[test]
fn enum_property_rejects_unknown_value() {
    let instance = parse_json(r#"{
        "$class": "org.example@1.0.0.PersonWithGender",
        "email": "alice@example.com",
        "firstName": "Alice",
        "age": 25,
        "gender": "UNKNOWN"
    }"#);

    let result = validate_fixture(
        PERSON_WITH_GENDER_MODEL_JSON,
        &instance,
        "org.example@1.0.0.PersonWithGender",
    );

    assert!(matches!(
        &error_at_path(&result, "$.gender").error_type,
        ErrorKind::InvalidEnumValue { valid_values }
            if valid_values.contains(&"MALE".to_string())
    ));
}

#[test]
fn datetime_property_rejects_non_iso_string() {
    let instance = parse_json(r#"{
        "$class": "org.example@1.0.0.Person",
        "email": "alice@example.com",
        "firstName": "Alice",
        "age": 30,
        "dateOfBirth": "31-12-2000"
    }"#);

    let result = validate_fixture(PERSON_MODEL_JSON, &instance, "org.example@1.0.0.Person");

    assert!(matches!(
        &error_at_path(&result, "$.dateOfBirth").error_type,
        ErrorKind::TypeMismatch { expected, .. } if expected == "DateTime (RFC 3339)"
    ));
}

#[test]
fn integer_json_value_accepted_for_double_property() {
    let instance = parse_json(r#"{
        "$class": "org.double@1.0.0.Measurement",
        "value": 30
    }"#);

    let result = validate_fixture(DOUBLE_MODEL_JSON, &instance, "org.double@1.0.0.Measurement");
    assert!(result.valid, "this is deliberate JS compatibility");
}

#[test]
fn age_out_of_range_reports_constraint_error() {
    let instance = parse_json(r#"{
        "$class": "org.example@1.0.0.Person",
        "email": "alice@example.com",
        "firstName": "Alice",
        "age": 200
    }"#);

    let result = validate_fixture(PERSON_MODEL_JSON, &instance, "org.example@1.0.0.Person");
    assert!(matches!(
        &error_at_path(&result, "$.age").error_type,
        ErrorKind::ConstraintViolation { constraint } if constraint.contains("150")
    ));
}

#[test]
fn regex_constraint_failure_keeps_pattern() {
    let instance = parse_json(r#"{
        "$class": "org.example@1.0.0.Contact",
        "email": "not-an-email"
    }"#);

    let result = validate_fixture(CONTACT_MODEL_JSON, &instance, "org.example@1.0.0.Contact");
    assert!(matches!(
        &error_at_path(&result, "$.email").error_type,
        ErrorKind::PatternMismatch { pattern } if pattern.contains("[^@]+@[^@]+")
    ));
}

#[test]
fn optional_property_constraint_is_checked_only_when_present() {
    let model_manager = model_manager_from_json(OPTIONAL_CONSTRAINT_MODEL_JSON);

    let absent_instance = parse_json(r#"{
        "$class": "org.example@1.0.0.Profile",
        "username": "alice"
    }"#);
    let absent_result = validate_with_manager(
        &model_manager,
        &absent_instance,
        "org.example@1.0.0.Profile",
    );
    assert!(absent_result.valid);

    let invalid_instance = parse_json(r#"{
        "$class": "org.example@1.0.0.Profile",
        "username": "alice",
        "age": 200
    }"#);
    let invalid_result = validate_with_manager(
        &model_manager,
        &invalid_instance,
        "org.example@1.0.0.Profile",
    );

    assert!(matches!(
        &error_at_path(&invalid_result, "$.age").error_type,
        ErrorKind::ConstraintViolation { constraint } if constraint.contains("150")
    ));
}

#[test]
fn child_instance_inherits_parent_properties() {
    let instance = parse_json(r#"{
        "$class": "org.example@1.0.0.Employee",
        "email": "bob@company.com",
        "firstName": "Bob",
        "age": 35,
        "employeeId": "E001"
    }"#);

    let result = validate_fixture(EMPLOYEE_MODEL_JSON, &instance, "org.example@1.0.0.Employee");
    assert!(result.valid);
}

#[test]
fn inherited_required_property_still_has_to_exist() {
    let instance = parse_json(r#"{
        "$class": "org.example@1.0.0.Employee",
        "firstName": "Bob",
        "age": 35,
        "employeeId": "E001"
    }"#);

    let result = validate_fixture(EMPLOYEE_MODEL_JSON, &instance, "org.example@1.0.0.Employee");
    assert!(matches!(
        error_at_path(&result, "$.email").error_type,
        ErrorKind::MissingRequiredProperty
    ));
}

#[test]
fn child_instance_can_be_checked_as_parent_type() {
    let instance = parse_json(r#"{
        "$class": "org.example@1.0.0.Employee",
        "email": "bob@company.com",
        "firstName": "Bob",
        "age": 35,
        "employeeId": "E001"
    }"#);

    let result = validate_fixture(EMPLOYEE_MODEL_JSON, &instance, "org.example@1.0.0.Person");
    assert!(
        result.valid,
        "child instance should be assignable to parent: {:?}",
        result.errors
    );
}

#[test]
fn every_array_element_gets_checked() {
    let instance = parse_json(r#"{
        "$class": "org.arrays@1.0.0.TaggedPerson",
        "name": "Alice",
        "scores": [95, 101, -1]
    }"#);

    let result = validate_fixture(ARRAY_MODEL_JSON, &instance, "org.arrays@1.0.0.TaggedPerson");

    assert!(matches!(
        error_at_path(&result, "$.scores[1]").error_type,
        ErrorKind::ConstraintViolation { .. }
    ));
    assert!(matches!(
        error_at_path(&result, "$.scores[2]").error_type,
        ErrorKind::ConstraintViolation { .. }
    ));
}

#[test]
fn scalar_value_rejected_for_array_property() {
    let instance = parse_json(r#"{
        "$class": "org.arrays@1.0.0.TaggedPerson",
        "name": "Alice",
        "scores": 99
    }"#);

    let result = validate_fixture(ARRAY_MODEL_JSON, &instance, "org.arrays@1.0.0.TaggedPerson");
    assert!(matches!(
        &error_at_path(&result, "$.scores").error_type,
        ErrorKind::TypeMismatch { expected, found }
            if expected == "Array" && found == "Integer"
    ));
}

#[test]
fn versioned_and_unversioned_class_names_both_work() {
    let model_manager = model_manager_from_json(PERSON_MODEL_JSON);

    let versioned_instance = parse_json(r#"{
        "$class": "org.example@1.0.0.Person",
        "email": "alice@example.com",
        "firstName": "Alice",
        "age": 30
    }"#);
    assert!(
        validate_with_manager(
            &model_manager,
            &versioned_instance,
            "org.example@1.0.0.Person"
        )
        .valid
    );

    let unversioned_instance = parse_json(r#"{
        "$class": "org.example.Person",
        "email": "alice@example.com",
        "firstName": "Alice",
        "age": 30
    }"#);
    assert!(
        validate_with_manager(
            &model_manager,
            &unversioned_instance,
            "org.example@1.0.0.Person"
        )
        .valid
    );
}

#[test]
fn unknown_property_is_rejected_at_its_own_path() {
    let instance = parse_json(r#"{
        "$class": "org.example@1.0.0.Person",
        "email": "alice@example.com",
        "firstName": "Alice",
        "age": 30,
        "nickname": "Al"
    }"#);

    let result = validate_fixture(PERSON_MODEL_JSON, &instance, "org.example@1.0.0.Person");
    assert!(matches!(
        error_at_path(&result, "$.nickname").error_type,
        ErrorKind::UnknownProperty
    ));
}

#[test]
fn imported_type_resolves_from_import_table() {
    let model_manager =
        model_manager_from_many(&[COMMON_ADDRESS_MODEL_JSON, CUSTOMER_MODEL_JSON]);

    let instance = parse_json(r#"{
        "$class": "org.customer@1.0.0.Customer",
        "name": "Alice",
        "address": {
            "$class": "org.common@1.0.0.PostalAddress",
            "street": "42 Market Street"
        }
    }"#);

    let result =
        validate_with_manager(&model_manager, &instance, "org.customer@1.0.0.Customer");
    assert!(
        result.valid,
        "imported type should resolve: {:?}",
        result.errors
    );
}

#[test]
fn abstract_type_cannot_be_instantiated() {
    let instance = parse_json(r#"{
        "$class": "org.abstracts@1.0.0.BaseRecord",
        "id": "A-1"
    }"#);

    let result = validate_fixture(
        ABSTRACT_MODEL_JSON,
        &instance,
        "org.abstracts@1.0.0.BaseRecord",
    );
    assert!(matches!(
        error_at_path(&result, "$.$class").error_type,
        ErrorKind::AbstractTypeInstantiation
    ));
}

#[test]
fn unrelated_requested_type_is_rejected_even_if_instance_class_is_valid() {
    let model_manager =
        model_manager_from_many(&[EMPLOYEE_MODEL_JSON, UNRELATED_TYPE_MODEL_JSON]);

    let instance = parse_json(r#"{
        "$class": "org.example@1.0.0.Employee",
        "email": "bob@company.com",
        "firstName": "Bob",
        "age": 35,
        "employeeId": "E001"
    }"#);

    let result = validate_with_manager(&model_manager, &instance, "org.other@1.0.0.Invoice");
    assert!(matches!(
        &error_at_path(&result, "$.$class").error_type,
        ErrorKind::TypeMismatch { expected, found }
            if expected == "org.other@1.0.0.Invoice" && found == "org.example@1.0.0.Employee"
    ));
}

#[test]
fn missing_requested_type_stays_a_hard_error() {
    let model_manager = model_manager_from_json(PERSON_MODEL_JSON);
    let instance = parse_json(r#"{
        "$class": "org.example@1.0.0.Person",
        "email": "alice@example.com",
        "firstName": "Alice",
        "age": 30
    }"#);

    let error = model_manager
        .validate_instance(&instance, "org.example@1.0.0.Missing")
        .expect_err("missing requested type should stay a hard error");

    assert!(matches!(error, ConcertoError::TypeNotFound(_)));
}

#[test]
fn relationship_target_type_is_checked() {
    let instance = parse_json(r#"{
        "$class": "org.fleet@1.0.0.Assignment",
        "vehicle": "resource:org.fleet@1.0.0.Driver#D-1"
    }"#);

    let result = validate_fixture(
        RELATIONSHIP_MODEL_JSON,
        &instance,
        "org.fleet@1.0.0.Assignment",
    );
    assert!(matches!(
        error_at_path(&result, "$.vehicle").error_type,
        ErrorKind::InvalidRelationship
    ));
}

#[test]
fn scalar_constraints_are_enforced() {
    let instance = parse_json(r#"{
        "$class": "org.scalar@1.0.0.Parcel",
        "postalCode": "12A4"
    }"#);

    let result = validate_fixture(SCALAR_MODEL_JSON, &instance, "org.scalar@1.0.0.Parcel");
    assert!(matches!(
        &error_at_path(&result, "$.postalCode").error_type,
        ErrorKind::PatternMismatch { .. } | ErrorKind::ConstraintViolation { .. }
    ));
}

#[test]
fn map_validation_checks_both_key_and_value() {
    let instance = parse_json(r#"{
        "$class": "org.map@1.0.0.Inspection",
        "checks": {
            "not-a-datetime": true,
            "2026-03-30T12:00:00Z": "yes"
        }
    }"#);

    let result = validate_fixture(MAP_MODEL_JSON, &instance, "org.map@1.0.0.Inspection");
    assert!(matches!(
        error_at_path(&result, "$.checks[\"not-a-datetime\"]").error_type,
        ErrorKind::TypeMismatch { .. }
    ));
    assert!(matches!(
        error_at_path(&result, "$.checks.2026-03-30T12:00:00Z").error_type,
        ErrorKind::TypeMismatch { .. }
    ));
}


