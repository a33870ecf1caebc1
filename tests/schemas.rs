use yaml_validator::{load_values, parse_type, Limit, SchemaErrorKind, Value, YamlContext, YamlSchema};

const DIFFERENT_TYPES: &'static str = r#"---
schema:
  - name: somestring
    type: string

  - name: counter
    type: number

  - name: somedict
    type: dictionary
    value: 
      type: dictionary
      value:
        type: string
  - name: someobject
    type: object
    fields:
      - name: inside1
        type: string
      - name: inside2
        type: number
"#;

fn first_doc(text: &str) -> Value {
    load_values(text).unwrap().remove(0)
}

fn root() -> String {
    "$".to_string()
}

#[test]
fn deserialize_many_types() {
    let _rd = YamlSchema::from_str(DIFFERENT_TYPES);
}

#[test]
fn load_from_yaml() {
    let docs = load_values(DIFFERENT_TYPES).unwrap();
    for doc in docs.iter() {
        let schema = YamlSchema::from_value(doc).unwrap();
        assert_eq!(schema.schema.len(), 4);
    }
}

#[test]
fn load_datastring_from_yaml_integer() {
    let integer = first_doc("20");
    let err = parse_type(&integer, false, &root()).unwrap_err();
    match err.kind {
        SchemaErrorKind::MalformedField { error } => {
            assert_eq!(error, "schema element is not an object")
        }
        _ => panic!("unexpected error kind"),
    }
}

#[test]
fn load_datastring_with_string_max_length() {
    let wrong_optionals = first_doc(
        r#"---
type: string
max_length: hello
"#,
    );
    let err = parse_type(&wrong_optionals, false, &root()).unwrap_err();
    match err.kind {
        SchemaErrorKind::WrongType { expected, actual } => {
            assert_eq!(expected, "i64");
            assert_eq!(actual, "string");
        }
        _ => panic!("unexpected error kind"),
    }
}

#[test]
fn load_datastring_with_extra_fields() {
    let wrong_optionals = first_doc(
        r#"---
type: string
extra_field: hello
"#,
    );
    let err = parse_type(&wrong_optionals, false, &root()).unwrap_err();
    match err.kind {
        SchemaErrorKind::MalformedField { error } => {
            assert_eq!(error, "string element contains superfluous elements")
        }
        _ => panic!("unexpected error kind"),
    }
}

const YAML_SCHEMA: &'static str = r#"---
schema:
  - name: schema
    type: list
    inner:
      type: object
      fields:
        - name: name
          type: string
        - name: type
          type: string
        - name: inner
          type: object
          fields:
            - name: type
              type: string
            - name: fields
              type: list
              inner:
                type: dictionary
"#;

#[test]
fn validate_yaml_schema() {
    let schema = YamlSchema::from_str(YAML_SCHEMA).unwrap();

    schema.validate_str(&YAML_SCHEMA, None).unwrap();
}

const MISSING_NAME_FIELD_IN_SCHEMA: &'static str = r#"---
schema:
  - hello: world
"#;

#[test]
fn test_missing_fields_in_schema() {
    let schema = YamlSchema::from_str(YAML_SCHEMA).unwrap();

    let err = schema
        .validate_str(&MISSING_NAME_FIELD_IN_SCHEMA, None)
        .expect_err("this should fail");
    assert_eq!(
        err.render(),
        "$.schema[0]: missing field, 'name' not found\n\
         $.schema[0]: missing field, 'type' not found\n\
         $.schema[0]: missing field, 'inner' not found\n\
         $.schema[0]: extra field, 'hello' is not allowed"
    );
}

const WRONG_TYPE_FOR_NAME_FIELD_IN_SCHEMA: &'static str = r#"---
schema:
  - name: 200
"#;

#[test]
fn test_wrong_type_for_field_in_schema() {
    let schema = YamlSchema::from_str(YAML_SCHEMA).unwrap();

    let err = schema
        .validate_str(&WRONG_TYPE_FOR_NAME_FIELD_IN_SCHEMA, None)
        .expect_err("this should fail");
    assert_eq!(
        err.render(),
        "$.schema[0]: missing field, 'type' not found\n\
         $.schema[0]: missing field, 'inner' not found"
    );
}

#[test]
fn wrong_type_for_field_with_all_fields_present() {
    let schema = YamlSchema::from_str(YAML_SCHEMA).unwrap();
    let doc = "schema:\n  - name: 200\n    type: x\n    inner:\n      type: object\n      fields: []\n";
    let err = schema.validate_str(doc, None).expect_err("this should fail");
    assert_eq!(
        err.render(),
        "$.schema[0].name: wrong type, expected 'string' got 'integer'"
    );
}

const STRING_LIMIT_SCHEMA: &'static str = r#"---
schema:
  - name: somestring
    type: string
    max_length: 20
    min_length: 10
"#;

const STRING_LIMIT_TOO_SHORT: &'static str = "somestring: hello";
const STRING_LIMIT_TOO_LONG: &'static str = "somestring: hello world how are ya really";
const STRING_LIMIT_JUST_RIGHT: &'static str = "somestring: hello world";

#[test]
fn test_string_limits() {
    let schema = YamlSchema::from_str(STRING_LIMIT_SCHEMA).unwrap();

    assert_eq!(
        schema
            .validate_str(&STRING_LIMIT_TOO_LONG, None)
            .expect_err("this should fail")
            .render(),
        "$.somestring: string validation error: string too long, max is 20, but string is 29"
    );

    assert_eq!(
        schema
            .validate_str(&STRING_LIMIT_TOO_SHORT, None)
            .expect_err("this should fail")
            .render(),
        "$.somestring: string validation error: string too short, min is 10, but string is 5"
    );

    assert!(schema.validate_str(STRING_LIMIT_JUST_RIGHT, None).is_ok());
}

const DICTIONARY_WITH_SET_TYPES_SCHEMA: &'static str = r#"---
schema:
  - name: dict
    type: dictionary
    value:
      type: number
"#;

const DICTIONARY_WITH_CORRECT_TYPES: &'static str = r#"---
dict:
  hello: 10
  world: 20
"#;

const DICTIONARY_WITH_WRONG_TYPES: &'static str = r#"---
dict:
  hello: world
  world: hello
"#;

#[test]
fn test_dictionary_validation() {
    let schema = YamlSchema::from_str(DICTIONARY_WITH_SET_TYPES_SCHEMA).unwrap();

    assert!(schema
        .validate_str(&DICTIONARY_WITH_CORRECT_TYPES, None)
        .is_ok());
    assert_eq!(
        schema
            .validate_str(&DICTIONARY_WITH_WRONG_TYPES, None)
            .expect_err("this should fail")
            .render(),
        "$.dict.hello: wrong type, expected 'number' got 'string'\n\
         $.dict.world: wrong type, expected 'number' got 'string'"
    );
}

const SCHEMA_WITH_URI: &'static str = r#"---
uri: myuri/v1
schema:
  - name: testproperty
    type: number
"#;

const SCHEMA_WITH_REFERENCE: &'static str = r#"---
schema:
  - name: propref
    type: reference
    uri: myuri/v1
"#;

const YAML_FILE_WITH_REFERENCE: &'static str = r#"---
propref:
  testproperty: 10
"#;

#[test]
fn test_schema_reference() {
    let context = YamlContext::from_schemas(vec![YamlSchema::from_str(SCHEMA_WITH_URI).unwrap()]);

    let schema = YamlSchema::from_str(SCHEMA_WITH_REFERENCE).unwrap();
    schema
        .validate_str(&YAML_FILE_WITH_REFERENCE, Some(&context))
        .unwrap();
}

#[test]
fn reference_without_context_is_caller_error() {
    let schema = YamlSchema::from_str(SCHEMA_WITH_REFERENCE).unwrap();
    let err = schema
        .validate_str(&YAML_FILE_WITH_REFERENCE, None)
        .expect_err("a reference needs a context");
    assert!(matches!(err.kind, SchemaErrorKind::ContextMissing { .. }));
    assert_eq!(
        err.render(),
        "$.propref: no context supplied to resolve reference 'myuri/v1'"
    );
}

#[test]
fn reference_to_unknown_uri() {
    let context = YamlContext::from_schemas(vec![]);
    let schema = YamlSchema::from_str(SCHEMA_WITH_REFERENCE).unwrap();
    let err = schema
        .validate_str(&YAML_FILE_WITH_REFERENCE, Some(&context))
        .expect_err("nothing is registered");
    assert_eq!(err.render(), "$.propref: reference not found: 'myuri/v1'");
}

#[test]
fn self_reference_reports_depth() {
    let looping = YamlSchema::from_str(
        "uri: loop\nschema:\n  - name: next\n    type: reference\n    uri: loop\n",
    )
    .unwrap();
    let context = YamlContext::from_schemas(vec![looping]);
    let schema = context.get_schema(&"loop".to_string()).unwrap();
    let mut doc = String::from("x: 1");
    for _ in 0..70 {
        doc = format!("next: {{{}}}", doc);
    }
    let docs = load_values(&doc).unwrap();
    assert!(schema.validate(Some(&context), &docs[0]).is_err());
}

#[test]
fn get_schema_absent_and_first_wins() {
    let a = YamlSchema::from_str("uri: same\nschema:\n  - name: a\n    type: boolean\n").unwrap();
    let b = YamlSchema::from_str("uri: same\nschema:\n  - name: b\n    type: boolean\n").unwrap();
    let context = YamlContext::from_schemas(vec![a, b]);
    assert!(context.get_schema(&"other".to_string()).is_none());
    assert_eq!(context.get_schema(&"same".to_string()).unwrap().schema[0].name, "a");
}

#[test]
fn validation_is_repeatable() {
    let schema = YamlSchema::from_str(STRING_LIMIT_SCHEMA).unwrap();
    let first = schema.validate_str(STRING_LIMIT_TOO_LONG, None).unwrap_err().render();
    let second = schema.validate_str(STRING_LIMIT_TOO_LONG, None).unwrap_err().render();
    assert_eq!(first, second);
    assert!(schema.validate_str(STRING_LIMIT_JUST_RIGHT, None).is_ok());
    assert!(schema.validate_str(STRING_LIMIT_JUST_RIGHT, None).is_ok());
}

#[test]
fn scalar_type_mismatches_name_actual_tag() {
    let schema = YamlSchema::from_str(
        "schema:\n  - name: s\n    type: string\n  - name: n\n    type: number\n  - name: b\n    type: boolean\n",
    )
    .unwrap();
    let err = schema.validate_str("s: true\nn: 1\nb: true\n", None).unwrap_err();
    assert_eq!(err.render(), "$.s: wrong type, expected 'string' got 'boolean'");
    let err = schema.validate_str("s: x\nn: [1]\nb: true\n", None).unwrap_err();
    assert_eq!(err.render(), "$.n: wrong type, expected 'number' got 'array'");
    let err = schema.validate_str("s: x\nn: 1.5\nb: 3\n", None).unwrap_err();
    assert_eq!(err.render(), "$.b: wrong type, expected 'boolean' got 'integer'");
}

#[test]
fn extra_field_in_document() {
    let schema = YamlSchema::from_str("schema:\n  - name: a\n    type: boolean\n").unwrap();
    let err = schema.validate_str("a: true\nzzz: 1\n", None).unwrap_err();
    assert_eq!(err.render(), "$: extra field, 'zzz' is not allowed");
}

#[test]
fn list_index_in_path() {
    let schema =
        YamlSchema::from_str("schema:\n  - name: l\n    type: list\n    inner:\n      type: number\n")
            .unwrap();
    assert!(schema.validate_str("l: [1, 2, 3]", None).is_ok());
    let err = schema.validate_str("l: [1, 2, x]", None).unwrap_err();
    assert_eq!(err.render(), "$.l[2]: wrong type, expected 'number' got 'string'");
}

#[test]
fn number_bounds_and_integral() {
    let schema = YamlSchema::from_str(
        "schema:\n  - name: n\n    type: number\n    exclusive_min: 0\n    max: 5\n",
    )
    .unwrap();
    assert!(schema.validate_str("n: 5", None).is_ok());
    assert_eq!(
        schema.validate_str("n: 6", None).unwrap_err().render(),
        "$.n: string validation error: number too large, max is 5, but number is 6"
    );
    assert!(schema.validate_str("n: 0", None).is_err());
    let integral =
        YamlSchema::from_str("schema:\n  - name: n\n    type: number\n    integral: true\n").unwrap();
    assert!(integral.validate_str("n: 2", None).is_ok());
    assert!(integral.validate_str("n: 2.5", None).is_err());
}

#[test]
fn conflicting_bounds_rejected() {
    let err = YamlSchema::from_str(
        "schema:\n  - name: n\n    type: number\n    min: 1\n    exclusive_min: 2\n",
    )
    .unwrap_err();
    assert_eq!(
        err.render(),
        "$.schema[0]: malformed field: conflicting constraints: min, exclusive_min cannot be used at the same time"
    );
}

#[test]
fn infeasible_string_span_rejected() {
    let err = YamlSchema::from_str(
        "schema:\n  - name: s\n    type: string\n    min_length: 20\n    max_length: 10\n",
    )
    .unwrap_err();
    assert!(matches!(err.kind, SchemaErrorKind::MalformedField { .. }));
    let err = YamlSchema::from_str(
        "schema:\n  - name: s\n    type: string\n    min_length: -1\n",
    )
    .unwrap_err();
    assert_eq!(
        err.render(),
        "$.schema[0].min_length: malformed field: must be a non-negative integer value"
    );
}

#[test]
fn several_documents_aggregate() {
    let schema = YamlSchema::from_str("schema:\n  - name: a\n    type: boolean\n").unwrap();
    let err = schema
        .validate_str("---\na: 1\n---\na: true\n---\nb: true\n", None)
        .unwrap_err();
    assert!(matches!(err.kind, SchemaErrorKind::Multiple { .. }));
    assert_eq!(
        err.render(),
        "$.a: wrong type, expected 'boolean' got 'integer'\n$: missing field, 'a' not found\n$: extra field, 'b' is not allowed"
    );
}

#[test]
fn unparsable_text_is_error() {
    assert!(load_values("a: [1, 2").is_err());
}

#[test]
fn limit_direct_checks() {
    assert!(Limit::Inclusive(10).is_lesser(&10));
    assert!(!Limit::Exclusive(10).is_lesser(&10));
    assert!(Limit::Inclusive(10).is_greater(&10));
    assert!(!Limit::Exclusive(10).is_greater(&10));
    assert!(Limit::Exclusive(10).is_greater(&11));
    assert!(Limit::Inclusive(i64::MIN).has_span(&Limit::Inclusive(i64::MAX)));
}

#[test]
fn verify_limit_logic_int() {
    // (10 <= x <= 10) is a VALID interval
    assert!(Limit::Inclusive(10).has_span(&Limit::Inclusive(10)));

    // (10 < x < 10) is an INVALID interval
    assert!(!Limit::Exclusive(10).has_span(&Limit::Exclusive(10)));

    // (10.0 < x < 11) is an INVALID interval
    assert!(!Limit::Exclusive(10).has_span(&Limit::Exclusive(11)));

    // (10.0 < x < 12) is a VALID interval
    assert!(Limit::Exclusive(10).has_span(&Limit::Exclusive(12)));

    // (20 <= x <= 10) is an INVALID interval
    assert!(!Limit::Inclusive(20).has_span(&Limit::Inclusive(10)));

    // (10 < x < 20) is a VALID interval
    assert!(Limit::Exclusive(10).has_span(&Limit::Exclusive(20)));

    // (20 < x < 10) is an INVALID interval
    assert!(!Limit::Exclusive(20).has_span(&Limit::Exclusive(10)));
}

#[test]
fn try_into_usize_bounds() {
    let p = "$".to_string();
    assert_eq!(yaml_validator::try_into_usize(7, &p).unwrap(), 7);
    assert_eq!(
        yaml_validator::try_into_usize(-1, &p).unwrap_err().render(),
        "$: malformed field: must be a non-negative integer value"
    );
}

#[test]
fn single_missing_field_at_object_path() {
    let schema = YamlSchema::from_str(
        "schema:\n  - name: a\n    type: boolean\n  - name: f\n    type: number\n",
    )
    .unwrap();
    let err = schema.validate_str("a: true\n", None).unwrap_err();
    assert_eq!(err.render(), "$: missing field, 'f' not found");
}

#[test]
fn one_bad_dictionary_value_is_returned_as_is() {
    let schema = YamlSchema::from_str(DICTIONARY_WITH_SET_TYPES_SCHEMA).unwrap();
    let err = schema.validate_str("dict:\n  hello: world\n  other: 3\n", None).unwrap_err();
    assert!(matches!(err.kind, SchemaErrorKind::WrongType { .. }));
    assert_eq!(err.render(), "$.dict.hello: wrong type, expected 'number' got 'string'");
}

#[test]
fn strict_contents_reports_missing_then_extra() {
    let v = first_doc("hello: world");
    let required = vec!["name".to_string(), "type".to_string(), "inner".to_string()];
    let err = v.strict_contents(&required, &vec![], &root()).unwrap_err();
    match &err.kind {
        SchemaErrorKind::Multiple { errors } => assert_eq!(errors.len(), 4),
        _ => panic!("expected an aggregate"),
    }
    let scalar = first_doc("20");
    let err = scalar.strict_contents(&required, &vec![], &root()).unwrap_err();
    assert_eq!(err.render(), "$: wrong type, expected 'hash' got 'integer'");
}

#[test]
fn exclusive_fields_on_non_map_and_message() {
    let keys = vec!["max".to_string(), "min".to_string(), "maximum".to_string()];
    let v = first_doc("min: 1\nmax: 2\nfoo: 3");
    match v.check_exclusive_fields(&keys, &root()).unwrap_err().kind {
        SchemaErrorKind::MalformedField { error } => assert_eq!(
            error,
            "conflicting constraints: max, min cannot be used at the same time"
        ),
        _ => panic!("unexpected error kind"),
    }
    let s = first_doc("x");
    assert_eq!(
        s.check_exclusive_fields(&vec![], &root()).unwrap_err().render(),
        "$: wrong type, expected 'hash' got 'string'"
    );
}

#[test]
fn non_integer_length_bound_names_its_path() {
    let err = YamlSchema::from_str("schema:\n  - name: s\n    type: string\n    max_length: hello\n")
        .unwrap_err();
    assert_eq!(
        err.render(),
        "$.schema[0].max_length: wrong type, expected 'i64' got 'string'"
    );
}

#[test]
fn deep_block_nesting_is_refused_before_parsing() {
    let deep = "- ".repeat(50_000) + "x";
    let err = load_values(&deep).unwrap_err();
    assert!(matches!(err.kind, SchemaErrorKind::DepthExceeded));
    let fine = "- ".repeat(20) + "x";
    assert!(load_values(&fine).is_ok());
}
