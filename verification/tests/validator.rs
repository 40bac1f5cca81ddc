use quill_core::json::{parse_json, print_json, Json};
use quill_core::validator::{
    errors_json, quill_validator_new, quill_validator_register, quill_validator_validate, Bound,
    DtoSchema, FieldSchema, ValidationRule, ValidatorRegistry,
};

fn text(value: &str) -> Json {
    Json::Text(value.to_string())
}

fn bound(value: f64) -> Bound {
    Bound { bits: value.to_bits(), text: value.to_string() }
}

fn required(rules: Vec<ValidationRule>) -> FieldSchema {
    FieldSchema { rules, is_nullable: false, has_default: false, default_value: None }
}

fn message(rule: ValidationRule, value: &str) -> Option<String> {
    let mut registry = ValidatorRegistry::new();
    let rules = match &rule {
        ValidationRule::Regex { pattern } => vec![ValidationRule::Regex { pattern: pattern.clone() }],
        _ => vec![],
    };
    registry.register("p".to_string(), DtoSchema::new().with_field("f".to_string(), required(rules)));
    registry.check_rule("f", &parse_json(value).unwrap(), &rule).err()
}

fn outcome(registry: &ValidatorRegistry, dto: &str, body: &str) -> Result<String, String> {
    match registry.validate(dto, body) {
        Ok(data) => Ok(print_json(&data)),
        Err(errors) => Err(print_json(&errors_json(&errors))),
    }
}

#[test]
fn test_email_validation() {
    let registry = ValidatorRegistry::new();
    let rule = ValidationRule::Email;

    assert!(registry
        .check_rule("email", &text("user@example.com"), &rule)
        .is_ok());
    assert!(registry
        .check_rule("email", &text("valid.email+alias@domain.co.uk"), &rule)
        .is_ok());

    assert!(registry
        .check_rule("email", &text("invalid-email"), &rule)
        .is_err());
    assert!(registry
        .check_rule("email", &text("@example.com"), &rule)
        .is_err());
    assert!(registry
        .check_rule("email", &text("user@"), &rule)
        .is_err());
}

#[test]
fn registrations_are_all_kept() {
    let mut registry = ValidatorRegistry::new();
    for i in 0..10 {
        let schema = DtoSchema::new()
            .with_field("id".to_string(), required(vec![ValidationRule::Numeric]));
        registry.register(format!("dto_{}", i), schema);
    }
    assert_eq!(registry.len(), 10);
    registry.register("dto_3".to_string(), DtoSchema::new());
    assert_eq!(registry.len(), 10);
    assert_eq!(outcome(&registry, "dto_3", "{}"), Ok("{}".to_string()));
}

#[test]
fn each_rule_has_its_message() {
    assert_eq!(
        message(ValidationRule::Required, "null"),
        Some("Field 'f' is required.".to_string())
    );
    assert_eq!(message(ValidationRule::Required, "0"), None);
    assert_eq!(
        message(ValidationRule::Email, "\"x\""),
        Some("The field 'f' must be a valid email address.".to_string())
    );
    assert_eq!(message(ValidationRule::Email, "1"), None);
    assert_eq!(
        message(ValidationRule::Min { val: bound(18.0) }, "17"),
        Some("The field 'f' must be at least 18.".to_string())
    );
    assert_eq!(
        message(ValidationRule::Min { val: bound(2.5) }, "2.25"),
        Some("The field 'f' must be at least 2.5.".to_string())
    );
    assert_eq!(message(ValidationRule::Min { val: bound(18.0) }, "18"), None);
    assert_eq!(
        message(ValidationRule::Min { val: bound(1.0) }, "\"9\""),
        Some("The field 'f' must be at least 1.".to_string())
    );
    assert_eq!(
        message(ValidationRule::Max { val: bound(-1.0) }, "0"),
        Some("The field 'f' may not be greater than -1.".to_string())
    );
    assert_eq!(message(ValidationRule::Max { val: bound(10.0) }, "10"), None);
    assert_eq!(
        message(ValidationRule::MinLength { len: 3 }, "\"ab\""),
        Some("The field 'f' must be at least 3 characters.".to_string())
    );
    assert_eq!(message(ValidationRule::MinLength { len: 3 }, "\"a\u{e9}\""), None);
    assert_eq!(message(ValidationRule::MinLength { len: 3 }, "1"), None);
    assert_eq!(
        message(ValidationRule::MaxLength { len: 3 }, "\"abcd\""),
        Some("The field 'f' may not be greater than 3 characters.".to_string())
    );
    assert_eq!(message(ValidationRule::MaxLength { len: 3 }, "\"abc\""), None);
    assert_eq!(
        message(ValidationRule::Regex { pattern: "^a+$".to_string() }, "\"ab\""),
        Some("The field 'f' format is invalid.".to_string())
    );
    assert_eq!(message(ValidationRule::Regex { pattern: "^a+$".to_string() }, "\"aa\""), None);
    assert_eq!(
        message(ValidationRule::Numeric, "\"1\""),
        Some("The field 'f' must be a number.".to_string())
    );
    assert_eq!(message(ValidationRule::Numeric, "1.5"), None);
    assert_eq!(
        message(ValidationRule::Boolean, "1"),
        Some("The field 'f' must be a boolean.".to_string())
    );
    assert_eq!(message(ValidationRule::Boolean, "false"), None);
}

#[test]
fn a_pattern_that_no_schema_registered_fails_no_text() {
    let registry = ValidatorRegistry::new();
    let rule = ValidationRule::Regex { pattern: "^a+$".to_string() };
    assert!(registry.check_rule("f", &text("b"), &rule).is_ok());
}

fn user_registry() -> ValidatorRegistry {
    let mut registry = ValidatorRegistry::new();
    let schema = DtoSchema::new()
        .with_field(
            "name".to_string(),
            required(vec![
                ValidationRule::MinLength { len: 2 },
                ValidationRule::Regex { pattern: "^[a-z]+$".to_string() },
            ]),
        )
        .with_field(
            "age".to_string(),
            FieldSchema {
                rules: vec![ValidationRule::Numeric],
                is_nullable: true,
                has_default: false,
                default_value: None,
            },
        )
        .with_field(
            "role".to_string(),
            FieldSchema {
                rules: vec![],
                is_nullable: false,
                has_default: true,
                default_value: Some(text("guest")),
            },
        );
    registry.register("User".to_string(), schema);
    registry
}

#[test]
fn a_body_that_passes_comes_out_by_field() {
    let registry = user_registry();
    assert_eq!(
        outcome(&registry, "User", "{\"extra\":1,\"age\":3,\"name\":\"bob\"}"),
        Ok("{\"name\":\"bob\",\"age\":3,\"role\":\"guest\"}".to_string())
    );
    assert_eq!(
        outcome(&registry, "User", "{\"name\":\"bob\",\"role\":null}"),
        Ok("{\"name\":\"bob\",\"age\":null,\"role\":null}".to_string())
    );
}

#[test]
fn a_body_that_fails_lists_all_messages() {
    let registry = user_registry();
    assert_eq!(
        outcome(&registry, "User", "{\"name\":\"B\",\"age\":\"x\"}"),
        Err("{\"name\":[\"The field 'name' must be at least 2 characters.\",\
             \"The field 'name' format is invalid.\"],\
             \"age\":[\"The field 'age' must be a number.\"]}"
            .to_string())
    );
    assert_eq!(
        outcome(&registry, "User", "{}"),
        Err("{\"name\":[\"Field 'name' is required.\"]}".to_string())
    );
    assert_eq!(
        outcome(&registry, "User", "[]"),
        Err("{\"name\":[\"Field 'name' is required.\"]}".to_string())
    );
}

#[test]
fn a_body_without_schema_or_json_fails_as_a_whole() {
    let registry = user_registry();
    assert_eq!(
        outcome(&registry, "Other", "{}"),
        Err("{\"system\":[\"DTO 'Other' not registered\"]}".to_string())
    );
    assert_eq!(
        outcome(&registry, "User", "{"),
        Err("{\"system\":[\"Invalid JSON input\"]}".to_string())
    );
    assert!(registry.validate_document("User", None).is_err());
}

#[test]
fn a_field_of_the_same_name_is_replaced() {
    let mut registry = ValidatorRegistry::new();
    let schema = DtoSchema::new()
        .with_field("a".to_string(), required(vec![ValidationRule::Numeric]))
        .with_field("a".to_string(), required(vec![ValidationRule::Boolean]));
    registry.register("S".to_string(), schema);
    assert_eq!(outcome(&registry, "S", "{\"a\":true}"), Ok("{\"a\":true}".to_string()));
}

#[test]
fn later_registrations_leave_earlier_ones_as_they_are() {
    let mut registry = user_registry();
    let before = outcome(&registry, "User", "{\"name\":\"B\"}");
    let schema = DtoSchema::new().with_field(
        "x".to_string(),
        required(vec![ValidationRule::Regex { pattern: "^[0-9]$".to_string() }]),
    );
    registry.register("Digit".to_string(), schema);
    assert_eq!(outcome(&registry, "User", "{\"name\":\"B\"}"), before);
    assert_eq!(outcome(&registry, "Digit", "{\"x\":\"7\"}"), Ok("{\"x\":\"7\"}".to_string()));
    assert!(outcome(&registry, "Digit", "{\"x\":\"77\"}").is_err());
}

#[test]
fn registration_answers_with_a_code() {
    let mut registry = quill_validator_new();
    let good = || {
        DtoSchema::new().with_field(
            "x".to_string(),
            required(vec![ValidationRule::Regex { pattern: "^x$".to_string() }]),
        )
    };
    let bad = DtoSchema::new().with_field(
        "x".to_string(),
        required(vec![ValidationRule::Regex { pattern: "(".to_string() }]),
    );
    assert!(registry.accepts(&good()));
    assert!(!registry.accepts(&bad));
    assert_eq!(quill_validator_register(&mut registry, Some(b"X"), Some(bad)), -1);
    assert_eq!(quill_validator_register(&mut registry, None, Some(good())), 1);
    assert_eq!(quill_validator_register(&mut registry, Some(b"X"), None), 1);
    assert_eq!(registry.len(), 0);
    assert_eq!(quill_validator_register(&mut registry, Some(b"X"), Some(good())), 0);
    assert_eq!(quill_validator_register(&mut registry, Some(&[0xff]), Some(good())), 0);
    assert_eq!(registry.len(), 2);
    assert!(registry.validate("", "{\"x\":\"x\"}").is_ok());
}

#[test]
fn validation_answers_with_a_code_and_a_document() {
    let registry = user_registry();
    let mut out = [1u8; 128];
    let name: &[u8] = b"User";
    let body: &[u8] = b"{\"name\":\"bob\"}";
    assert_eq!(quill_validator_validate(Some(&registry), Some(name), Some(body), &mut out), 0);
    let want = b"{\"name\":\"bob\",\"age\":null,\"role\":\"guest\"}\0";
    assert_eq!(&out[..want.len()], want);
    assert_eq!(quill_validator_validate(Some(&registry), Some(name), Some(b"{}"), &mut out), 1);
    let want = b"{\"name\":[\"Field 'name' is required.\"]}\0";
    assert_eq!(&out[..want.len()], want);
    let mut untouched = [1u8; 8];
    assert_eq!(quill_validator_validate(None, Some(name), Some(body), &mut untouched), 2);
    assert_eq!(quill_validator_validate(Some(&registry), None, Some(body), &mut untouched), 2);
    assert_eq!(quill_validator_validate(Some(&registry), Some(name), None, &mut untouched), 2);
    assert_eq!(untouched, [1u8; 8]);
}

#[test]
fn integers_are_held_against_integer_limits() {
    for limit in [-9007199254740991i64, -3, -1, 0, 1, 2, 3, 4503599627370497, 9007199254740991] {
        let below = (limit - 1).to_string();
        let same = limit.to_string();
        let above = (limit + 1).to_string();
        let min = || ValidationRule::Min { val: bound(limit as f64) };
        let max = || ValidationRule::Max { val: bound(limit as f64) };
        assert!(message(min(), &below).is_some());
        assert!(message(min(), &same).is_none());
        assert!(message(max(), &same).is_none());
        assert!(message(max(), &above).is_some());
        assert!(message(max(), "18446744073709551615").is_some());
        assert!(message(min(), "-9223372036854775808").is_some());
    }
}

#[test]
fn validated_data_passes_again_as_it_is() {
    let registry = user_registry();
    for body in ["{\"x\":1,\"age\":2.5,\"name\":\"bob\"}", "{\"name\":\"al\",\"role\":null}"] {
        let data = outcome(&registry, "User", body).unwrap();
        assert_eq!(outcome(&registry, "User", &data), Ok(data.clone()));
    }
}

#[test]
fn a_registration_takes_the_place_of_an_earlier_one() {
    let mut registry = user_registry();
    let schema = DtoSchema::new()
        .with_field("ok".to_string(), required(vec![ValidationRule::Boolean]));
    assert_eq!(quill_validator_register(&mut registry, Some(b"User"), Some(schema)), 0);
    assert_eq!(outcome(&registry, "User", "{\"ok\":true}"), Ok("{\"ok\":true}".to_string()));
    assert!(outcome(&registry, "User", "{\"name\":\"bob\"}").is_err());
}

#[test]
fn a_pattern_that_reads_email_compiles_as_any_other() {
    let mut registry = ValidatorRegistry::new();
    let schema = || {
        DtoSchema::new().with_field(
            "x".to_string(),
            required(vec![ValidationRule::Regex { pattern: "email".to_string() }]),
        )
    };
    assert!(registry.accepts(&schema()));
    assert_eq!(quill_validator_register(&mut registry, Some(b"X"), Some(schema())), 0);
    assert!(registry.accepts(&schema()));
    assert_eq!(registry.len(), 1);
    assert!(registry.validate("X", "{\"x\":\"a@b.co\"}").is_ok());
    assert!(registry.validate("X", "{\"x\":\"email\"}").is_err());
}
