use pydantic_sifr_core::registry::{validate_code, ErrorOverride, ErrorRegistry, RegistryError};

fn declaration(code: &str, message: &str, keys: &[&str]) -> ErrorOverride {
    ErrorOverride {
        code: code.to_string(),
        message: message.to_string(),
        context_keys: keys.iter().map(|key| key.to_string()).collect(),
    }
}

#[test]
fn custom_declarations_are_registered() {
    let registry = ErrorRegistry::new(vec![declaration("pkg.bad_value", "Bad {value}", &["value"])]).unwrap();
    let entry = registry.custom("pkg.bad_value").unwrap();
    assert_eq!(entry.message, "Bad {value}");
    assert!(registry.custom("pkg.other").is_none());
    assert!(registry.validate_override(&declaration("pkg.bad_value", "Bad {value}", &["value"])).is_ok());
}

#[test]
fn built_in_codes_must_be_restated_exactly() {
    let built = ErrorRegistry::built_in("json_invalid").unwrap();
    assert_eq!(built.message, "Invalid JSON: {error}");
    assert_eq!(built.context, &["error"]);
    assert!(ErrorRegistry::built_in("pkg.code").is_none());
    assert!(ErrorRegistry::new(vec![declaration("json_invalid", "Invalid JSON: {error}", &["error"])]).is_ok());
    let error = ErrorRegistry::new(vec![declaration("json_invalid", "Broken: {error}", &["error"])]).unwrap_err();
    assert!(matches!(&error, RegistryError::BuiltInCollision(code) if code == "json_invalid"));
    assert_eq!(error.message(), "error override changes built-in code `json_invalid`");
}

#[test]
fn declaration_faults_are_named() {
    let cases = [
        (declaration("Bad", "x", &[]), "invalid error code `Bad`"),
        (declaration("custom", "x", &[]), "custom error code `custom` is not package-qualified"),
        (declaration("pkg.a", "", &[]), "invalid message for error code `pkg.a`"),
        (declaration("pkg.a", "{x} {x}", &["x", "x"]), "duplicate context key for error code `pkg.a`"),
        (declaration("pkg.a", "{x}", &["y"]), "message context does not match error code `pkg.a`"),
        (declaration("pkg.a", "open {x", &["x"]), "invalid message for error code `pkg.a`"),
    ];
    for (declared, text) in cases {
        let error = ErrorRegistry::new(vec![declared]).unwrap_err();
        assert_eq!(error.message(), text);
    }
}

#[test]
fn registry_refuses_duplicates_and_unknown_codes() {
    let twice = vec![declaration("pkg.a", "A", &[]), declaration("pkg.a", "A", &[])];
    assert!(matches!(ErrorRegistry::new(twice), Err(RegistryError::DuplicateCode(code)) if code == "pkg.a"));
    let registry = ErrorRegistry::new(vec![declaration("pkg.a", "A", &[])]).unwrap();
    assert!(matches!(
        registry.validate_override(&declaration("pkg.b", "B", &[])),
        Err(RegistryError::UnknownCode(code)) if code == "pkg.b"
    ));
    assert!(matches!(
        registry.validate_override(&declaration("pkg.a", "Other", &[])),
        Err(RegistryError::ConflictingDeclaration(code)) if code == "pkg.a"
    ));
}

#[test]
fn codes_are_dotted_lowercase_segments() {
    assert!(validate_code("pkg.sub_1.code").is_ok());
    assert!(validate_code("schema_invalid").is_ok());
    assert!(validate_code("").is_err());
    assert!(validate_code("pkg..code").is_err());
    assert!(validate_code(&"a".repeat(97)).is_err());
}

#[test]
fn lookups_find_custom_declarations_and_no_built_in_ones() {
    let registry = ErrorRegistry::new(vec![
        declaration("json_invalid", "Invalid JSON: {error}", &["error"]),
        declaration("pkg.first", "First {a}", &["a"]),
        declaration("pkg.second", "Second", &[]),
    ])
    .unwrap();
    assert!(registry.custom("json_invalid").is_none());
    assert_eq!(registry.custom("pkg.first").unwrap().message, "First {a}");
    assert_eq!(registry.custom("pkg.first").unwrap().context_keys, vec!["a".to_string()]);
    assert_eq!(registry.custom("pkg.second").unwrap().message, "Second");
}
