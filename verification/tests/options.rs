use pydantic_sifr_core::error::ValidationLimits;
use pydantic_sifr_core::options::{json_limits, validate_options, ClockSnapshot, InputProfile, ValidationOptions};

#[test]
fn default_options_are_lax_native_and_bounded() {
    let options = ValidationOptions::default();
    assert!(!options.strict);
    assert_eq!(options.profile, InputProfile::Native);
    assert_eq!(options.limits, ValidationLimits::default());
    assert!(validate_options(options).is_ok());
}

#[test]
fn explicit_strictness_overrides_the_default() {
    let mut options = ValidationOptions::default();
    assert!(!options.effective_strict());
    options.strict = true;
    assert!(options.effective_strict());
    options.strict_override = Some(false);
    assert!(!options.effective_strict());
}

#[test]
fn unusable_limits_are_refused() {
    let mut options = ValidationOptions::default();
    options.limits.max_errors = 0;
    let error = validate_options(options).unwrap_err();
    let detail = &error.details()[0];
    assert_eq!(detail.code, "resource_limit");
    assert_eq!(detail.message, "Validation limits must be greater than zero");
    let mut deep = ValidationOptions::default();
    deep.limits.max_depth = 257;
    assert!(validate_options(deep).is_err());
}

#[test]
fn json_limits_follow_the_validation_limits() {
    let options = ValidationOptions::default();
    let limits = json_limits(options);
    assert_eq!(limits.max_input_bytes, options.limits.max_string_bytes);
    assert_eq!(limits.max_nodes, options.limits.max_collection_items);
    assert_eq!(limits.max_integer_digits, options.limits.max_numeric_digits);
    assert!(pydantic_sifr_core::input::validate_limits(limits).is_ok());
}

#[test]
fn clock_readings_before_the_epoch_count_forwards() {
    assert_eq!(ClockSnapshot::from_epoch_offset(true, 5, 250), ClockSnapshot { unix_seconds: 5, microsecond: 250 });
    assert_eq!(ClockSnapshot::from_epoch_offset(false, 5, 250), ClockSnapshot { unix_seconds: -6, microsecond: 999_750 });
    assert_eq!(ClockSnapshot::from_epoch_offset(false, 5, 0), ClockSnapshot { unix_seconds: -5, microsecond: 0 });
    let now = ClockSnapshot::system_utc();
    assert!(now.microsecond < 1_000_000);
    assert!(now.unix_seconds > 1_600_000_000);
}
