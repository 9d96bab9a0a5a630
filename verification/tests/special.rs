use pydantic_sifr_core::constraints::{
    PatternSchema, RelativeTimeConstraint, TemporalKind, TemporalSchema, UrlConstraints,
};
use pydantic_sifr_core::error::ValidationError;
use pydantic_sifr_core::input::InputValue;
use pydantic_sifr_core::options::{ClockSnapshot, InputProfile};
use pydantic_sifr_core::order::Order;
use pydantic_sifr_core::special::{
    relative_code, temporal_name, validate_pattern, validate_relative, validate_temporal, validate_url,
    validate_uuid,
};
use pydantic_sifr_core::values::{DateTimeValue, DateValue, DurationValue, TimeValue, ValidatedValue};

fn text(value: &str) -> String {
    value.to_string()
}

fn first_code(error: &ValidationError) -> &'static str {
    error.details()[0].code
}

fn context(error: &ValidationError, key: &str) -> Option<String> {
    error.details()[0].context_value(key).cloned()
}

// 2024-01-01T00:00:00Z
const NEW_YEAR_2024: i64 = 1_704_067_200;

fn clock() -> ClockSnapshot {
    ClockSnapshot { unix_seconds: NEW_YEAR_2024, microsecond: 0 }
}

#[test]
fn uuids_parse_to_their_bytes() {
    let value = validate_uuid(
        &InputValue::String(text("550e8400-e29b-41d4-a716-446655440000")),
        false,
        InputProfile::Json,
        Some(4),
    )
    .unwrap();
    match value {
        ValidatedValue::Uuid(bytes) => {
            assert_eq!(bytes[0], 0x55);
            assert_eq!(bytes[6], 0x41);
            assert_eq!(bytes[15], 0x00);
        }
        other => panic!("unexpected value {other:?}"),
    }
}

#[test]
fn uuid_versions_are_checked() {
    let error = validate_uuid(
        &InputValue::Uuid(text("550e8400-e29b-41d4-a716-446655440000")),
        true,
        InputProfile::Native,
        Some(7),
    )
    .unwrap_err();
    assert_eq!(first_code(&error), "uuid_version");
    assert_eq!(error.details()[0].expected, "uuid version 7");
    assert_eq!(context(&error, "expected_version").as_deref(), Some("7"));
    assert_eq!(context(&error, "actual_version").as_deref(), Some("4"));
}

#[test]
fn uuid_inputs_of_the_wrong_kind_or_text_are_refused() {
    let strict = validate_uuid(&InputValue::String(text("550e8400e29b41d4a716446655440000")), true, InputProfile::Native, None);
    assert_eq!(first_code(&strict.unwrap_err()), "uuid_type");
    let lax = validate_uuid(&InputValue::String(text("550e8400e29b41d4a716446655440000")), true, InputProfile::Json, None);
    assert!(lax.is_ok());
    let bad = validate_uuid(&InputValue::String(text("not-a-uuid")), false, InputProfile::Native, None).unwrap_err();
    assert_eq!(first_code(&bad), "uuid_parsing");
    assert_eq!(bad.details()[0].message, "Input must be a valid UUID");
    assert!(context(&bad, "error").is_some());
    assert_eq!(first_code(&validate_uuid(&InputValue::Bool(true), false, InputProfile::Native, None).unwrap_err()), "uuid_type");
}

#[test]
fn urls_are_serialized_by_the_parser() {
    let value = validate_url(&InputValue::String(text("HTTPS://Example.COM/a")), false, InputProfile::Json, &UrlConstraints::default()).unwrap();
    assert_eq!(value, ValidatedValue::Url(text("https://example.com/a")));
    let mail = validate_url(&InputValue::Url(text("mailto:someone@example.com")), true, InputProfile::Native, &UrlConstraints::default());
    assert_eq!(mail.unwrap(), ValidatedValue::Url(text("mailto:someone@example.com")));
}

#[test]
fn url_length_and_schemes_are_checked() {
    let short = UrlConstraints { max_length: Some(10), allowed_schemes: Vec::new() };
    let error = validate_url(&InputValue::String(text("https://example.com")), false, InputProfile::Json, &short).unwrap_err();
    assert_eq!(first_code(&error), "url_too_long");
    assert_eq!(context(&error, "max_length").as_deref(), Some("10"));

    let only_https = UrlConstraints { max_length: None, allowed_schemes: vec![text("https")] };
    let error = validate_url(&InputValue::String(text("ftp://example.com")), false, InputProfile::Json, &only_https).unwrap_err();
    assert_eq!(first_code(&error), "url_scheme");
    assert_eq!(error.details()[0].message, "URL scheme is not allowed");
    assert_eq!(context(&error, "scheme").as_deref(), Some("ftp"));

    let error = validate_url(&InputValue::String(text("data:text/plain,hi")), false, InputProfile::Json, &UrlConstraints::default()).unwrap_err();
    assert_eq!(first_code(&error), "url_scheme");
    assert_eq!(error.details()[0].expected, "hierarchical url");

    let error = validate_url(&InputValue::String(text("/relative/path")), false, InputProfile::Json, &UrlConstraints::default()).unwrap_err();
    assert_eq!(first_code(&error), "url_parsing");
    assert!(context(&error, "error").is_some());

    let error = validate_url(&InputValue::String(text("https://example.com")), true, InputProfile::Native, &UrlConstraints::default()).unwrap_err();
    assert_eq!(first_code(&error), "url_type");
}

#[test]
fn patterns_merge_input_and_schema_flags() {
    let schema = PatternSchema { case_insensitive: true, multi_line: false, dot_matches_new_line: true };
    let value = validate_pattern(&InputValue::Pattern { source: text("a+b"), flags: 2 }, true, InputProfile::Native, &schema).unwrap();
    assert_eq!(value, ValidatedValue::Pattern { source: text("a+b"), flags: 7 });
}

#[test]
fn patterns_refuse_unknown_flags_and_bad_syntax() {
    let plain = PatternSchema { case_insensitive: false, multi_line: false, dot_matches_new_line: false };
    let error = validate_pattern(&InputValue::Pattern { source: text("a"), flags: 8 }, false, InputProfile::Native, &plain).unwrap_err();
    assert_eq!(first_code(&error), "pattern_flags");
    let error = validate_pattern(&InputValue::String(text("(unclosed")), false, InputProfile::Native, &plain).unwrap_err();
    assert_eq!(first_code(&error), "pattern_parsing");
    assert_eq!(error.details()[0].expected, "Rust regex syntax");
    let error = validate_pattern(&InputValue::String(text("a")), true, InputProfile::Native, &plain).unwrap_err();
    assert_eq!(first_code(&error), "pattern_type");
}

#[test]
fn relative_codes_name_the_kind_and_direction() {
    assert_eq!(relative_code("date", "past"), "date_past");
    assert_eq!(relative_code("date", "future"), "date_future");
    assert_eq!(relative_code("datetime", "past"), "datetime_past");
    assert_eq!(relative_code("datetime", "future"), "datetime_future");
    assert_eq!(temporal_name(TemporalKind::Duration), "duration");
}

#[test]
fn relative_checks_need_a_strict_side_of_the_clock() {
    assert!(validate_relative(Order::Less, Some(RelativeTimeConstraint::Past), "date").is_ok());
    let error = validate_relative(Order::Equal, Some(RelativeTimeConstraint::Past), "date").unwrap_err();
    assert_eq!(first_code(&error), "date_past");
    assert_eq!(error.details()[0].expected, "past date");
    let error = validate_relative(Order::Equal, Some(RelativeTimeConstraint::Future), "datetime").unwrap_err();
    assert_eq!(first_code(&error), "datetime_future");
    assert_eq!(error.details()[0].message, "Input must be in the future");
    assert!(validate_relative(Order::Greater, None, "date").is_ok());
}

#[test]
fn dates_are_parsed_and_compared_with_the_clock() {
    let past = TemporalSchema { kind: TemporalKind::Date, relative: Some(RelativeTimeConstraint::Past) };
    let value = validate_temporal(&past, &InputValue::String(text("2023-12-31")), false, InputProfile::Json, clock()).unwrap();
    assert_eq!(value, ValidatedValue::Date(DateValue { year: 2023, month: 12, day: 31 }));
    let error = validate_temporal(&past, &InputValue::Date(text("2024-01-01")), true, InputProfile::Native, clock()).unwrap_err();
    assert_eq!(first_code(&error), "date_past");
    let future = TemporalSchema { kind: TemporalKind::Date, relative: Some(RelativeTimeConstraint::Future) };
    assert!(validate_temporal(&future, &InputValue::String(text("2024-01-02")), false, InputProfile::Json, clock()).is_ok());
}

#[test]
fn datetimes_compare_at_microsecond_precision_in_utc() {
    let past = TemporalSchema { kind: TemporalKind::DateTime, relative: Some(RelativeTimeConstraint::Past) };
    let value = validate_temporal(&past, &InputValue::String(text("2024-01-01T01:00:00+02:00")), false, InputProfile::Json, clock()).unwrap();
    assert_eq!(
        value,
        ValidatedValue::DateTime(DateTimeValue {
            date: DateValue { year: 2024, month: 1, day: 1 },
            time: TimeValue { hour: 1, minute: 0, second: 0, microsecond: 0, offset_seconds: Some(7200) },
        })
    );
    let error = validate_temporal(&past, &InputValue::String(text("2024-01-01T00:00:00.000001Z")), false, InputProfile::Json, clock()).unwrap_err();
    assert_eq!(first_code(&error), "datetime_past");
}

#[test]
fn times_and_durations_refuse_relative_constraints() {
    let time = TemporalSchema { kind: TemporalKind::Time, relative: Some(RelativeTimeConstraint::Past) };
    let error = validate_temporal(&time, &InputValue::String(text("12:00")), false, InputProfile::Json, clock()).unwrap_err();
    assert_eq!(first_code(&error), "schema_invalid");
    let duration = TemporalSchema { kind: TemporalKind::Duration, relative: None };
    let value = validate_temporal(&duration, &InputValue::String(text("P1DT2S")), false, InputProfile::Json, clock()).unwrap();
    assert_eq!(value, ValidatedValue::Duration(DurationValue { positive: true, days: 1, seconds: 2, microseconds: 0 }));
    let plain_time = TemporalSchema { kind: TemporalKind::Time, relative: None };
    let value = validate_temporal(&plain_time, &InputValue::Time(text("12:30:05.5")), true, InputProfile::Native, clock()).unwrap();
    assert_eq!(value, ValidatedValue::Time(TimeValue { hour: 12, minute: 30, second: 5, microsecond: 500_000, offset_seconds: None }));
}

#[test]
fn temporal_inputs_of_the_wrong_kind_or_text_are_refused() {
    let date = TemporalSchema { kind: TemporalKind::Date, relative: None };
    let error = validate_temporal(&date, &InputValue::Bool(true), false, InputProfile::Json, clock()).unwrap_err();
    assert_eq!(first_code(&error), "temporal_type");
    assert_eq!(error.details()[0].expected, "date");
    let error = validate_temporal(&date, &InputValue::Time(text("12:00")), true, InputProfile::Native, clock()).unwrap_err();
    assert_eq!(error.details()[0].message, "Native temporal kind does not match the schema");
    let error = validate_temporal(&date, &InputValue::String(text("2024-13-01")), false, InputProfile::Json, clock()).unwrap_err();
    assert_eq!(first_code(&error), "temporal_parsing");
    assert_eq!(error.details()[0].expected, "date");
    assert!(context(&error, "error").is_some());
}
