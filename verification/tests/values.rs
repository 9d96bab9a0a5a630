use pydantic_sifr_core::arena::{ArenaError, ArenaId};
use pydantic_sifr_core::values::{duration_text, padded_text, remap_id, time_text, DurationValue, ModelValue, TimeValue};

fn time(hour: u8, minute: u8, second: u8, microsecond: u32, offset_seconds: Option<i32>) -> TimeValue {
    TimeValue { hour, minute, second, microsecond, offset_seconds }
}

#[test]
fn times_have_canonical_text() {
    assert_eq!(time_text(&time(9, 5, 7, 0, None)), "09:05:07");
    assert_eq!(time_text(&time(23, 59, 0, 42, None)), "23:59:00.000042");
    assert_eq!(time_text(&time(0, 0, 0, 0, Some(-19_800))), "00:00:00-05:30");
    assert_eq!(time_text(&time(12, 30, 1, 500_000, Some(0))), "12:30:01.500000+00:00");
    assert_eq!(time_text(&time(1, 2, 3, 0, Some(i32::MIN))), "01:02:03-596523:14");
}

#[test]
fn durations_have_iso_text() {
    let span = DurationValue { positive: true, days: 1, seconds: 30, microseconds: 0 };
    assert_eq!(duration_text(&span), "P1DT30S");
    let negative = DurationValue { positive: false, days: 0, seconds: 2, microseconds: 5 };
    assert_eq!(duration_text(&negative), "-P0DT2.000005S");
}

#[test]
fn padding_only_adds_leading_zeros() {
    assert_eq!(padded_text(7, 3), "007");
    assert_eq!(padded_text(1234, 2), "1234");
    assert_eq!(padded_text(0, 0), "0");
}

#[test]
fn remapped_ids_move_up_or_fail() {
    let id = ArenaId::from_usize(5).unwrap();
    assert_eq!(remap_id(id, 10).unwrap().raw(), 15);
    assert_eq!(remap_id(id, u32::MAX as usize), Err(ArenaError::CapacityExceeded));
}

#[test]
fn model_values_keep_their_parts() {
    let id = ArenaId::from_usize(1).unwrap();
    let model = ModelValue::new("tests.Model", vec![("a", id)], vec![("extra".to_string(), id)], 1);
    assert_eq!(model.name(), "tests.Model");
    assert_eq!(model.fields(), &[("a", id)]);
    assert_eq!(model.extras()[0].0, "extra");
    assert_eq!(model.validated_field_count(), 1);
}
