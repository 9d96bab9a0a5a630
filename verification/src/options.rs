use vstd::prelude::*;

use crate::error::{plain_error, type_error, ValidationError, ValidationLimits};
use crate::input::JsonLimits;

verus! {

/// The deepest nesting that validation ever allows.
pub const HARD_MAX_DEPTH: usize = 256;

/// The shape of input that a validation call receives.
#[derive(Clone, Copy, Debug, PartialEq, Eq, Structural)]
pub enum InputProfile {
    Native,
    Json,
    Strings,
}

/// One clock reading, used for every temporal check of a validation call.
#[derive(Clone, Copy, Debug, PartialEq, Eq, Structural, Default)]
pub struct ClockSnapshot {
    pub unix_seconds: i64,
    pub microsecond: u32,
}

/// `seconds` clamped to the largest `i64`.
pub open spec fn clamp_seconds(seconds: u64) -> int {
    if seconds <= i64::MAX { seconds as int } else { i64::MAX as int }
}

/// The snapshot for a reading `seconds` and `micros` after the epoch, or,
/// when `after_epoch` is false, that long before it.
pub open spec fn spec_clock(after_epoch: bool, seconds: u64, micros: u32) -> ClockSnapshot {
    let s = clamp_seconds(seconds);
    if after_epoch {
        ClockSnapshot { unix_seconds: s as i64, microsecond: micros }
    } else if micros == 0 {
        ClockSnapshot { unix_seconds: (-s) as i64, microsecond: 0 }
    } else {
        ClockSnapshot { unix_seconds: (-s - 1) as i64, microsecond: (1_000_000 - micros) as u32 }
    }
}

#[verifier::external_type_specification]
#[verifier::external_body]
pub struct ExSystemTime(std::time::SystemTime);

/// The current system time, from std's `SystemTime::now`.
/// Trusted: nothing is stated of the reading, which depends on the clock.
#[verifier::external_body]
fn system_now() -> std::time::SystemTime {
    std::time::SystemTime::now()
}

#[verifier::external_type_specification]
#[verifier::external_body]
pub struct ExSystemTimeError(std::time::SystemTimeError);

/// How far a time lies after the Unix epoch, from std's
/// `SystemTime::duration_since`; the error holds a time before the epoch.
/// Trusted: nothing is stated of the outcome, which depends on the time.
#[verifier::external_body]
fn duration_since_epoch(time: &std::time::SystemTime) -> Result<core::time::Duration, std::time::SystemTimeError> {
    time.duration_since(std::time::UNIX_EPOCH)
}

/// How far before the epoch a time lay, from std's
/// `SystemTimeError::duration`. Trusted: nothing is stated of it.
#[verifier::external_body]
fn before_epoch(error: &std::time::SystemTimeError) -> core::time::Duration {
    error.duration()
}

/// The whole seconds of a duration, from std's `Duration::as_secs`.
/// Trusted: nothing is stated of them.
#[verifier::external_body]
fn whole_seconds(duration: &core::time::Duration) -> u64 {
    duration.as_secs()
}

/// The fractional part of a duration in microseconds, from std's
/// `Duration::subsec_micros`. Trusted: std documents it as the fractional
/// part of a second, below one million.
#[verifier::external_body]
fn fraction_micros(duration: &core::time::Duration) -> (r: u32)
    ensures
        r < 1_000_000,
{
    duration.subsec_micros()
}

/// The distance of `time` from the Unix epoch as whole seconds and
/// microseconds: `Ok` for a time at or after the epoch, `Err` with the
/// distance before it.
fn offset_from_epoch(time: &std::time::SystemTime) -> (r: Result<(u64, u32), (u64, u32)>)
    ensures
        r matches Ok((_, micros)) ==> micros < 1_000_000,
        r matches Err((_, micros)) ==> micros < 1_000_000,
{
    match duration_since_epoch(time) {
        Ok(d) => Ok((whole_seconds(&d), fraction_micros(&d))),
        Err(e) => {
            let d = before_epoch(&e);
            Err((whole_seconds(&d), fraction_micros(&d)))
        },
    }
}

impl ClockSnapshot {
    /// The snapshot for a clock reading given as its distance from the epoch.
    pub fn from_epoch_offset(after_epoch: bool, seconds: u64, micros: u32) -> (r: ClockSnapshot)
        requires
            micros < 1_000_000,
        ensures
            r == spec_clock(after_epoch, seconds, micros),
    {
        let s: i64 = if seconds <= i64::MAX as u64 { seconds as i64 } else { i64::MAX };
        if after_epoch {
            ClockSnapshot { unix_seconds: s, microsecond: micros }
        } else if micros == 0 {
            ClockSnapshot { unix_seconds: -s, microsecond: 0 }
        } else {
            ClockSnapshot { unix_seconds: -s - 1, microsecond: 1_000_000 - micros }
        }
    }

    /// The current UTC clock, with the microsecond part always counted
    /// forwards from the whole second.
    pub fn system_utc() -> (r: ClockSnapshot)
        ensures
            exists|after: bool, seconds: u64, micros: u32|
                micros < 1_000_000 && r == spec_clock(after, seconds, micros),
    {
        let now = system_now();
        match offset_from_epoch(&now) {
            Ok((seconds, micros)) => ClockSnapshot::from_epoch_offset(true, seconds, micros),
            Err((seconds, micros)) => ClockSnapshot::from_epoch_offset(false, seconds, micros),
        }
    }
}

/// The options of one validation call.
#[derive(Clone, Copy, Debug, PartialEq, Eq, Structural)]
pub struct ValidationOptions {
    pub strict: bool,
    pub strict_override: Option<bool>,
    pub profile: InputProfile,
    pub limits: ValidationLimits,
    pub clock: ClockSnapshot,
}

/// Strictness after an explicit override.
pub open spec fn spec_effective_strict(options: ValidationOptions) -> bool {
    match options.strict_override {
        Some(strict) => strict,
        None => options.strict,
    }
}

impl ValidationOptions {
    /// The explicit strictness setting if there is one, else the default.
    pub fn effective_strict(self) -> (r: bool)
        ensures
            r == spec_effective_strict(self),
    {
        match self.strict_override {
            Some(strict) => strict,
            None => self.strict,
        }
    }
}

impl Default for ValidationOptions {
    fn default() -> (r: ValidationOptions)
        ensures
            !r.strict,
            r.strict_override is None,
            r.profile == InputProfile::Native,
            r.limits.max_depth == 128,
            r.limits.max_collection_items == 1_000_000,
            r.limits.max_string_bytes == 64 * 1024 * 1024,
            r.limits.max_numeric_digits == 4_300,
            r.limits.max_decimal_exponent == 4_300,
            r.limits.max_errors == 128,
            r.clock == (ClockSnapshot { unix_seconds: 0, microsecond: 0 }),
    {
        ValidationOptions {
            strict: false,
            strict_override: None,
            profile: InputProfile::Native,
            limits: ValidationLimits::default(),
            clock: ClockSnapshot { unix_seconds: 0, microsecond: 0 },
        }
    }
}

/// Limits are usable when every limit is positive and the depth stays
/// within the hard maximum.
pub open spec fn usable_limits(limits: ValidationLimits) -> bool {
    &&& limits.max_depth > 0
    &&& limits.max_collection_items > 0
    &&& limits.max_string_bytes > 0
    &&& limits.max_numeric_digits > 0
    &&& limits.max_decimal_exponent > 0
    &&& limits.max_errors > 0
    &&& limits.max_depth <= HARD_MAX_DEPTH
}

/// Refuses unusable limits with a `resource_limit` error.
pub fn validate_options(options: ValidationOptions) -> (r: Result<(), ValidationError>)
    ensures
        usable_limits(options.limits) <==> r is Ok,
        r matches Err(e) ==> !e@.1 && e@.0.len() == 1 && e@.0[0].code == "resource_limit"@
            && e@.0[0].message == "Validation limits must be greater than zero"@
            && e@.0[0].expected == "positive limits"@,
        r matches Err(e) ==> e@ == plain_error(
            "resource_limit"@,
            "Validation limits must be greater than zero"@,
            "positive limits"@,
        ),
{
    let limits = options.limits;
    if limits.max_depth == 0 || limits.max_collection_items == 0 || limits.max_string_bytes == 0
        || limits.max_numeric_digits == 0 || limits.max_decimal_exponent == 0 || limits.max_errors == 0
        || limits.max_depth > HARD_MAX_DEPTH {
        Err(type_error("resource_limit", "Validation limits must be greater than zero", "positive limits"))
    } else {
        Ok(())
    }
}

/// The input limits that a validation call imposes on JSON it parses: the
/// string byte limit also bounds the input size, and the collection item
/// limit also bounds the node count.
pub fn json_limits(options: ValidationOptions) -> (r: JsonLimits)
    ensures
        r == (JsonLimits {
            max_input_bytes: options.limits.max_string_bytes,
            max_depth: options.limits.max_depth,
            max_nodes: options.limits.max_collection_items,
            max_string_bytes: options.limits.max_string_bytes,
            max_integer_digits: options.limits.max_numeric_digits,
            max_collection_items: options.limits.max_collection_items,
        }),
{
    JsonLimits {
        max_input_bytes: options.limits.max_string_bytes,
        max_depth: options.limits.max_depth,
        max_nodes: options.limits.max_collection_items,
        max_string_bytes: options.limits.max_string_bytes,
        max_integer_digits: options.limits.max_numeric_digits,
        max_collection_items: options.limits.max_collection_items,
    }
}

/// Usable validation limits give JSON limits that parsing accepts.
pub proof fn law_usable_limits_parse(options: ValidationOptions)
    requires
        usable_limits(options.limits),
    ensures
        crate::input::usable_json_limits(JsonLimits {
            max_input_bytes: options.limits.max_string_bytes,
            max_depth: options.limits.max_depth,
            max_nodes: options.limits.max_collection_items,
            max_string_bytes: options.limits.max_string_bytes,
            max_integer_digits: options.limits.max_numeric_digits,
            max_collection_items: options.limits.max_collection_items,
        }),
{
}

} // verus!
