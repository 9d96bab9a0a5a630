use vstd::prelude::*;

use crate::error::{detail_error, plain_error, type_error, ErrorDetail, ValidationError};
use crate::input::{InputNode, InputValue};
use crate::options::{ClockSnapshot, InputProfile};
use crate::order::{compare_int, then_order, Order};
use crate::constraints::{PatternSchema, RelativeTimeConstraint, TemporalKind, TemporalSchema, UrlConstraints};
use crate::text::{concat, decimal, owned, str_equal, u64_text, usize_text};
use crate::values::{DateTimeValue, DateValue, DurationValue, TimeValue, ValidatedValue};

verus! {

// ---------------------------------------------------------------------------
// Text sources
// ---------------------------------------------------------------------------

/// The text of a string input that a special scalar validator may read in
/// place of its own kind: always, unless strict validation of native input
/// asks for the native kind.
pub open spec fn lenient_string(input: InputNode, strict: bool, profile: InputProfile) -> Option<Seq<char>> {
    match input {
        InputNode::String(s) => if !strict || profile != InputProfile::Native {
            Some(s)
        } else {
            None
        },
        _ => None,
    }
}

// ---------------------------------------------------------------------------
// UUIDs
// ---------------------------------------------------------------------------

/// What uuid's `Uuid::parse_str` gives for a text: the sixteen bytes, or
/// the text of its error.
pub uninterp spec fn parsed_uuid(text: Seq<char>) -> Result<Seq<u8>, Seq<char>>;

/// Parses a UUID with uuid's `Uuid::parse_str`, handing out its bytes or
/// the `Display` text of its error. Trusted: both depend on the text alone.
#[verifier::external_body]
fn parse_uuid(text: &str) -> (r: Result<[u8; 16], String>)
    ensures
        match r {
            Ok(bytes) => parsed_uuid(text@) == Ok::<Seq<u8>, Seq<char>>(bytes@),
            Err(message) => parsed_uuid(text@) == Err::<Seq<u8>, Seq<char>>(message@),
        },
{
    match uuid::Uuid::parse_str(text) {
        Ok(value) => Ok(*value.as_bytes()),
        Err(error) => Err(error.to_string()),
    }
}

/// The text of a UUID input.
pub open spec fn uuid_source(input: InputNode, strict: bool, profile: InputProfile) -> Option<Seq<char>> {
    match input {
        InputNode::Uuid(s) => Some(s),
        _ => lenient_string(input, strict, profile),
    }
}

/// The version number of a UUID: the high four bits of its seventh byte.
pub open spec fn uuid_version(bytes: Seq<u8>) -> nat {
    (bytes[6] / 16) as nat
}

/// What `validate_uuid` answers: the UUID's bytes, or the view of its error.
pub open spec fn uuid_outcome(input: InputNode, strict: bool, profile: InputProfile, required: Option<u8>) -> Result<
    Seq<u8>,
    (Seq<crate::error::DetailView>, bool),
> {
    match uuid_source(input, strict, profile) {
        None => Err(plain_error("uuid_type"@, "Input must be a UUID"@, "uuid"@)),
        Some(text) => match parsed_uuid(text) {
            Err(message) => Err(
                detail_error(
                    "uuid_parsing"@,
                    "Input must be a valid UUID"@,
                    "uuid"@,
                    seq![("error"@, message)],
                ),
            ),
            Ok(bytes) => match required {
                Some(version) => if uuid_version(bytes) != version {
                    Err(
                        detail_error(
                            "uuid_version"@,
                            "UUID version does not match"@,
                            "uuid version "@ + decimal(version as nat),
                            seq![
                                ("expected_version"@, decimal(version as nat)),
                                ("actual_version"@, decimal(uuid_version(bytes))),
                            ],
                        ),
                    )
                } else {
                    Ok(bytes)
                },
                None => Ok(bytes),
            },
        },
    }
}

/// Validates a UUID: a UUID input, or a string where strict native
/// validation does not ask for the native kind, parsed by uuid and checked
/// against a required version.
pub fn validate_uuid(input: &InputValue, strict: bool, profile: InputProfile, required_version: Option<u8>) -> (r:
    Result<ValidatedValue, ValidationError>)
    ensures
        match uuid_outcome(input@, strict, profile, required_version) {
            Ok(bytes) => r matches Ok(ValidatedValue::Uuid(b)) && b@ == bytes,
            Err(view) => r matches Err(e) && e@ == view,
        },
{
    let source = match input {
        InputValue::Uuid(value) => value.as_str(),
        InputValue::String(value) if !strict || profile != InputProfile::Native => value.as_str(),
        _ => return Err(type_error("uuid_type", "Input must be a UUID", "uuid")),
    };
    let bytes = match parse_uuid(source) {
        Ok(bytes) => bytes,
        Err(message) => {
            let detail = ErrorDetail::new("uuid_parsing", owned("Input must be a valid UUID")).expected(
                owned("uuid"),
            ).context("error", message);
            let e = ValidationError::one(detail);
            proof {
                assert(detail@.context =~= seq![("error"@, message@)]);
                assert(detail@.location =~= Seq::<crate::error::LocationStep>::empty());
                assert(e@.0 =~= detail_error(
                    "uuid_parsing"@,
                    "Input must be a valid UUID"@,
                    "uuid"@,
                    seq![("error"@, message@)],
                ).0);
            }
            return Err(e);
        },
    };
    if let Some(required) = required_version {
        let actual: u8 = bytes[6] >> 4;
        proof {
            let b = bytes[6];
            assert(b >> 4 == b / 16) by (bit_vector);
        }
        if actual != required {
            let required_text = u64_text(required as u64);
            let mut expected = owned("uuid version ");
            expected.append(required_text.as_str());
            let first = ErrorDetail::new("uuid_version", owned("UUID version does not match")).expected(
                expected,
            ).context("expected_version", required_text);
            proof {
                reveal_strlit("expected_version");
                reveal_strlit("actual_version");
                assert("expected_version"@ != "actual_version"@) by {
                    assert("expected_version"@[0] != "actual_version"@[0]);
                }
            }
            let detail = first.context("actual_version", u64_text(actual as u64));
            let e = ValidationError::one(detail);
            proof {
                assert(detail@.context =~= seq![
                    ("expected_version"@, decimal(required as nat)),
                    ("actual_version"@, decimal(actual as nat)),
                ]);
                assert(detail@.location =~= Seq::<crate::error::LocationStep>::empty());
                assert(detail@.expected =~= "uuid version "@ + decimal(required as nat));
                assert(e@.0 =~= uuid_outcome(input@, strict, profile, required_version)->Err_0.0);
            }
            return Err(e);
        }
    }
    Ok(ValidatedValue::Uuid(bytes))
}

// ---------------------------------------------------------------------------
// URLs
// ---------------------------------------------------------------------------

/// What url's `Url::parse` gives for a text: whether the URL cannot be a
/// base, its scheme and its serialization, or the text of its error.
pub uninterp spec fn parsed_url(text: Seq<char>) -> Result<(bool, Seq<char>, Seq<char>), Seq<char>>;

/// Parses an absolute URL with url's `Url::parse`, handing out
/// `cannot_be_a_base`, `scheme` and the `Display` serialization, or the
/// `Display` text of the error. Trusted: all of them depend on the text
/// alone.
#[verifier::external_body]
fn parse_url(text: &str) -> (r: Result<(bool, String, String), String>)
    ensures
        match r {
            Ok((opaque, scheme, serialized)) => parsed_url(text@) == Ok::<
                (bool, Seq<char>, Seq<char>),
                Seq<char>,
            >((opaque, scheme@, serialized@)),
            Err(message) => parsed_url(text@) == Err::<(bool, Seq<char>, Seq<char>), Seq<char>>(message@),
        },
{
    match url::Url::parse(text) {
        Ok(value) => Ok((value.cannot_be_a_base(), value.scheme().to_owned(), value.to_string())),
        Err(error) => Err(error.to_string()),
    }
}

/// The text of a URL input.
pub open spec fn url_source(input: InputNode, strict: bool, profile: InputProfile) -> Option<Seq<char>> {
    match input {
        InputNode::Url(s) => Some(s),
        _ => lenient_string(input, strict, profile),
    }
}

/// Whether a scheme is among the allowed ones.
pub open spec fn scheme_listed(allowed: Seq<Seq<char>>, scheme: Seq<char>) -> bool {
    exists|i: int| 0 <= i < allowed.len() && allowed[i] == scheme
}

/// What `validate_url` answers: the URL's serialization, or the view of its
/// error.
pub open spec fn url_outcome(
    input: InputNode,
    strict: bool,
    profile: InputProfile,
    max_length: Option<usize>,
    allowed: Seq<Seq<char>>,
) -> Result<Seq<char>, (Seq<crate::error::DetailView>, bool)> {
    match url_source(input, strict, profile) {
        None => Err(plain_error("url_type"@, "Input must be a URL"@, "url"@)),
        Some(text) => if max_length matches Some(m) && text.len() > m {
            Err(
                detail_error(
                    "url_too_long"@,
                    "URL is too long"@,
                    "URL within the configured length"@,
                    seq![("max_length"@, decimal(max_length->0 as nat))],
                ),
            )
        } else {
            match parsed_url(text) {
                Err(message) => Err(
                    detail_error(
                        "url_parsing"@,
                        "Input must be a valid absolute URL"@,
                        "absolute url"@,
                        seq![("error"@, message)],
                    ),
                ),
                Ok((opaque, scheme, serialized)) => if opaque && scheme != "mailto"@ {
                    Err(
                        plain_error(
                            "url_scheme"@,
                            "URL scheme does not support hierarchical URLs"@,
                            "hierarchical url"@,
                        ),
                    )
                } else if allowed.len() > 0 && !scheme_listed(allowed, scheme) {
                    Err(
                        detail_error(
                            "url_scheme"@,
                            "URL scheme is not allowed"@,
                            "configured URL scheme"@,
                            seq![("scheme"@, scheme)],
                        ),
                    )
                } else {
                    Ok(serialized)
                },
            }
        },
    }
}

/// Validates a URL: a URL input, or a string where strict native validation
/// does not ask for the native kind, within the length bound, parsed by url
/// as an absolute hierarchical URL (or a `mailto` URL) with an allowed
/// scheme.
pub fn validate_url(input: &InputValue, strict: bool, profile: InputProfile, constraints: &UrlConstraints) -> (r:
    Result<ValidatedValue, ValidationError>)
    ensures
        match url_outcome(
            input@,
            strict,
            profile,
            constraints.max_length,
            constraints.allowed_schemes@.map_values(|s: String| s@),
        ) {
            Ok(text) => r matches Ok(ValidatedValue::Url(t)) && t@ == text,
            Err(view) => r matches Err(e) && e@ == view,
        },
{
    let source = match input {
        InputValue::Url(value) => value.as_str(),
        InputValue::String(value) if !strict || profile != InputProfile::Native => value.as_str(),
        _ => return Err(type_error("url_type", "Input must be a URL", "url")),
    };
    if let Some(maximum) = constraints.max_length {
        if source.unicode_len() > maximum {
            let detail = ErrorDetail::new("url_too_long", owned("URL is too long")).expected(
                owned("URL within the configured length"),
            ).context("max_length", usize_text(maximum));
            let e = ValidationError::one(detail);
            proof {
                assert(detail@.context =~= seq![("max_length"@, decimal(maximum as nat))]);
                assert(detail@.location =~= Seq::<crate::error::LocationStep>::empty());
                assert(e@.0 =~= detail_error(
                    "url_too_long"@,
                    "URL is too long"@,
                    "URL within the configured length"@,
                    seq![("max_length"@, decimal(maximum as nat))],
                ).0);
            }
            return Err(e);
        }
    }
    let (opaque, scheme, serialized) = match parse_url(source) {
        Ok(parts) => parts,
        Err(message) => {
            let detail = ErrorDetail::new("url_parsing", owned("Input must be a valid absolute URL")).expected(
                owned("absolute url"),
            ).context("error", message);
            let e = ValidationError::one(detail);
            proof {
                assert(detail@.context =~= seq![("error"@, message@)]);
                assert(detail@.location =~= Seq::<crate::error::LocationStep>::empty());
                assert(e@.0 =~= detail_error(
                    "url_parsing"@,
                    "Input must be a valid absolute URL"@,
                    "absolute url"@,
                    seq![("error"@, message@)],
                ).0);
            }
            return Err(e);
        },
    };
    if opaque && !str_equal(scheme.as_str(), "mailto") {
        return Err(type_error("url_scheme", "URL scheme does not support hierarchical URLs", "hierarchical url"));
    }
    let allowed = &constraints.allowed_schemes;
    let ghost names = allowed@.map_values(|s: String| s@);
    if allowed.len() > 0 {
        let mut found = false;
        let mut i: usize = 0;
        while i < allowed.len()
            invariant
                i <= allowed.len(),
                names == allowed@.map_values(|s: String| s@),
                found <==> exists|j: int| 0 <= j < i && names[j] == scheme@,
            decreases allowed.len() - i,
        {
            if str_equal(allowed[i].as_str(), scheme.as_str()) {
                found = true;
            }
            proof {
                assert(names[i as int] == allowed@[i as int]@);
                if found {
                    if names[i as int] == scheme@ {
                        assert(exists|j: int| 0 <= j < i + 1 && names[j] == scheme@);
                    }
                } else {
                    assert forall|j: int| 0 <= j < i + 1 implies names[j] != scheme@ by {
                        if j < i {
                            assert(!(0 <= j < i && names[j] == scheme@));
                        }
                    }
                }
            }
            i += 1;
        }
        if !found {
            let detail = ErrorDetail::new("url_scheme", owned("URL scheme is not allowed")).expected(
                owned("configured URL scheme"),
            ).context("scheme", scheme);
            let e = ValidationError::one(detail);
            proof {
                assert(detail@.context =~= seq![("scheme"@, scheme@)]);
                assert(detail@.location =~= Seq::<crate::error::LocationStep>::empty());
                assert(e@.0 =~= detail_error(
                    "url_scheme"@,
                    "URL scheme is not allowed"@,
                    "configured URL scheme"@,
                    seq![("scheme"@, scheme@)],
                ).0);
            }
            return Err(e);
        }
    }
    Ok(ValidatedValue::Url(serialized))
}

// ---------------------------------------------------------------------------
// Patterns
// ---------------------------------------------------------------------------

/// The flag bit for case-insensitive matching.
pub const FLAG_CASE_INSENSITIVE: u8 = 1;

/// The flag bit for `^` and `$` matching at line ends.
pub const FLAG_MULTI_LINE: u8 = 2;

/// The flag bit for `.` matching a line end.
pub const FLAG_DOT_MATCHES_NEW_LINE: u8 = 4;

/// The heap limit, in bytes, of a compiled pattern.
pub const PATTERN_SIZE_LIMIT: usize = 1048576;

/// The cache limit, in bytes, of a compiled pattern's lazy DFA.
pub const PATTERN_DFA_SIZE_LIMIT: usize = 2097152;

/// What is handed to regex's `RegexBuilder` to compile a pattern: the
/// pattern text, the three options, and the two size limits.
#[derive(Clone, Debug, PartialEq, Eq)]
pub struct RegexRequest {
    pub source: String,
    pub case_insensitive: bool,
    pub multi_line: bool,
    pub dot_matches_new_line: bool,
    pub size_limit: usize,
    pub dfa_size_limit: usize,
}

/// The request that compiles a pattern text with the options its flags
/// set, under the size limits of pattern values.
pub fn regex_request(source: &str, flags: u8) -> (r: RegexRequest)
    ensures
        r.source@ == source@,
        r.case_insensitive == (flags & FLAG_CASE_INSENSITIVE != 0),
        r.multi_line == (flags & FLAG_MULTI_LINE != 0),
        r.dot_matches_new_line == (flags & FLAG_DOT_MATCHES_NEW_LINE != 0),
        r.size_limit == PATTERN_SIZE_LIMIT,
        r.dfa_size_limit == PATTERN_DFA_SIZE_LIMIT,
{
    RegexRequest {
        source: owned(source),
        case_insensitive: flags & FLAG_CASE_INSENSITIVE != 0,
        multi_line: flags & FLAG_MULTI_LINE != 0,
        dot_matches_new_line: flags & FLAG_DOT_MATCHES_NEW_LINE != 0,
        size_limit: PATTERN_SIZE_LIMIT,
        dfa_size_limit: PATTERN_DFA_SIZE_LIMIT,
    }
}

/// Compiles a request with regex's `RegexBuilder`, handing out the
/// `Display` text of the error when it fails. Nothing is stated of the
/// outcome: whether a pattern fits the size limits depends on how large the
/// compiled program is on this machine.
#[verifier::external_body]
fn compile_pattern(request: &RegexRequest) -> (r: Option<String>) {
    regex::RegexBuilder::new(&request.source).case_insensitive(request.case_insensitive).multi_line(
        request.multi_line,
    ).dot_matches_new_line(request.dot_matches_new_line).size_limit(request.size_limit).dfa_size_limit(
        request.dfa_size_limit,
    ).build().err().map(|error| error.to_string())
}

/// What a pattern validator answers once regex has compiled, or refused
/// with a message, the request for a pattern text and its flags.
pub open spec fn spec_pattern_outcome(source: Seq<char>, flags: u8, refused: Option<Seq<char>>) -> Result<
    (Seq<char>, u8),
    (Seq<crate::error::DetailView>, bool),
> {
    match refused {
        None => Ok((source, flags)),
        Some(message) => Err(
            detail_error(
                "pattern_parsing"@,
                "Input must be a valid regular expression"@,
                "Rust regex syntax"@,
                seq![("error"@, message)],
            ),
        ),
    }
}

/// Whether `r` is what a pattern validator answers for a text and its
/// flags when regex compiled the request (`refused` is none) or refused it
/// with a message.
pub open spec fn pattern_answer(
    r: Result<ValidatedValue, ValidationError>,
    source: Seq<char>,
    flags: u8,
    refused: Option<Seq<char>>,
) -> bool {
    match spec_pattern_outcome(source, flags, refused) {
        Ok((s, f)) => r matches Ok(ValidatedValue::Pattern { source: v, flags: g }) && v@ == s && g == f,
        Err(view) => r matches Err(e) && e@ == view,
    }
}

/// Whether `r` is what a pattern validator answers for a text and its
/// flags, whichever way regex decides on the request.
pub open spec fn pattern_compiled(r: Result<ValidatedValue, ValidationError>, source: Seq<char>, flags: u8) -> bool {
    exists|refused: Option<Seq<char>>| #[trigger] pattern_answer(r, source, flags, refused)
}

/// The pattern value of a text and its flags when regex compiled it, or
/// the parsing error with regex's message when regex refused it.
pub fn pattern_outcome(source: &str, flags: u8, refused: Option<String>) -> (r: Result<ValidatedValue, ValidationError>)
    ensures
        match spec_pattern_outcome(source@, flags, match refused {
            Some(m) => Some(m@),
            None => None,
        }) {
            Ok((s, f)) => r matches Ok(ValidatedValue::Pattern { source: v, flags: g }) && v@ == s && g == f,
            Err(view) => r matches Err(e) && e@ == view,
        },
{
    match refused {
        None => Ok(ValidatedValue::Pattern { source: owned(source), flags }),
        Some(message) => {
            let ghost m = message@;
            let detail = ErrorDetail::new("pattern_parsing", owned("Input must be a valid regular expression")).expected(
                owned("Rust regex syntax"),
            ).context("error", message);
            let e = ValidationError::one(detail);
            proof {
                assert(detail@.context =~= seq![("error"@, m)]);
                assert(detail@.location =~= Seq::<crate::error::LocationStep>::empty());
                assert(e@.0 =~= detail_error(
                    "pattern_parsing"@,
                    "Input must be a valid regular expression"@,
                    "Rust regex syntax"@,
                    seq![("error"@, m)],
                ).0);
            }
            Err(e)
        },
    }
}

/// The text and flags of a pattern input.
pub open spec fn pattern_source(input: InputNode, strict: bool, profile: InputProfile) -> Option<(Seq<char>, u8)> {
    match input {
        InputNode::Pattern { source, flags } => Some((source, flags)),
        _ => match lenient_string(input, strict, profile) {
            Some(s) => Some((s, 0u8)),
            None => None,
        },
    }
}

/// The flags that a pattern schema adds.
pub open spec fn schema_flags(schema: PatternSchema) -> u8 {
    (if schema.case_insensitive { FLAG_CASE_INSENSITIVE } else { 0u8 }) | (if schema.multi_line {
        FLAG_MULTI_LINE
    } else {
        0u8
    }) | (if schema.dot_matches_new_line { FLAG_DOT_MATCHES_NEW_LINE } else { 0u8 })
}

/// Whether flags hold no bit besides the three known ones.
pub open spec fn known_flags(flags: u8) -> bool {
    flags & !(FLAG_CASE_INSENSITIVE | FLAG_MULTI_LINE | FLAG_DOT_MATCHES_NEW_LINE) == 0
}

/// Validates a pattern: a pattern input, or a string where strict native
/// validation does not ask for the native kind, with the input's and the
/// schema's flags, compiled by regex under fixed size limits.
pub fn validate_pattern(input: &InputValue, strict: bool, profile: InputProfile, schema: &PatternSchema) -> (r:
    Result<ValidatedValue, ValidationError>)
    ensures
        pattern_source(input@, strict, profile) is None ==> (r matches Err(e) && e@ == plain_error(
            "pattern_type"@,
            "Input must be a regular expression pattern"@,
            "pattern"@,
        )),
        pattern_source(input@, strict, profile) matches Some((source, flags)) ==> if !known_flags(
            flags | schema_flags(*schema),
        ) {
            r matches Err(e) && e@ == plain_error(
                "pattern_flags"@,
                "Pattern contains unsupported flags"@,
                "supported pattern flags"@,
            )
        } else {
            pattern_compiled(r, source, flags | schema_flags(*schema))
        },
{
    let (source, input_flags) = match input {
        InputValue::Pattern { source, flags } => (source.as_str(), *flags),
        InputValue::String(value) if !strict || profile != InputProfile::Native => (value.as_str(), 0u8),
        _ => {
            return Err(type_error("pattern_type", "Input must be a regular expression pattern", "pattern"));
        },
    };
    let added: u8 = (if schema.case_insensitive { FLAG_CASE_INSENSITIVE } else { 0u8 }) | (if schema.multi_line {
        FLAG_MULTI_LINE
    } else {
        0u8
    }) | (if schema.dot_matches_new_line { FLAG_DOT_MATCHES_NEW_LINE } else { 0u8 });
    let flags: u8 = input_flags | added;
    if flags & !(FLAG_CASE_INSENSITIVE | FLAG_MULTI_LINE | FLAG_DOT_MATCHES_NEW_LINE) != 0 {
        return Err(type_error("pattern_flags", "Pattern contains unsupported flags", "supported pattern flags"));
    }
    let request = regex_request(source, flags);
    let refused = compile_pattern(&request);
    let ghost witness = match &refused {
        Some(m) => Some(m@),
        None => None,
    };
    let r = pattern_outcome(source, flags, refused);
    proof {
        assert(pattern_source(input@, strict, profile) == Some((source@, input_flags)));
        assert(flags == input_flags | schema_flags(*schema));
        assert(known_flags(flags));
        assert(pattern_answer(r, source@, flags, witness));
        assert(pattern_compiled(r, source@, flags));
    }
    r
}

// ---------------------------------------------------------------------------
// Dates, times and durations
// ---------------------------------------------------------------------------

/// What speedate's `Date::parse_str` gives for a text: year, month and day,
/// or the text of its error.
pub uninterp spec fn parsed_date(text: Seq<char>) -> Result<(u16, u8, u8), Seq<char>>;

/// What speedate's `Time::parse_str` gives for a text: hour, minute,
/// second, microsecond and offset, or the text of its error.
pub uninterp spec fn parsed_time(text: Seq<char>) -> Result<(u8, u8, u8, u32, Option<i32>), Seq<char>>;

/// What speedate's `DateTime::parse_str` gives for a text: the date, the
/// time and the value's `timestamp_tz`, or the text of its error.
pub uninterp spec fn parsed_datetime(text: Seq<char>) -> Result<
    ((u16, u8, u8), (u8, u8, u8, u32, Option<i32>), i64),
    Seq<char>,
>;

/// What speedate's `Duration::parse_str` gives for a text: sign, days,
/// seconds and microseconds, or the text of its error.
pub uninterp spec fn parsed_duration(text: Seq<char>) -> Result<(bool, u32, u32, u32), Seq<char>>;

/// The calendar date that speedate's `DateTime::from_timestamp_with_config`
/// gives for a timestamp in seconds, or the text of its error.
pub uninterp spec fn timestamp_date(seconds: i64, microsecond: u32) -> Result<(u16, u8, u8), Seq<char>>;

/// Parses a date with speedate's `Date::parse_str`, handing out its fields
/// or the `Display` text of the error. Trusted: both depend on the text
/// alone.
#[verifier::external_body]
fn parse_date(text: &str) -> (r: Result<(u16, u8, u8), String>)
    ensures
        match r {
            Ok(d) => parsed_date(text@) == Ok::<(u16, u8, u8), Seq<char>>(d),
            Err(message) => parsed_date(text@) == Err::<(u16, u8, u8), Seq<char>>(message@),
        },
{
    match speedate::Date::parse_str(text) {
        Ok(value) => Ok((value.year, value.month, value.day)),
        Err(error) => Err(error.to_string()),
    }
}

/// Parses a time of day with speedate's `Time::parse_str`, handing out its
/// fields or the `Display` text of the error. Trusted: both depend on the
/// text alone.
#[verifier::external_body]
fn parse_time(text: &str) -> (r: Result<(u8, u8, u8, u32, Option<i32>), String>)
    ensures
        match r {
            Ok(t) => parsed_time(text@) == Ok::<(u8, u8, u8, u32, Option<i32>), Seq<char>>(t),
            Err(message) => parsed_time(text@) == Err::<(u8, u8, u8, u32, Option<i32>), Seq<char>>(message@),
        },
{
    match speedate::Time::parse_str(text) {
        Ok(value) => Ok((value.hour, value.minute, value.second, value.microsecond, value.tz_offset)),
        Err(error) => Err(error.to_string()),
    }
}

/// Parses a date and time with speedate's `DateTime::parse_str`, handing out
/// its fields and its `timestamp_tz`, or the `Display` text of the error.
/// Trusted: all of them depend on the text alone.
#[verifier::external_body]
fn parse_datetime(text: &str) -> (r: Result<((u16, u8, u8), (u8, u8, u8, u32, Option<i32>), i64), String>)
    ensures
        match r {
            Ok(v) => parsed_datetime(text@) == Ok::<
                ((u16, u8, u8), (u8, u8, u8, u32, Option<i32>), i64),
                Seq<char>,
            >(v),
            Err(message) => parsed_datetime(text@) == Err::<
                ((u16, u8, u8), (u8, u8, u8, u32, Option<i32>), i64),
                Seq<char>,
            >(message@),
        },
{
    match speedate::DateTime::parse_str(text) {
        Ok(value) => Ok((
            (value.date.year, value.date.month, value.date.day),
            (value.time.hour, value.time.minute, value.time.second, value.time.microsecond, value.time.tz_offset),
            value.timestamp_tz(),
        )),
        Err(error) => Err(error.to_string()),
    }
}

/// Parses a duration with speedate's `Duration::parse_str`, handing out its
/// fields or the `Display` text of the error. Trusted: both depend on the
/// text alone.
#[verifier::external_body]
fn parse_duration(text: &str) -> (r: Result<(bool, u32, u32, u32), String>)
    ensures
        match r {
            Ok(d) => parsed_duration(text@) == Ok::<(bool, u32, u32, u32), Seq<char>>(d),
            Err(message) => parsed_duration(text@) == Err::<(bool, u32, u32, u32), Seq<char>>(message@),
        },
{
    match speedate::Duration::parse_str(text) {
        Ok(value) => Ok((value.positive, value.day, value.second, value.microsecond)),
        Err(error) => Err(error.to_string()),
    }
}

/// The calendar date of a timestamp in seconds, by speedate's
/// `DateTime::from_timestamp_with_config` with the timestamp read as
/// seconds, or the `Display` text of its error. Trusted: both depend on the
/// arguments alone.
#[verifier::external_body]
fn date_of_timestamp(seconds: i64, microsecond: u32) -> (r: Result<(u16, u8, u8), String>)
    ensures
        match r {
            Ok(d) => timestamp_date(seconds, microsecond) == Ok::<(u16, u8, u8), Seq<char>>(d),
            Err(message) => timestamp_date(seconds, microsecond) == Err::<(u16, u8, u8), Seq<char>>(message@),
        },
{
    let config = speedate::DateTimeConfig::builder().timestamp_unit(speedate::TimestampUnit::Second).build();
    match speedate::DateTime::from_timestamp_with_config(seconds, microsecond, &config) {
        Ok(value) => Ok((value.date.year, value.date.month, value.date.day)),
        Err(error) => Err(error.to_string()),
    }
}

/// The text of a temporal input, and its native kind when it has one.
pub open spec fn temporal_source(input: InputNode) -> Option<(Seq<char>, Option<TemporalKind>)> {
    match input {
        InputNode::Date(s) => Some((s, Some(TemporalKind::Date))),
        InputNode::Time(s) => Some((s, Some(TemporalKind::Time))),
        InputNode::DateTime(s) => Some((s, Some(TemporalKind::DateTime))),
        InputNode::Duration(s) => Some((s, Some(TemporalKind::Duration))),
        InputNode::String(s) => Some((s, None)),
        _ => None,
    }
}

/// The name of a temporal kind.
pub open spec fn spec_temporal_name(kind: TemporalKind) -> Seq<char> {
    match kind {
        TemporalKind::Date => "date"@,
        TemporalKind::Time => "time"@,
        TemporalKind::DateTime => "datetime"@,
        TemporalKind::Duration => "duration"@,
    }
}

/// The name of a temporal kind.
pub fn temporal_name(kind: TemporalKind) -> (r: &'static str)
    ensures
        r@ == spec_temporal_name(kind),
{
    match kind {
        TemporalKind::Date => "date",
        TemporalKind::Time => "time",
        TemporalKind::DateTime => "datetime",
        TemporalKind::Duration => "duration",
    }
}

/// The error view of a text that speedate refused.
pub open spec fn parse_fault(message: Seq<char>, expected: Seq<char>) -> (Seq<crate::error::DetailView>, bool) {
    detail_error("temporal_parsing"@, "Input must be a valid temporal value"@, expected, seq![("error"@, message)])
}

fn temporal_parse_error(message: String, expected: &'static str) -> (r: ValidationError)
    ensures
        r@ == parse_fault(message@, expected@),
{
    let ghost m = message@;
    let detail = ErrorDetail::new("temporal_parsing", owned("Input must be a valid temporal value")).expected(
        owned(expected),
    ).context("error", message);
    let e = ValidationError::one(detail);
    proof {
        assert(detail@.context =~= seq![("error"@, m)]);
        assert(detail@.location =~= Seq::<crate::error::LocationStep>::empty());
        assert(e@.0 =~= parse_fault(m, expected@).0);
    }
    e
}

/// The error code of a relative-time failure.
pub open spec fn spec_relative_code(kind: Seq<char>, direction: Seq<char>) -> Seq<char> {
    if kind == "date"@ && direction == "past"@ {
        "date_past"@
    } else if kind == "date"@ && direction == "future"@ {
        "date_future"@
    } else if direction == "past"@ {
        "datetime_past"@
    } else {
        "datetime_future"@
    }
}

/// The error code of a relative-time failure.
pub fn relative_code(kind: &'static str, direction: &'static str) -> (r: &'static str)
    ensures
        r@ == spec_relative_code(kind@, direction@),
{
    let date = str_equal(kind, "date");
    if date && str_equal(direction, "past") {
        "date_past"
    } else if date && str_equal(direction, "future") {
        "date_future"
    } else if str_equal(direction, "past") {
        "datetime_past"
    } else {
        "datetime_future"
    }
}

/// The error view of a value that lies on the wrong side of the clock, or
/// nothing: a past value must come before the clock, a future one after it.
pub open spec fn relative_fault(order: Order, relative: Option<RelativeTimeConstraint>, kind: Seq<char>) -> Option<
    (Seq<crate::error::DetailView>, bool),
> {
    match relative {
        Some(RelativeTimeConstraint::Past) => if order != Order::Less {
            Some(
                detail_error(
                    spec_relative_code(kind, "past"@),
                    "Input must be in the past"@,
                    "past "@ + kind,
                    Seq::empty(),
                ),
            )
        } else {
            None
        },
        Some(RelativeTimeConstraint::Future) => if order != Order::Greater {
            Some(
                detail_error(
                    spec_relative_code(kind, "future"@),
                    "Input must be in the future"@,
                    "future "@ + kind,
                    Seq::empty(),
                ),
            )
        } else {
            None
        },
        None => None,
    }
}

/// Checks a value's order against the clock under a relative constraint.
pub fn validate_relative(order: Order, relative: Option<RelativeTimeConstraint>, kind: &'static str) -> (r: Result<
    (),
    ValidationError,
>)
    ensures
        match relative_fault(order, relative, kind@) {
            None => r is Ok,
            Some(view) => r matches Err(e) && e@ == view,
        },
{
    match relative {
        Some(RelativeTimeConstraint::Past) => {
            if order != Order::Less {
                let detail = ErrorDetail::new(relative_code(kind, "past"), owned("Input must be in the past")).expected(
                    concat("past ", kind),
                );
                let e = ValidationError::one(detail);
                proof {
                    assert(detail@.location =~= Seq::<crate::error::LocationStep>::empty());
                    assert(detail@.context =~= Seq::<(Seq<char>, Seq<char>)>::empty());
                    let view = relative_fault(order, relative, kind@)->0;
                    assert(e@.0 =~= view.0);
                }
                return Err(e);
            }
        },
        Some(RelativeTimeConstraint::Future) => {
            if order != Order::Greater {
                let detail = ErrorDetail::new(relative_code(kind, "future"), owned("Input must be in the future")).expected(
                    concat("future ", kind),
                );
                let e = ValidationError::one(detail);
                proof {
                    assert(detail@.location =~= Seq::<crate::error::LocationStep>::empty());
                    assert(detail@.context =~= Seq::<(Seq<char>, Seq<char>)>::empty());
                    let view = relative_fault(order, relative, kind@)->0;
                    assert(e@.0 =~= view.0);
                }
                return Err(e);
            }
        },
        None => {},
    }
    Ok(())
}

/// Calendar dates in their natural order: by year, then month, then day.
pub open spec fn date_order(a: (u16, u8, u8), b: (u16, u8, u8)) -> Order {
    then_order(compare_int(a.0 as int, b.0 as int), then_order(compare_int(a.1 as int, b.1 as int), compare_int(a.2 as int, b.2 as int)))
}

fn order_dates(a: (u16, u8, u8), b: (u16, u8, u8)) -> (r: Order)
    ensures
        r == date_order(a, b),
{
    if a.0 != b.0 {
        if a.0 < b.0 { Order::Less } else { Order::Greater }
    } else if a.1 != b.1 {
        if a.1 < b.1 { Order::Less } else { Order::Greater }
    } else if a.2 < b.2 {
        Order::Less
    } else if a.2 == b.2 {
        Order::Equal
    } else {
        Order::Greater
    }
}

/// The position of a calendar date on one line: years weigh most, then
/// months, then days (a month or a day never reaches 256).
pub open spec fn calendar_key(d: (u16, u8, u8)) -> int {
    d.0 as int * 65536 + d.1 as int * 256 + d.2 as int
}

/// Dates are ordered as the calendar orders them: the order of two dates is
/// the order of their positions on the calendar line; within a year a later
/// month comes after an earlier one whatever their days, and within a month
/// a later day comes after an earlier one; only equal dates are equal.
pub proof fn law_date_order_is_calendar_order(a: (u16, u8, u8), b: (u16, u8, u8))
    ensures
        date_order(a, b) == compare_int(calendar_key(a), calendar_key(b)),
        a.0 < b.0 ==> date_order(a, b) == Order::Less,
        a.0 == b.0 && a.1 < b.1 ==> date_order(a, b) == Order::Less,
        a.0 == b.0 && a.1 == b.1 && a.2 < b.2 ==> date_order(a, b) == Order::Less,
        date_order(a, b) == Order::Equal <==> a == b,
        date_order(a, b) == Order::Greater <==> date_order(b, a) == Order::Less,
{
    let ra = a.1 as int * 256 + a.2 as int;
    let rb = b.1 as int * 256 + b.2 as int;
    assert(0 <= ra <= 65535 && 0 <= rb <= 65535) by (nonlinear_arith)
        requires
            ra == a.1 as int * 256 + a.2 as int,
            rb == b.1 as int * 256 + b.2 as int,
            0 <= a.1 <= 255,
            0 <= a.2 <= 255,
            0 <= b.1 <= 255,
            0 <= b.2 <= 255,
    ;
    assert(a.0 < b.0 ==> calendar_key(a) < calendar_key(b)) by (nonlinear_arith)
        requires
            calendar_key(a) == a.0 as int * 65536 + ra,
            calendar_key(b) == b.0 as int * 65536 + rb,
            0 <= ra <= 65535,
            0 <= rb <= 65535,
    ;
    assert(a.0 > b.0 ==> calendar_key(a) > calendar_key(b)) by (nonlinear_arith)
        requires
            calendar_key(a) == a.0 as int * 65536 + ra,
            calendar_key(b) == b.0 as int * 65536 + rb,
            0 <= ra <= 65535,
            0 <= rb <= 65535,
    ;
    assert(a.1 < b.1 ==> ra < rb) by (nonlinear_arith)
        requires
            ra == a.1 as int * 256 + a.2 as int,
            rb == b.1 as int * 256 + b.2 as int,
            0 <= a.2 <= 255,
            0 <= b.2 <= 255,
    ;
    assert(a.1 > b.1 ==> ra > rb) by (nonlinear_arith)
        requires
            ra == a.1 as int * 256 + a.2 as int,
            rb == b.1 as int * 256 + b.2 as int,
            0 <= a.2 <= 255,
            0 <= b.2 <= 255,
    ;
}

/// A date that a past constraint accepts lies strictly before the clock's
/// date on the calendar, and a future one strictly after it; a parsed date
/// on the wrong side of the clock's date (or on it) is refused with
/// `date_past` or `date_future`.
pub proof fn law_relative_dates_follow_the_calendar(
    schema: TemporalSchema,
    input: InputNode,
    strict: bool,
    profile: InputProfile,
    clock: ClockSnapshot,
)
    requires
        schema.kind == TemporalKind::Date,
    ensures
        schema.relative == Some(RelativeTimeConstraint::Past) ==> (temporal_outcome(
            schema,
            input,
            strict,
            profile,
            clock,
        ) matches Ok(ValidatedValue::Date(v)) ==> timestamp_date(clock.unix_seconds, clock.microsecond) matches Ok(
            today,
        ) && calendar_key((v.year, v.month, v.day)) < calendar_key(today)),
        schema.relative == Some(RelativeTimeConstraint::Future) ==> (temporal_outcome(
            schema,
            input,
            strict,
            profile,
            clock,
        ) matches Ok(ValidatedValue::Date(v)) ==> timestamp_date(clock.unix_seconds, clock.microsecond) matches Ok(
            today,
        ) && calendar_key((v.year, v.month, v.day)) > calendar_key(today)),
        ({
            &&& temporal_source(input) matches Some((text, native))
            &&& !(strict && profile == InputProfile::Native && native != Some(TemporalKind::Date))
            &&& parsed_date(text) matches Ok(d)
            &&& timestamp_date(clock.unix_seconds, clock.microsecond) matches Ok(today)
            &&& schema.relative == Some(RelativeTimeConstraint::Past)
            &&& calendar_key(d) >= calendar_key(today)
        }) ==> (temporal_outcome(schema, input, strict, profile, clock) matches Err(e) && e.0.len() == 1 && e.0[0].code
            == "date_past"@),
        ({
            &&& temporal_source(input) matches Some((text, native))
            &&& !(strict && profile == InputProfile::Native && native != Some(TemporalKind::Date))
            &&& parsed_date(text) matches Ok(d)
            &&& timestamp_date(clock.unix_seconds, clock.microsecond) matches Ok(today)
            &&& schema.relative == Some(RelativeTimeConstraint::Future)
            &&& calendar_key(d) <= calendar_key(today)
        }) ==> (temporal_outcome(schema, input, strict, profile, clock) matches Err(e) && e.0.len() == 1 && e.0[0].code
            == "date_future"@),
{
    if let Some((text, native)) = temporal_source(input) {
        if let Ok(d) = parsed_date(text) {
            if let Ok(today) = timestamp_date(clock.unix_seconds, clock.microsecond) {
                law_date_order_is_calendar_order(d, today);
                if calendar_key(d) >= calendar_key(today) {
                    assert(date_order(d, today) != Order::Less);
                    assert(spec_relative_code("date"@, "past"@) == "date_past"@);
                }
                if calendar_key(d) <= calendar_key(today) {
                    assert(date_order(d, today) != Order::Greater);
                    reveal_strlit("future");
                    reveal_strlit("past");
                    assert("future"@.len() != "past"@.len());
                    assert(spec_relative_code("date"@, "future"@) == "date_future"@);
                }
            }
        }
    }
}

/// A date-time that a past constraint accepts is strictly earlier than the
/// clock, counted in microseconds since the epoch, and one that a future
/// constraint accepts strictly later.
pub proof fn law_relative_datetimes_follow_the_clock(
    schema: TemporalSchema,
    input: InputNode,
    strict: bool,
    profile: InputProfile,
    clock: ClockSnapshot,
)
    requires
        schema.kind == TemporalKind::DateTime,
    ensures
        temporal_source(input) matches Some((text, _)) ==> (parsed_datetime(text) matches Ok((d, t, stamp)) ==> (
        temporal_outcome(schema, input, strict, profile, clock) is Ok ==> {
            &&& schema.relative == Some(RelativeTimeConstraint::Past) ==> stamp * 1_000_000 + t.3 < clock.unix_seconds
                * 1_000_000 + clock.microsecond
            &&& schema.relative == Some(RelativeTimeConstraint::Future) ==> stamp * 1_000_000 + t.3
                > clock.unix_seconds * 1_000_000 + clock.microsecond
        })),
{
}

/// The failure of a date's relative check: the clock's date comes from
/// speedate, and the date is compared with it.
pub open spec fn date_relative_fault(
    date: (u16, u8, u8),
    relative: Option<RelativeTimeConstraint>,
    clock: ClockSnapshot,
) -> Option<(Seq<crate::error::DetailView>, bool)> {
    match timestamp_date(clock.unix_seconds, clock.microsecond) {
        Err(message) => Some(parse_fault(message, "clock"@)),
        Ok(today) => relative_fault(date_order(date, today), relative, "date"@),
    }
}

/// A moment in microseconds since the epoch.
pub open spec fn micros_since_epoch(seconds: i64, microsecond: u32) -> int {
    seconds * 1_000_000 + microsecond
}

fn timestamp_micros(seconds: i64, microsecond: u32) -> (r: i128)
    ensures
        r == micros_since_epoch(seconds, microsecond),
{
    proof {
        assert(-9223372036854775808 * 1_000_000 <= seconds * 1_000_000 <= 9223372036854775807 * 1_000_000)
            by (nonlinear_arith);
    }
    (seconds as i128) * 1_000_000 + (microsecond as i128)
}

fn order_i128(a: i128, b: i128) -> (r: Order)
    ensures
        r == compare_int(a as int, b as int),
{
    if a < b {
        Order::Less
    } else if a == b {
        Order::Equal
    } else {
        Order::Greater
    }
}

/// What `validate_temporal` answers: the validated value, or the view of
/// its error.
pub open spec fn temporal_outcome(
    schema: TemporalSchema,
    input: InputNode,
    strict: bool,
    profile: InputProfile,
    clock: ClockSnapshot,
) -> Result<ValidatedValue, (Seq<crate::error::DetailView>, bool)> {
    let name = spec_temporal_name(schema.kind);
    match temporal_source(input) {
        None => Err(plain_error("temporal_type"@, "Input must be a temporal value"@, name)),
        Some((text, native)) => if strict && profile == InputProfile::Native && native != Some(schema.kind) {
            Err(plain_error("temporal_type"@, "Native temporal kind does not match the schema"@, name))
        } else {
            match schema.kind {
                TemporalKind::Date => match parsed_date(text) {
                    Err(message) => Err(parse_fault(message, "date"@)),
                    Ok(d) => match date_relative_fault(d, schema.relative, clock) {
                        Some(view) => Err(view),
                        None => Ok(ValidatedValue::Date(DateValue { year: d.0, month: d.1, day: d.2 })),
                    },
                },
                TemporalKind::Time => if schema.relative is Some {
                    Err(
                        plain_error(
                            "schema_invalid"@,
                            "Relative constraints do not apply to time values"@,
                            "time without relative constraint"@,
                        ),
                    )
                } else {
                    match parsed_time(text) {
                        Err(message) => Err(parse_fault(message, "time"@)),
                        Ok(t) => Ok(ValidatedValue::Time(time_from_parts(t))),
                    }
                },
                TemporalKind::DateTime => match parsed_datetime(text) {
                    Err(message) => Err(parse_fault(message, "datetime"@)),
                    Ok((d, t, stamp)) => match relative_fault(
                        compare_int(
                            micros_since_epoch(stamp, t.3),
                            micros_since_epoch(clock.unix_seconds, clock.microsecond),
                        ),
                        schema.relative,
                        "datetime"@,
                    ) {
                        Some(view) => Err(view),
                        None => Ok(
                            ValidatedValue::DateTime(
                                DateTimeValue {
                                    date: DateValue { year: d.0, month: d.1, day: d.2 },
                                    time: time_from_parts(t),
                                },
                            ),
                        ),
                    },
                },
                TemporalKind::Duration => if schema.relative is Some {
                    Err(
                        plain_error(
                            "schema_invalid"@,
                            "Relative constraints do not apply to durations"@,
                            "duration without relative constraint"@,
                        ),
                    )
                } else {
                    match parsed_duration(text) {
                        Err(message) => Err(parse_fault(message, "duration"@)),
                        Ok(d) => Ok(
                            ValidatedValue::Duration(
                                DurationValue { positive: d.0, days: d.1, seconds: d.2, microseconds: d.3 },
                            ),
                        ),
                    }
                },
            }
        },
    }
}

/// A time of day from hour, minute, second, microsecond and offset.
pub open spec fn time_from_parts(t: (u8, u8, u8, u32, Option<i32>)) -> TimeValue {
    TimeValue { hour: t.0, minute: t.1, second: t.2, microsecond: t.3, offset_seconds: t.4 }
}

/// Validates a date, a time, a date and time or a duration: a temporal input
/// or a string (strict validation of native input asks for the schema's
/// kind), parsed by speedate and, for dates and date-times, checked against
/// the clock of the call.
pub fn validate_temporal(
    schema: &TemporalSchema,
    input: &InputValue,
    strict: bool,
    profile: InputProfile,
    clock: ClockSnapshot,
) -> (r: Result<ValidatedValue, ValidationError>)
    ensures
        match temporal_outcome(*schema, input@, strict, profile, clock) {
            Ok(v) => r matches Ok(w) && w == v,
            Err(view) => r matches Err(e) && e@ == view,
        },
{
    let (source, native_kind) = match input {
        InputValue::Date(value) => (value.as_str(), Some(TemporalKind::Date)),
        InputValue::Time(value) => (value.as_str(), Some(TemporalKind::Time)),
        InputValue::DateTime(value) => (value.as_str(), Some(TemporalKind::DateTime)),
        InputValue::Duration(value) => (value.as_str(), Some(TemporalKind::Duration)),
        InputValue::String(value) => (value.as_str(), None),
        _ => {
            return Err(type_error("temporal_type", "Input must be a temporal value", temporal_name(schema.kind)));
        },
    };
    if strict && profile == InputProfile::Native && native_kind != Some(schema.kind) {
        return Err(
            type_error("temporal_type", "Native temporal kind does not match the schema", temporal_name(schema.kind)),
        );
    }
    match schema.kind {
        TemporalKind::Date => {
            let d = match parse_date(source) {
                Ok(d) => d,
                Err(message) => return Err(temporal_parse_error(message, "date")),
            };
            let today = match date_of_timestamp(clock.unix_seconds, clock.microsecond) {
                Ok(today) => today,
                Err(message) => return Err(temporal_parse_error(message, "clock")),
            };
            validate_relative(order_dates(d, today), schema.relative, "date")?;
            Ok(ValidatedValue::Date(DateValue { year: d.0, month: d.1, day: d.2 }))
        },
        TemporalKind::Time => {
            if schema.relative.is_some() {
                return Err(
                    type_error(
                        "schema_invalid",
                        "Relative constraints do not apply to time values",
                        "time without relative constraint",
                    ),
                );
            }
            let t = match parse_time(source) {
                Ok(t) => t,
                Err(message) => return Err(temporal_parse_error(message, "time")),
            };
            Ok(ValidatedValue::Time(TimeValue { hour: t.0, minute: t.1, second: t.2, microsecond: t.3, offset_seconds: t.4 }))
        },
        TemporalKind::DateTime => {
            let (d, t, stamp) = match parse_datetime(source) {
                Ok(v) => v,
                Err(message) => return Err(temporal_parse_error(message, "datetime")),
            };
            let order = order_i128(timestamp_micros(stamp, t.3), timestamp_micros(clock.unix_seconds, clock.microsecond));
            validate_relative(order, schema.relative, "datetime")?;
            Ok(
                ValidatedValue::DateTime(
                    DateTimeValue {
                        date: DateValue { year: d.0, month: d.1, day: d.2 },
                        time: TimeValue { hour: t.0, minute: t.1, second: t.2, microsecond: t.3, offset_seconds: t.4 },
                    },
                ),
            )
        },
        TemporalKind::Duration => {
            if schema.relative.is_some() {
                return Err(
                    type_error(
                        "schema_invalid",
                        "Relative constraints do not apply to durations",
                        "duration without relative constraint",
                    ),
                );
            }
            let d = match parse_duration(source) {
                Ok(d) => d,
                Err(message) => return Err(temporal_parse_error(message, "duration")),
            };
            Ok(ValidatedValue::Duration(DurationValue { positive: d.0, days: d.1, seconds: d.2, microseconds: d.3 }))
        },
    }
}

} // verus!
