use vstd::prelude::*;
use vstd::utf8::{decode_utf8, is_ascii_chars, valid_utf8};

use crate::chain::utf8_string;
use crate::constraints::PatternCompileError;
use crate::error::{
    detail_error, length_error, length_fault, length_view, plain_error, type_error, validate_length, DetailView, ErrorDetail,
    ValidationError,
};
use crate::input::{InputNode, InputValue};
use crate::special::{regex_request, RegexRequest};
use crate::text::owned;
use crate::values::ValidatedValue;

verus! {

// ---------------------------------------------------------------------------
// Patterns that strings must match
// ---------------------------------------------------------------------------

#[verifier::external_type_specification]
#[verifier::external_body]
pub struct ExRegex(regex::Regex);

/// regex's `Clone` for a compiled regex; nothing is stated of the copy.
pub assume_specification[ <regex::Regex as core::clone::Clone>::clone ](regex: &regex::Regex) -> (r: regex::Regex);

/// Compiles a request with regex's `RegexBuilder`, handing out the regex or
/// the `Display` text of the error.
/// Nothing is stated of the outcome: whether a pattern fits the limits
/// depends on how large the compiled program is on this machine.
#[verifier::external_body]
fn build_regex(request: &RegexRequest) -> (r: Result<regex::Regex, String>) {
    regex::RegexBuilder::new(&request.source).case_insensitive(request.case_insensitive).multi_line(
        request.multi_line,
    ).dot_matches_new_line(request.dot_matches_new_line).size_limit(request.size_limit).dfa_size_limit(
        request.dfa_size_limit,
    ).build().map_err(|error| error.to_string())
}

/// What regex's `Regex::is_match` answers for a text, with a regex that
/// `RegexBuilder` compiled from the pattern text `source` with its default
/// options.
pub uninterp spec fn regex_matches(source: Seq<char>, text: Seq<char>) -> bool;

/// Whether the compiled regex of a pattern matches somewhere in a text, by
/// regex's `Regex::is_match`. Trusted: the answer is regex's for the pattern
/// text with default options, since a pattern's regex is only ever built, by
/// `StringPattern::compile`, from its own source with no option but the
/// size limits, which decide whether it compiles and not what it matches.
#[verifier::external_body]
fn pattern_is_match(pattern: &StringPattern, text: &str) -> (r: bool)
    ensures
        r == regex_matches(pattern.spec_source(), text@),
{
    pattern.compiled.is_match(text)
}

/// A regular expression that string values must match, with its source.
#[derive(Clone, Debug)]
pub struct StringPattern {
    source: String,
    compiled: regex::Regex,
}

impl StringPattern {
    pub closed spec fn spec_source(&self) -> Seq<char> {
        self.source@
    }

    /// Compiles a pattern under the size limits of pattern values.
    pub fn compile(source: String) -> (r: Result<StringPattern, PatternCompileError>)
        ensures
            r matches Ok(p) ==> p.spec_source() == source@,
    {
        let request = regex_request(source.as_str(), 0);
        match build_regex(&request) {
            Ok(compiled) => Ok(StringPattern { source, compiled }),
            Err(message) => Err(PatternCompileError { message }),
        }
    }

    pub fn source(&self) -> (r: &str)
        ensures
            r@ == self.spec_source(),
    {
        self.source.as_str()
    }

    /// Whether the pattern matches somewhere in a text.
    pub fn is_match(&self, value: &str) -> (r: bool)
        ensures
            r == regex_matches(self.spec_source(), value@),
    {
        pattern_is_match(self, value)
    }
}

// ---------------------------------------------------------------------------
// Text conversions of std
// ---------------------------------------------------------------------------

/// Whether a character has Unicode's `White_Space` property: the code
/// points U+0009 to U+000D, U+0020, U+0085, U+00A0, U+1680, U+2000 to
/// U+200A, U+2028, U+2029, U+202F, U+205F and U+3000.
pub open spec fn is_white_space(c: char) -> bool {
    let u = c as u32;
    ||| 0x09 <= u <= 0x0d
    ||| u == 0x20
    ||| u == 0x85
    ||| u == 0xa0
    ||| u == 0x1680
    ||| 0x2000 <= u <= 0x200a
    ||| u == 0x2028
    ||| u == 0x2029
    ||| u == 0x202f
    ||| u == 0x205f
    ||| u == 0x3000
}

/// A text without its leading white space.
pub open spec fn trimmed_start(text: Seq<char>) -> Seq<char>
    decreases text.len(),
{
    if text.len() > 0 && is_white_space(text[0]) {
        trimmed_start(text.drop_first())
    } else {
        text
    }
}

/// A text without its trailing white space.
pub open spec fn trimmed_end(text: Seq<char>) -> Seq<char>
    decreases text.len(),
{
    if text.len() > 0 && is_white_space(text.last()) {
        trimmed_end(text.drop_last())
    } else {
        text
    }
}

/// A text without its leading and trailing white space.
pub open spec fn trimmed(text: Seq<char>) -> Seq<char> {
    trimmed_end(trimmed_start(text))
}

/// What std's `str::to_uppercase` gives for a text.
pub uninterp spec fn upper_case(text: Seq<char>) -> Seq<char>;

/// What std's `str::to_lowercase` gives for a text.
pub uninterp spec fn lower_case(text: Seq<char>) -> Seq<char>;

/// A text without its leading and trailing whitespace, by std's
/// `str::trim`. Trusted: std documents that it removes leading and
/// trailing characters with Unicode's `White_Space` property.
#[verifier::external_body]
fn trim_text(text: &str) -> (r: String)
    ensures
        r@ == trimmed(text@),
{
    text.trim().to_owned()
}

/// A text in upper case, by std's `str::to_uppercase`. Trusted: std
/// documents it as a function of the text.
#[verifier::external_body]
fn upper_text(text: &str) -> (r: String)
    ensures
        r@ == upper_case(text@),
{
    text.to_uppercase()
}

/// A text in lower case, by std's `str::to_lowercase`. Trusted: std
/// documents it as a function of the text.
#[verifier::external_body]
fn lower_text(text: &str) -> (r: String)
    ensures
        r@ == lower_case(text@),
{
    text.to_lowercase()
}

// ---------------------------------------------------------------------------
// Strings
// ---------------------------------------------------------------------------

/// How a string is checked and converted.
#[derive(Clone, Debug, Default)]
pub struct StringConstraints {
    pub strip_whitespace: bool,
    pub ascii_only: bool,
    pub min_length: Option<usize>,
    pub max_length: Option<usize>,
    pub pattern: Option<StringPattern>,
    pub to_upper: bool,
    pub to_lower: bool,
    pub coerce_numbers_to_str: bool,
}

/// Whether the bit pattern of a double is a finite number.
pub open spec fn finite_bits(bits: u64) -> bool {
    (bits / 0x10_0000_0000_0000) % 2048 != 2047
}

pub(crate) fn is_finite_bits(bits: u64) -> (r: bool)
    ensures
        r == finite_bits(bits),
{
    let e: u64 = (bits >> 52) & 0x7ff;
    proof {
        assert(e == (bits / 0x10_0000_0000_0000) % 2048) by (bit_vector)
            requires
                e == (bits >> 52) & 0x7ff,
        ;
    }
    e != 0x7ff
}

/// The text that a string validator starts from, as `out`, or the view of
/// the error it answers: a string; when not strict, the UTF-8 text of bytes;
/// when not strict and numbers may become strings, the text of an integer,
/// of a decimal, or of a finite double as the formatter writes it.
pub open spec fn string_source<F: Fn(u64) -> String>(
    input: InputNode,
    strict: bool,
    coerce_numbers: bool,
    float_text: F,
    out: Result<Seq<char>, (Seq<DetailView>, bool)>,
) -> bool {
    let refused = plain_error("string_type"@, "Input must be a string"@, "str"@);
    match input {
        InputNode::String(s) => out == Ok::<Seq<char>, (Seq<DetailView>, bool)>(s),
        InputNode::Bytes(b) => if strict {
            out == Err::<Seq<char>, (Seq<DetailView>, bool)>(refused)
        } else if valid_utf8(b) {
            out == Ok::<Seq<char>, (Seq<DetailView>, bool)>(decode_utf8(b))
        } else {
            out == Err::<Seq<char>, (Seq<DetailView>, bool)>(
                plain_error("string_unicode"@, "Bytes must contain UTF-8"@, "UTF-8 string"@),
            )
        },
        InputNode::Integer(s) => if !strict && coerce_numbers {
            out == Ok::<Seq<char>, (Seq<DetailView>, bool)>(s)
        } else {
            out == Err::<Seq<char>, (Seq<DetailView>, bool)>(refused)
        },
        InputNode::Decimal(s) => if !strict && coerce_numbers {
            out == Ok::<Seq<char>, (Seq<DetailView>, bool)>(s)
        } else {
            out == Err::<Seq<char>, (Seq<DetailView>, bool)>(refused)
        },
        InputNode::Float(bits) => if !strict && coerce_numbers && finite_bits(bits) {
            exists|t: String| #[trigger] call_ensures(float_text, (bits,), t) && out == Ok::<
                Seq<char>,
                (Seq<DetailView>, bool),
            >(t@)
        } else {
            out == Err::<Seq<char>, (Seq<DetailView>, bool)>(refused)
        },
        _ => out == Err::<Seq<char>, (Seq<DetailView>, bool)>(refused),
    }
}

/// The text after the optional trimming.
pub open spec fn string_trimmed(text: Seq<char>, strip: bool) -> Seq<char> {
    if strip {
        trimmed(text)
    } else {
        text
    }
}

/// The text after the optional case conversion.
pub open spec fn string_cased(text: Seq<char>, to_upper: bool, to_lower: bool) -> Seq<char> {
    if to_upper {
        upper_case(text)
    } else if to_lower {
        lower_case(text)
    } else {
        text
    }
}

/// What a string validator answers for a trimmed text: ASCII and length
/// checks, then the pattern, then the case conversion.
pub open spec fn string_answer(text: Seq<char>, c: StringConstraints, r: Result<ValidatedValue, ValidationError>) -> bool {
    if c.ascii_only && !is_ascii_chars(text) {
        r matches Err(e) && e@ == plain_error(
            "string_not_ascii"@,
            "String must contain only ASCII characters"@,
            "ASCII string"@,
        )
    } else if length_fault(text.len(), c.min_length, c.max_length) is Some {
        r matches Err(e) && length_error(e@, "string"@, length_fault(text.len(), c.min_length, c.max_length)->0)
            && e@ == length_view("string"@, length_fault(text.len(), c.min_length, c.max_length)->0)
    } else {
        let done = string_cased(text, c.to_upper, c.to_lower);
        match c.pattern {
            None => r matches Ok(ValidatedValue::String(v)) && v@ == done,
            Some(p) => if regex_matches(p.spec_source(), text) {
                r matches Ok(ValidatedValue::String(v)) && v@ == done
            } else {
                r matches Err(e) && e@ == detail_error(
                    "string_pattern_mismatch"@,
                    "String does not match the pattern"@,
                    Seq::empty(),
                    seq![("pattern"@, p.spec_source())],
                )
            },
        }
    }
}

/// Validates a string: refuses constraints that ask for both case
/// conversions; takes the text of the input, trims it when asked, checks
/// it is ASCII when asked, checks its length in characters and its
/// pattern, and converts its case when asked. Doubles are written by the
/// given formatter.
pub fn validate_string<F: Fn(u64) -> String>(
    input: &InputValue,
    strict: bool,
    constraints: &StringConstraints,
    float_text: &F,
) -> (r: Result<ValidatedValue, ValidationError>)
    requires
        forall|x: u64| float_text.requires((x,)),
    ensures
        constraints.to_upper && constraints.to_lower ==> (r matches Err(e) && e@ == plain_error(
            "schema_invalid"@,
            "to_upper and to_lower cannot both be enabled"@,
            "one case conversion"@,
        )),
        !(constraints.to_upper && constraints.to_lower) ==> exists|source: Result<Seq<char>, (Seq<DetailView>, bool)>|
            #[trigger] string_source(input@, strict, constraints.coerce_numbers_to_str, *float_text, source) && match source {
                Err(view) => r matches Err(e) && e@ == view,
                Ok(text) => string_answer(string_trimmed(text, constraints.strip_whitespace), *constraints, r),
            },
{
    if constraints.to_upper && constraints.to_lower {
        return Err(
            type_error("schema_invalid", "to_upper and to_lower cannot both be enabled", "one case conversion"),
        );
    }
    let refused = type_error("string_type", "Input must be a string", "str");
    let converted: String = match input {
        InputValue::String(value) => owned(value.as_str()),
        InputValue::Bytes(value) if !strict => match utf8_string(value.as_slice()) {
            Some(text) => text,
            None => {
                let e = type_error("string_unicode", "Bytes must contain UTF-8", "UTF-8 string");
                proof {
                    let source = Err::<Seq<char>, (Seq<DetailView>, bool)>(e@);
                    assert(string_source(input@, strict, constraints.coerce_numbers_to_str, *float_text, source));
                }
                return Err(e);
            },
        },
        InputValue::Integer(value) if !strict && constraints.coerce_numbers_to_str => owned(value.as_str()),
        InputValue::Float(bits) if !strict && constraints.coerce_numbers_to_str && is_finite_bits(*bits) => {
            float_text(*bits)
        },
        InputValue::Decimal(value) if !strict && constraints.coerce_numbers_to_str => owned(value.as_str()),
        _ => {
            proof {
                let source = Err::<Seq<char>, (Seq<DetailView>, bool)>(refused@);
                assert(string_source(input@, strict, constraints.coerce_numbers_to_str, *float_text, source));
            }
            return Err(refused);
        },
    };
    let ghost source = Ok::<Seq<char>, (Seq<DetailView>, bool)>(converted@);
    proof {
        assert(string_source(input@, strict, constraints.coerce_numbers_to_str, *float_text, source));
    }
    let value = if constraints.strip_whitespace {
        trim_text(converted.as_str())
    } else {
        converted
    };
    if constraints.ascii_only && !value.as_str().is_ascii() {
        return Err(
            type_error("string_not_ascii", "String must contain only ASCII characters", "ASCII string"),
        );
    }
    let length = value.as_str().unicode_len();
    validate_length(length, constraints.min_length, constraints.max_length, "string")?;
    if let Some(pattern) = &constraints.pattern {
        if !pattern.is_match(value.as_str()) {
            let detail = ErrorDetail::new("string_pattern_mismatch", owned("String does not match the pattern")).context(
                "pattern",
                owned(pattern.source()),
            );
            let e = ValidationError::one(detail);
            proof {
                assert(detail@.context =~= seq![("pattern"@, pattern.spec_source())]);
                assert(detail@.location =~= Seq::<crate::error::LocationStep>::empty());
                assert(detail@.expected =~= Seq::<char>::empty());
                assert(e@.0 =~= detail_error(
                    "string_pattern_mismatch"@,
                    "String does not match the pattern"@,
                    Seq::empty(),
                    seq![("pattern"@, pattern.spec_source())],
                ).0);
            }
            return Err(e);
        }
    }
    let done = if constraints.to_upper {
        upper_text(value.as_str())
    } else if constraints.to_lower {
        lower_text(value.as_str())
    } else {
        value
    };
    Ok(ValidatedValue::String(done))
}

} // verus!
