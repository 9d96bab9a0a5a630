use vstd::prelude::*;

use crate::constraints::{BytesConstraints, BytesJsonMode};
use crate::error::{
    detail_error, length_error, length_fault, length_view, plain_error, type_error, validate_length, ErrorDetail, ValidationError,
};
use crate::input::{InputNode, InputValue};
use crate::options::InputProfile;
use crate::text::{copy_bytes, owned, push_char, str_equal, utf8_bytes};
use crate::values::ValidatedValue;

verus! {

// ---------------------------------------------------------------------------
// None and booleans
// ---------------------------------------------------------------------------

/// Accepts only a null input.
pub fn validate_none(input: &InputValue) -> (r: Result<ValidatedValue, ValidationError>)
    ensures
        input@ is Null ==> r matches Ok(ValidatedValue::Null),
        !(input@ is Null) ==> (r matches Err(e) && e@ == plain_error(
            "none_required"@,
            "Input must be None"@,
            "none"@,
        )),
{
    match input {
        InputValue::Null => Ok(ValidatedValue::Null),
        _ => Err(type_error("none_required", "Input must be None", "none")),
    }
}

/// An ASCII upper-case letter in lower case; any other character unchanged.
pub open spec fn ascii_lower(c: char) -> char {
    if 'A' <= c && c <= 'Z' {
        ((c as u32) + 32) as char
    } else {
        c
    }
}

/// A text with its ASCII letters in lower case.
pub open spec fn ascii_lowercase(s: Seq<char>) -> Seq<char> {
    s.map_values(|c: char| ascii_lower(c))
}

/// The truth value that a lower-case word names, if any.
pub open spec fn bool_word(word: Seq<char>) -> Option<bool> {
    if word == "0"@ || word == "false"@ || word == "f"@ || word == "no"@ || word == "n"@ || word == "off"@ {
        Some(false)
    } else if word == "1"@ || word == "true"@ || word == "t"@ || word == "yes"@ || word == "y"@ || word == "on"@ {
        Some(true)
    } else {
        None
    }
}

/// The truth value that a non-boolean input stands for when coercion is
/// allowed: the integers 0 and 1, the floats zero and one, and the words of
/// `bool_word` in any ASCII case.
pub open spec fn lenient_bool(input: InputNode) -> Option<bool> {
    match input {
        InputNode::Integer(s) => if s == "0"@ {
            Some(false)
        } else if s == "1"@ {
            Some(true)
        } else {
            None
        },
        InputNode::Float(bits) => if bits == 0 || bits == 0x8000_0000_0000_0000 {
            Some(false)
        } else if bits == 0x3FF0_0000_0000_0000 {
            Some(true)
        } else {
            None
        },
        InputNode::String(s) => bool_word(ascii_lowercase(s)),
        _ => None,
    }
}

fn lower_char(c: char) -> (r: char)
    ensures
        r == ascii_lower(c),
{
    if 'A' <= c && c <= 'Z' {
        ((c as u8) + 32) as char
    } else {
        c
    }
}

proof fn lemma_word_lengths()
    ensures
        "0"@.len() == 1 && "false"@.len() == 5 && "f"@.len() == 1 && "no"@.len() == 2 && "n"@.len() == 1
            && "off"@.len() == 3,
        "1"@.len() == 1 && "true"@.len() == 4 && "t"@.len() == 1 && "yes"@.len() == 3 && "y"@.len() == 1
            && "on"@.len() == 2,
{
    reveal_strlit("0");
    reveal_strlit("false");
    reveal_strlit("f");
    reveal_strlit("no");
    reveal_strlit("n");
    reveal_strlit("off");
    reveal_strlit("1");
    reveal_strlit("true");
    reveal_strlit("t");
    reveal_strlit("yes");
    reveal_strlit("y");
    reveal_strlit("on");
}

/// The truth value that a text names in any ASCII case.
fn text_bool(s: &str) -> (r: Option<bool>)
    ensures
        r == bool_word(ascii_lowercase(s@)),
{
    let n = s.unicode_len();
    if n > 5 {
        proof {
            lemma_word_lengths();
            assert(ascii_lowercase(s@).len() == n);
        }
        return None;
    }
    let mut lower = String::new();
    let mut i: usize = 0;
    while i < n
        invariant
            i <= n,
            n == s@.len(),
            lower@ == ascii_lowercase(s@.subrange(0, i as int)),
        decreases n - i,
    {
        let c = s.get_char(i);
        push_char(&mut lower, lower_char(c));
        proof {
            assert(ascii_lowercase(s@.subrange(0, i + 1)) =~= ascii_lowercase(s@.subrange(0, i as int)).push(
                ascii_lower(c),
            ));
        }
        i = i + 1;
    }
    proof {
        assert(s@.subrange(0, n as int) =~= s@);
    }
    let word = lower.as_str();
    if str_equal(word, "0") || str_equal(word, "false") || str_equal(word, "f") || str_equal(word, "no")
        || str_equal(word, "n") || str_equal(word, "off") {
        Some(false)
    } else if str_equal(word, "1") || str_equal(word, "true") || str_equal(word, "t") || str_equal(word, "yes")
        || str_equal(word, "y") || str_equal(word, "on") {
        Some(true)
    } else {
        None
    }
}

/// Accepts a boolean; when coercion is allowed (not strict, or the strings
/// profile), also the inputs that `lenient_bool` reads as one.
pub fn validate_bool(input: &InputValue, strict: bool, profile: InputProfile) -> (r: Result<
    ValidatedValue,
    ValidationError,
>)
    ensures
        input@ matches InputNode::Bool(b) ==> (r matches Ok(ValidatedValue::Bool(v)) && v == b),
        !(input@ is Bool) && strict && profile != InputProfile::Strings ==> (r matches Err(e) && e@ == plain_error(
            "bool_type"@,
            "Input must be a boolean"@,
            "bool"@,
        )),
        !(input@ is Bool) && !(strict && profile != InputProfile::Strings) ==> match lenient_bool(input@) {
            Some(b) => r matches Ok(ValidatedValue::Bool(v)) && v == b,
            None => r matches Err(e) && e@ == plain_error(
                "bool_parsing"@,
                "Input must be a valid boolean"@,
                "bool"@,
            ),
        },
{
    if let InputValue::Bool(value) = input {
        return Ok(ValidatedValue::Bool(*value));
    }
    if strict && profile != InputProfile::Strings {
        return Err(type_error("bool_type", "Input must be a boolean", "bool"));
    }
    let value = match input {
        InputValue::Integer(text) => {
            if str_equal(text.as_str(), "0") {
                Some(false)
            } else if str_equal(text.as_str(), "1") {
                Some(true)
            } else {
                None
            }
        },
        InputValue::Float(bits) => {
            if *bits == 0 || *bits == 0x8000_0000_0000_0000 {
                Some(false)
            } else if *bits == 0x3FF0_0000_0000_0000 {
                Some(true)
            } else {
                None
            }
        },
        InputValue::String(text) => text_bool(text.as_str()),
        _ => None,
    };
    match value {
        Some(b) => Ok(ValidatedValue::Bool(b)),
        None => Err(type_error("bool_parsing", "Input must be a valid boolean", "bool")),
    }
}

// ---------------------------------------------------------------------------
// Integers
// ---------------------------------------------------------------------------

/// The digits of an integer's text: what follows a leading minus sign.
pub open spec fn integer_digits(s: Seq<char>) -> Seq<char> {
    if s.len() > 0 && s[0] == '-' {
        s.drop_first()
    } else {
        s
    }
}

/// The canonical decimal text of an integer: an optional minus sign and at
/// least one ASCII digit, without leading zeros, and not `-0`.
pub open spec fn canonical_integer(s: Seq<char>) -> bool {
    &&& integer_digits(s).len() > 0
    &&& forall|i: int| 0 <= i < integer_digits(s).len() ==> '0' <= #[trigger] integer_digits(s)[i] <= '9'
    &&& (integer_digits(s).len() == 1 || integer_digits(s)[0] != '0')
    &&& s != seq!['-', '0']
}

fn is_digit_byte(b: u8) -> (r: bool)
    ensures
        r == (48 <= b <= 57),
{
    48 <= b && b <= 57
}

/// Accepts the canonical decimal text of an integer and returns it; any
/// other text is refused.
pub fn parse_canonical_integer(value: &str) -> (r: Result<String, ValidationError>)
    ensures
        canonical_integer(value@) ==> (r matches Ok(t) && t@ == value@),
        !canonical_integer(value@) ==> (r matches Err(e) && e@ == plain_error(
            "int_parsing"@,
            "Input must be a canonical integer"@,
            "int"@,
        )),
{
    let ghost s = value@;
    let ghost d = integer_digits(s);
    let refused = type_error("int_parsing", "Input must be a canonical integer", "int");
    if !value.is_ascii() {
        proof {
            let k = choose|k: int| 0 <= k < s.len() && !('\0' <= #[trigger] s[k] <= '\u{7f}');
            if s.len() > 0 && s[0] == '-' {
                assert(d[k - 1] == s[k]);
            } else {
                assert(d[k] == s[k]);
            }
        }
        return Err(refused);
    }
    let bytes = value.as_bytes();
    proof {
        vstd::utf8::is_ascii_chars_encode_utf8(s);
        assert forall|i: int| 0 <= i < s.len() implies (#[trigger] s[i]) as int == bytes@[i] as int by {
            assert(s[i] as u8 == bytes@[i]);
            assert('\0' <= s[i] <= '\u{7f}');
        }
    }
    let n = bytes.len();
    let start: usize = if n > 0 && bytes[0] == 45 { 1 } else { 0 };
    proof {
        if n > 0 {
            assert(s[0] as int == bytes@[0] as int);
        }
        assert(start == 1 <==> (s.len() > 0 && s[0] == '-'));
        assert(d.len() == n - start);
        assert forall|i: int| 0 <= i < d.len() implies #[trigger] d[i] == s[i + start] by {}
    }
    if start == n {
        return Err(refused);
    }
    let mut k: usize = start;
    while k < n
        invariant
            s == value@,
            start <= k <= n,
            n == bytes@.len(),
            n == s.len(),
            d == integer_digits(s),
            d.len() == n - start,
            forall|i: int| 0 <= i < d.len() ==> #[trigger] d[i] == s[i + start],
            forall|i: int| 0 <= i < s.len() ==> (#[trigger] s[i]) as int == bytes@[i] as int,
            forall|i: int| 0 <= i < k - start ==> '0' <= #[trigger] d[i] <= '9',
            refused@ == plain_error("int_parsing"@, "Input must be a canonical integer"@, "int"@),
        decreases n - k,
    {
        proof {
            assert(s[k as int] as int == bytes@[k as int] as int);
            assert(d[k - start] == s[k as int]);
        }
        if !is_digit_byte(bytes[k]) {
            proof {
                assert(!('0' <= integer_digits(s)[k - start] <= '9'));
                assert(!canonical_integer(s));
            }
            return Err(refused);
        }
        k = k + 1;
    }
    proof {
        assert(d[0] == s[start as int]);
        assert(s[start as int] as int == bytes@[start as int] as int);
    }
    if n - start > 1 && bytes[start] == 48 {
        return Err(refused);
    }
    if start == 1 && n == 2 && bytes[1] == 48 {
        proof {
            assert(s[1] as int == bytes@[1] as int);
            assert(s =~= seq!['-', '0']);
        }
        return Err(refused);
    }
    proof {
        if s =~= seq!['-', '0'] {
            assert(s[1] as int == bytes@[1] as int);
            assert(false);
        }
    }
    Ok(owned(value))
}

// ---------------------------------------------------------------------------
// Bytes
// ---------------------------------------------------------------------------

/// What base64's URL-safe engine (`general_purpose::URL_SAFE`) decodes a
/// text to: the bytes, or the text of its error.
pub uninterp spec fn url_safe_base64(text: Seq<char>) -> Result<Seq<u8>, Seq<char>>;

/// Decodes a text with base64's URL-safe engine, handing out the bytes or
/// the `Display` text of the error. Trusted: both depend on the text alone.
#[verifier::external_body]
fn decode_url_safe_base64(text: &str) -> (r: Result<Vec<u8>, String>)
    ensures
        match r {
            Ok(bytes) => url_safe_base64(text@) == Ok::<Seq<u8>, Seq<char>>(bytes@),
            Err(message) => url_safe_base64(text@) == Err::<Seq<u8>, Seq<char>>(message@),
        },
{
    match base64::Engine::decode(&base64::engine::general_purpose::URL_SAFE, text) {
        Ok(bytes) => Ok(bytes),
        Err(error) => Err(error.to_string()),
    }
}

/// The bytes that a text stands for: under the JSON profile with the
/// base64 mode its URL-safe base64 decoding, else its UTF-8 encoding; or
/// the view of the error for text that is not valid base64.
pub open spec fn text_bytes(text: Seq<char>, profile: InputProfile, mode: BytesJsonMode) -> Result<
    Seq<u8>,
    (Seq<crate::error::DetailView>, bool),
> {
    if profile != InputProfile::Json || mode == BytesJsonMode::Utf8 {
        Ok(utf8_bytes(text))
    } else {
        match url_safe_base64(text) {
            Ok(bytes) => Ok(bytes),
            Err(message) => Err(
                detail_error(
                    "bytes_base64"@,
                    "Input must use valid URL-safe base64"@,
                    "URL-safe base64 without whitespace"@,
                    seq![("error"@, message)],
                ),
            ),
        }
    }
}

/// The bytes of a text, as `text_bytes` says.
pub fn decode_text_bytes(value: &str, profile: InputProfile, json_mode: BytesJsonMode) -> (r: Result<
    Vec<u8>,
    ValidationError,
>)
    ensures
        match text_bytes(value@, profile, json_mode) {
            Ok(b) => r matches Ok(v) && v@ == b,
            Err(view) => r matches Err(e) && e@ == view,
        },
{
    if profile != InputProfile::Json || json_mode == BytesJsonMode::Utf8 {
        return Ok(copy_bytes(value.as_bytes()));
    }
    match decode_url_safe_base64(value) {
        Ok(bytes) => Ok(bytes),
        Err(message) => {
            let ghost m = message@;
            let detail = ErrorDetail::new("bytes_base64", owned("Input must use valid URL-safe base64")).expected(
                owned("URL-safe base64 without whitespace"),
            ).context("error", message);
            let e = ValidationError::one(detail);
            proof {
                assert(detail@.context =~= seq![("error"@, m)]);
                assert(detail@.location =~= Seq::<crate::error::LocationStep>::empty());
                assert(e@.0 =~= detail_error(
                    "bytes_base64"@,
                    "Input must use valid URL-safe base64"@,
                    "URL-safe base64 without whitespace"@,
                    seq![("error"@, m)],
                ).0);
            }
            Err(e)
        },
    }
}

/// The bytes that an input gives, or the view of the error: its own bytes,
/// or a string's bytes as `text_bytes` says unless strict validation of
/// native input asks for bytes.
pub open spec fn bytes_source(input: InputNode, strict: bool, profile: InputProfile, mode: BytesJsonMode) -> Result<
    Seq<u8>,
    (Seq<crate::error::DetailView>, bool),
> {
    match input {
        InputNode::Bytes(b) => Ok(b),
        InputNode::String(s) => if !strict || profile != InputProfile::Native {
            text_bytes(s, profile, mode)
        } else {
            Err(plain_error("bytes_type"@, "Input must be bytes"@, "bytes"@))
        },
        _ => Err(plain_error("bytes_type"@, "Input must be bytes"@, "bytes"@)),
    }
}

/// Accepts bytes, or a string's bytes unless strict validation of native
/// input asks for bytes (URL-safe base64 under the JSON profile when the
/// constraints ask for it, else UTF-8), whose length lies within the
/// constraints' bounds.
pub fn validate_bytes(input: &InputValue, strict: bool, profile: InputProfile, constraints: &BytesConstraints) -> (r:
    Result<ValidatedValue, ValidationError>)
    ensures
        match bytes_source(input@, strict, profile, constraints.json_mode) {
            Err(view) => r matches Err(e) && e@ == view,
            Ok(b) => {
                let fault = length_fault(b.len(), constraints.min_length, constraints.max_length);
                &&& fault is None ==> (r matches Ok(ValidatedValue::Bytes(v)) && v@ == b)
                &&& fault matches Some(f) ==> (r matches Err(e) && length_error(e@, "bytes"@, f) && e@ == length_view(
                    "bytes"@,
                    f,
                ))
            },
        },
{
    let value: Vec<u8> = match input {
        InputValue::Bytes(b) => b.clone(),
        InputValue::String(text) if !strict || profile != InputProfile::Native => decode_text_bytes(
            text.as_str(),
            profile,
            constraints.json_mode,
        )?,
        _ => return Err(type_error("bytes_type", "Input must be bytes", "bytes")),
    };
    validate_length(value.len(), constraints.min_length, constraints.max_length, "bytes")?;
    Ok(ValidatedValue::Bytes(value))
}

} // verus!
