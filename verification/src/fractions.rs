use core::str::FromStr;

use vstd::arithmetic::power::pow;
use vstd::prelude::*;

use crate::constraints::{integer_constraints_wf, IntegerConstraints};
use crate::decimals::{decimal_coefficient, parsed_decimal};
use crate::error::{plain_error, type_error, DetailView, ValidationError};
use crate::input::{InputNode, InputValue};
use crate::integers::{integer_constraint_fault, integer_value, validate_integer_constraints};
use crate::options::InputProfile;
use crate::scalars::{canonical_integer, parse_canonical_integer};
use crate::text::{owned, signed_decimal};
use crate::values::ValidatedValue;

verus! {

// ---------------------------------------------------------------------------
// Calls into num-bigint and num-rational
// ---------------------------------------------------------------------------

/// What num-rational's `BigRational::new` gives for a numerator and a
/// denominator written as canonical decimal texts: the numerator and the
/// denominator of the fraction in lowest terms.
pub uninterp spec fn reduced_fraction(numerator: Seq<char>, denominator: Seq<char>) -> (Seq<char>, Seq<char>);

/// The fraction of two integers in lowest terms, by num-rational's
/// `BigRational::new`, written with num-bigint's `Display`. Trusted:
/// num-rational documents the result as the same number in lowest terms
/// (no integer above one divides both parts) with a positive denominator,
/// and num-bigint writes canonical decimal texts.
#[verifier::external_body]
pub(crate) fn reduce_fraction(numerator: &str, denominator: &str) -> (r: (String, String))
    requires
        canonical_integer(numerator@),
        canonical_integer(denominator@),
        integer_value(denominator@) != 0,
    ensures
        (r.0@, r.1@) == reduced_fraction(numerator@, denominator@),
        canonical_integer(r.0@),
        canonical_integer(r.1@),
        integer_value(r.1@) > 0,
        integer_value(r.0@) * integer_value(denominator@) == integer_value(numerator@) * integer_value(r.1@),
        forall|k: int|
            k > 1 ==> !(#[trigger] (integer_value(r.0@) % k) == 0 && integer_value(r.1@) % k == 0),
{
    let n = num_bigint::BigInt::from_str(numerator).unwrap_or_default();
    let d = num_bigint::BigInt::from_str(denominator).unwrap_or_default();
    let value = num_rational::BigRational::new(n, d);
    (value.numer().to_string(), value.denom().to_string())
}

/// An integer written as canonical decimal text times a power of ten, by
/// num-bigint's `pow` and multiplication, written with its `Display`.
/// Trusted: num-bigint computes exactly and writes canonical decimal texts.
#[verifier::external_body]
fn scale_up(value: &str, exponent: u32) -> (r: String)
    requires
        canonical_integer(value@),
    ensures
        r@ == signed_decimal(integer_value(value@) * pow(10, exponent as nat)),
{
    let v = num_bigint::BigInt::from_str(value).unwrap_or_default();
    let power = num_bigint::BigInt::from(10u8).pow(exponent);
    (v * power).to_string()
}

// ---------------------------------------------------------------------------
// Reading fractions
// ---------------------------------------------------------------------------

/// The fraction of a numerator and a denominator written as texts, or the
/// view of the error that `rational_from_parts` answers.
pub open spec fn parts_fraction(numerator: Seq<char>, denominator: Seq<char>) -> Result<
    (Seq<char>, Seq<char>),
    (Seq<DetailView>, bool),
> {
    let refused = plain_error("int_parsing"@, "Input must be a canonical integer"@, "int"@);
    if !canonical_integer(numerator) || !canonical_integer(denominator) {
        Err(refused)
    } else if integer_value(denominator) == 0 {
        Err(
            plain_error(
                "fraction_zero_denominator"@,
                "Fraction denominator cannot be zero"@,
                "nonzero denominator"@,
            ),
        )
    } else {
        Ok(reduced_fraction(numerator, denominator))
    }
}

/// A fraction in lowest terms from a numerator and a denominator given as
/// canonical integer texts; a zero denominator is refused.
pub fn rational_from_parts(numerator: &str, denominator: &str) -> (r: Result<(String, String), ValidationError>)
    ensures
        match parts_fraction(numerator@, denominator@) {
            Ok(p) => r matches Ok((n, d)) && n@ == p.0 && d@ == p.1,
            Err(view) => r matches Err(e) && e@ == view,
        },
        r matches Ok((n, _)) ==> canonical_integer(n@),
{
    let n = parse_canonical_integer(numerator)?;
    let d = parse_canonical_integer(denominator)?;
    proof {
        reveal_strlit("0");
        assert(integer_value("0"@) == 0) by {
            assert("0"@ =~= seq!['0']);
            reveal_with_fuel(crate::integers::digits_value, 2);
        }
        if integer_value(d@) == 0 {
            crate::decimals::lemma_zero_text(d@);
        }
    }
    if crate::text::str_equal(d.as_str(), "0") {
        return Err(
            type_error("fraction_zero_denominator", "Fraction denominator cannot be zero", "nonzero denominator"),
        );
    }
    Ok(reduce_fraction(n.as_str(), d.as_str()))
}

/// The fraction that a decimal text writes, or the view of the error that
/// `rational_from_decimal` answers.
pub open spec fn decimal_fraction(text: Seq<char>) -> Result<(Seq<char>, Seq<char>), (Seq<DetailView>, bool)> {
    match parsed_decimal(text) {
        None => Err(plain_error("fraction_parsing"@, "Input must be an exact fraction"@, "fraction"@)),
        Some(p) => {
            let scale = p.1 as int;
            let magnitude = if scale >= 0 { scale } else { -scale };
            if magnitude > u32::MAX {
                Err(plain_error("fraction_parsing"@, "Decimal exponent is too large"@, "bounded decimal"@))
            } else if scale >= 0 {
                Ok(reduced_fraction(p.0, signed_decimal(pow(10, magnitude as nat))))
            } else {
                Ok((signed_decimal(integer_value(p.0) * pow(10, magnitude as nat)), "1"@))
            }
        },
    }
}

/// The fraction in lowest terms that a decimal text writes, read by
/// bigdecimal; an exponent beyond 32 bits is refused.
pub fn rational_from_decimal(value: &str) -> (r: Result<(String, String), ValidationError>)
    ensures
        match decimal_fraction(value@) {
            Ok(p) => r matches Ok((n, d)) && n@ == p.0 && d@ == p.1,
            Err(view) => r matches Err(e) && e@ == view,
        },
        r matches Ok((n, _)) ==> canonical_integer(n@),
{
    let (coefficient, scale) = match crate::decimals::parse_decimal_parts(value) {
        Some(parts) => parts,
        None => return Err(type_error("fraction_parsing", "Input must be an exact fraction", "fraction")),
    };
    let magnitude: u64 = if scale >= 0 {
        scale as u64
    } else if scale == i64::MIN {
        9223372036854775808u64
    } else {
        (-scale) as u64
    };
    if magnitude > u32::MAX as u64 {
        return Err(type_error("fraction_parsing", "Decimal exponent is too large", "bounded decimal"));
    }
    let exponent = magnitude as u32;
    proof {
        reveal_strlit("1");
        assert("1"@ =~= seq!['1']);
    }
    if scale >= 0 {
        let power = scale_up("1", exponent);
        proof {
            assert(canonical_integer("1"@));
            assert(integer_value("1"@) == 1) by {
                reveal_with_fuel(crate::integers::digits_value, 2);
            }
            assert(1 * pow(10, exponent as nat) == pow(10, exponent as nat));
            vstd::arithmetic::power::lemma_pow_positive(10, exponent as nat);
            crate::integers::lemma_signed_decimal(pow(10, exponent as nat));
        }
        Ok(reduce_fraction(coefficient.as_str(), power.as_str()))
    } else {
        let n = scale_up(coefficient.as_str(), exponent);
        proof {
            crate::integers::lemma_signed_decimal(integer_value(coefficient@) * pow(10, exponent as nat));
        }
        Ok((n, owned("1")))
    }
}

/// A fraction of an integer: the integer over one.
pub open spec fn integer_fraction(text: Seq<char>) -> Result<(Seq<char>, Seq<char>), (Seq<DetailView>, bool)> {
    if canonical_integer(text) {
        Ok((text, "1"@))
    } else {
        Err(plain_error("int_parsing"@, "Input must be a canonical integer"@, "int"@))
    }
}

/// Whether the first `/` of a text stands at `i`.
pub open spec fn first_slash(s: Seq<char>, i: int) -> bool {
    0 <= i < s.len() && s[i] == '/' && forall|j: int| 0 <= j < i ==> s[j] != '/'
}

/// Whether a text holds a character.
pub open spec fn holds_char(s: Seq<char>, c: char) -> bool {
    exists|i: int| 0 <= i < s.len() && s[i] == c
}

/// The fraction that a string writes: the parts around its first `/`; else
/// a decimal when it holds a point or an exponent; else an integer.
pub open spec fn string_fraction(s: Seq<char>) -> Result<(Seq<char>, Seq<char>), (Seq<DetailView>, bool)> {
    if exists|i: int| first_slash(s, i) {
        let i = choose|i: int| first_slash(s, i);
        parts_fraction(s.subrange(0, i), s.subrange(i + 1, s.len() as int))
    } else if holds_char(s, '.') || holds_char(s, 'e') || holds_char(s, 'E') {
        decimal_fraction(s)
    } else {
        integer_fraction(s)
    }
}

/// What `validate_fraction` answers: the numerator and denominator in
/// lowest terms, or the view of its error.
pub open spec fn fraction_outcome(
    input: InputNode,
    strict: bool,
    profile: InputProfile,
    constraints: IntegerConstraints,
) -> Result<(Seq<char>, Seq<char>), (Seq<DetailView>, bool)> {
    let refused = plain_error("fraction_type"@, "Input must be an exact fraction"@, "fraction"@);
    let value = match input {
        InputNode::Fraction { numerator, denominator } => parts_fraction(numerator, denominator),
        InputNode::Integer(v) => if !strict || profile != InputProfile::Native {
            integer_fraction(v)
        } else {
            Err(refused)
        },
        InputNode::Decimal(v) => if !strict {
            decimal_fraction(v)
        } else {
            Err(refused)
        },
        InputNode::String(v) => if !strict || profile == InputProfile::Strings {
            string_fraction(v)
        } else {
            Err(refused)
        },
        _ => Err(refused),
    };
    match value {
        Err(view) => Err(view),
        Ok(p) => match integer_constraint_fault(p.0, constraints) {
            Some(view) => Err(view),
            None => Ok(p),
        },
    }
}

/// The position of the first `/` of a text, if any.
fn find_slash(s: &str) -> (r: Option<usize>)
    ensures
        match r {
            Some(i) => first_slash(s@, i as int),
            None => !exists|i: int| first_slash(s@, i),
        },
{
    let n = s.unicode_len();
    let mut i: usize = 0;
    while i < n
        invariant
            n == s@.len(),
            i <= n,
            forall|j: int| 0 <= j < i ==> s@[j] != '/',
        decreases n - i,
    {
        if s.get_char(i) == '/' {
            return Some(i);
        }
        i += 1;
    }
    proof {
        assert forall|k: int| !first_slash(s@, k) by {
            if 0 <= k < s@.len() {
                assert(s@[k] != '/');
            }
        }
    }
    None
}

/// Whether a text holds a character.
fn has_char(s: &str, c: char) -> (r: bool)
    ensures
        r == holds_char(s@, c),
{
    let n = s.unicode_len();
    let mut i: usize = 0;
    while i < n
        invariant
            n == s@.len(),
            i <= n,
            forall|j: int| 0 <= j < i ==> s@[j] != c,
        decreases n - i,
    {
        if s.get_char(i) == c {
            return true;
        }
        i += 1;
    }
    false
}

/// Validates an exact fraction: a fraction input; an integer unless strict
/// validation of native input asks for a fraction; a decimal when not
/// strict; a string when not strict or under the strings profile, read as
/// `numerator/denominator`, a decimal or an integer. The fraction is put in
/// lowest terms and its numerator checked against integer constraints.
pub fn validate_fraction(
    input: &InputValue,
    strict: bool,
    profile: InputProfile,
    constraints: &IntegerConstraints,
) -> (r: Result<ValidatedValue, ValidationError>)
    requires
        integer_constraints_wf(*constraints),
    ensures
        match fraction_outcome(input@, strict, profile, *constraints) {
            Ok(p) => r matches Ok(ValidatedValue::Fraction { numerator, denominator }) && numerator@ == p.0
                && denominator@ == p.1,
            Err(view) => r matches Err(e) && e@ == view,
        },
{
    proof {
        reveal_strlit("1");
        assert("1"@ =~= seq!['1']);
    }
    let (numerator, denominator) = match input {
        InputValue::Fraction { numerator, denominator } => rational_from_parts(
            numerator.as_str(),
            denominator.as_str(),
        )?,
        InputValue::Integer(value) if !strict || profile != InputProfile::Native => (
            parse_canonical_integer(value.as_str())?,
            owned("1"),
        ),
        InputValue::Decimal(value) if !strict => rational_from_decimal(value.as_str())?,
        InputValue::String(value) if !strict || profile == InputProfile::Strings => {
            let text = value.as_str();
            match find_slash(text) {
                Some(i) => {
                    let n = text.unicode_len();
                    let head = text.substring_char(0, i);
                    let tail = text.substring_char(i + 1, n);
                    proof {
                        assert(exists|k: int| first_slash(text@, k));
                        let k = choose|k: int| first_slash(text@, k);
                        if k < i {
                            assert(text@[k] == '/');
                        } else if k > i {
                            assert(text@[i as int] == '/');
                        }
                    }
                    rational_from_parts(head, tail)?
                },
                None => {
                    if has_char(text, '.') || has_char(text, 'e') || has_char(text, 'E') {
                        rational_from_decimal(text)?
                    } else {
                        (parse_canonical_integer(text)?, owned("1"))
                    }
                },
            }
        },
        _ => {
            return Err(type_error("fraction_type", "Input must be an exact fraction", "fraction"));
        },
    };
    validate_integer_constraints(numerator.as_str(), constraints)?;
    Ok(ValidatedValue::Fraction { numerator, denominator })
}

} // verus!
