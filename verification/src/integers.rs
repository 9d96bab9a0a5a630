use core::str::FromStr;

use vstd::arithmetic::power2::pow2;
use vstd::prelude::*;

use crate::constraints::{integer_constraints_wf, IntegerConstraints, IntegerTarget};
use crate::error::{detail_error, plain_error, type_error, DetailView, ErrorDetail, ValidationError};
use crate::input::{InputNode, InputValue};
use crate::options::InputProfile;
use crate::order::{compare_int, Order};
use crate::scalars::{canonical_integer, parse_canonical_integer};
use crate::text::{concat, decimal, digit_char, i64_text, owned, signed_decimal, u64_text};
use crate::values::ValidatedValue;

verus! {

// ---------------------------------------------------------------------------
// The value of a canonical integer text
// ---------------------------------------------------------------------------

/// The number that a string of decimal digits writes.
pub open spec fn digits_value(d: Seq<char>) -> nat
    decreases d.len(),
{
    if d.len() == 0 {
        0
    } else {
        digits_value(d.drop_last()) * 10 + ((d.last() as nat) - ('0' as nat)) as nat
    }
}

/// The integer that a decimal text writes: its digits, negated after a
/// leading minus sign.
pub open spec fn integer_value(s: Seq<char>) -> int {
    if s.len() > 0 && s[0] == '-' {
        -(digits_value(s.drop_first()) as int)
    } else {
        digits_value(s) as int
    }
}

proof fn lemma_digit_char(d: nat)
    requires
        d < 10,
    ensures
        '0' <= digit_char(d) <= '9',
        (digit_char(d) as nat) - ('0' as nat) == d,
{
}

proof fn lemma_decimal_digits(n: nat)
    ensures
        decimal(n).len() > 0,
        forall|i: int| 0 <= i < decimal(n).len() ==> '0' <= #[trigger] decimal(n)[i] <= '9',
        decimal(n).len() == 1 || decimal(n)[0] != '0',
        n > 0 ==> decimal(n)[0] != '0',
        digits_value(decimal(n)) == n,
    decreases n,
{
    lemma_digit_char(n % 10);
    if n < 10 {
        assert(decimal(n).drop_last() =~= Seq::<char>::empty());
        assert(digits_value(Seq::<char>::empty()) == 0);
        assert(decimal(n).last() == digit_char(n));
        assert(n % 10 == n);
    } else {
        lemma_decimal_digits(n / 10);
        let d = decimal(n);
        let prefix = decimal(n / 10);
        assert(d == prefix + seq![digit_char(n % 10)]);
        assert(d.drop_last() =~= prefix);
        assert(d.last() == digit_char(n % 10));
        assert(digits_value(d) == digits_value(prefix) * 10 + ((digit_char(n % 10) as nat) - ('0' as nat)) as nat);
        assert((n / 10) * 10 + n % 10 == n) by (nonlinear_arith);
        assert forall|i: int| 0 <= i < d.len() implies '0' <= #[trigger] d[i] <= '9' by {
            if i < prefix.len() {
                assert(d[i] == prefix[i]);
            }
        }
        assert(d[0] == prefix[0]);
    }
}

/// Digits without a leading zero are the decimal text of their value.
proof fn lemma_digits_decimal(d: Seq<char>)
    requires
        d.len() > 0,
        forall|i: int| 0 <= i < d.len() ==> '0' <= #[trigger] d[i] <= '9',
        d.len() == 1 || d[0] != '0',
    ensures
        decimal(digits_value(d)) == d,
        d.len() > 1 ==> digits_value(d) >= 10,
        d[0] != '0' ==> digits_value(d) >= 1,
    decreases d.len(),
{
    let c = d.last();
    let v = digits_value(d);
    let p = d.drop_last();
    let k = ((c as nat) - ('0' as nat)) as nat;
    assert('0' <= c <= '9');
    assert(k < 10);
    assert(digit_char(k) == c) by {
        assert(c == '0' || c == '1' || c == '2' || c == '3' || c == '4' || c == '5' || c == '6' || c == '7'
            || c == '8' || c == '9');
    }
    if d.len() == 1 {
        assert(p =~= Seq::<char>::empty());
        assert(digits_value(p) == 0);
        assert(v == digits_value(p) * 10 + k);
        assert(v == k);
        assert(decimal(v) =~= d);
    } else {
        assert forall|i: int| 0 <= i < p.len() implies '0' <= #[trigger] p[i] <= '9' by {
            assert(p[i] == d[i]);
        }
        assert(p[0] == d[0]);
        lemma_digits_decimal(p);
        let q = digits_value(p);
        assert(q >= 1);
        assert(v == q * 10 + k);
        assert(v / 10 == q && v % 10 == k) by (nonlinear_arith)
            requires
                v == q * 10 + k,
                k < 10,
        ;
        assert(v >= 10);
        assert(decimal(v) == decimal(q) + seq![digit_char(k)]);
        assert(decimal(v) =~= d);
    }
}

/// A canonical integer text is the text `signed_decimal` writes for its
/// value, so equal values have equal canonical texts.
pub(crate) proof fn lemma_canonical_text(s: Seq<char>)
    requires
        canonical_integer(s),
    ensures
        s == signed_decimal(integer_value(s)),
{
    let d = crate::scalars::integer_digits(s);
    lemma_digits_decimal(d);
    if s.len() > 0 && s[0] == '-' {
        assert(d == s.drop_first());
        if digits_value(d) == 0 {
            assert(d =~= seq!['0']);
            assert(s =~= seq!['-', '0']);
        }
        assert(integer_value(s) == -(digits_value(d) as int));
        assert(s =~= seq!['-'] + d);
    } else {
        assert(d == s);
    }
}

/// The canonical text of an integer, as `signed_decimal` writes it, is
/// canonical and writes that integer.
pub(crate) proof fn lemma_signed_decimal(v: int)
    ensures
        canonical_integer(signed_decimal(v)),
        integer_value(signed_decimal(v)) == v,
{
    if v < 0 {
        let magnitude = (-v) as nat;
        lemma_decimal_digits(magnitude);
        let s = signed_decimal(v);
        assert(s == seq!['-'] + decimal(magnitude));
        assert(s.drop_first() =~= decimal(magnitude));
        assert(crate::scalars::integer_digits(s) == decimal(magnitude));
        assert(s != seq!['-', '0']) by {
            if s =~= seq!['-', '0'] {
                assert(decimal(magnitude) =~= seq!['0']);
                assert(decimal(magnitude)[0] == '0');
            }
        }
    } else {
        lemma_decimal_digits(v as nat);
        let s = signed_decimal(v);
        assert(s == decimal(v as nat));
        assert(s[0] != '-');
        assert(crate::scalars::integer_digits(s) == s);
        assert(s != seq!['-', '0']) by {
            if s =~= seq!['-', '0'] {
                assert(s[0] == '-');
            }
        }
    }
}

/// Compares two integers written as canonical decimal texts, by parsing
/// both with num-bigint's `BigInt::from_str` and comparing the results with
/// `Ord`. Trusted: num-bigint reads a decimal text as the integer it writes
/// and orders big integers as integers.
#[verifier::external_body]
pub(crate) fn compare_integers(a: &str, b: &str) -> (r: Order)
    requires
        canonical_integer(a@),
        canonical_integer(b@),
    ensures
        r == compare_int(integer_value(a@), integer_value(b@)),
{
    let left = num_bigint::BigInt::from_str(a).unwrap_or_default();
    let right = num_bigint::BigInt::from_str(b).unwrap_or_default();
    match left.cmp(&right) {
        core::cmp::Ordering::Less => Order::Less,
        core::cmp::Ordering::Equal => Order::Equal,
        core::cmp::Ordering::Greater => Order::Greater,
    }
}

/// Whether the first of two integers written as canonical decimal texts is
/// a multiple of the second, by num-bigint's remainder of their `BigInt`
/// values. Trusted: num-bigint reads a decimal text as the integer it
/// writes, and its remainder is zero exactly for multiples.
#[verifier::external_body]
fn is_multiple(value: &str, step: &str) -> (r: bool)
    requires
        canonical_integer(value@),
        canonical_integer(step@),
        integer_value(step@) != 0,
    ensures
        r == (integer_value(value@) % integer_value(step@) == 0),
{
    let value = num_bigint::BigInt::from_str(value).unwrap_or_default();
    let step = num_bigint::BigInt::from_str(step).unwrap_or_default();
    num_traits::Zero::is_zero(&(value % step))
}

// ---------------------------------------------------------------------------
// Floating-point inputs
// ---------------------------------------------------------------------------

/// The integer that an IEEE 754 double stands for, given its bit pattern,
/// when the double is finite, has no fractional part and lies within
/// 2^53 of zero; none otherwise. Its value is the 53-bit significand
/// `2^52 + m` scaled by `2^(e - 1075)`, or zero when every bit but the sign
/// is clear.
pub open spec fn float_integer(bits: u64) -> Option<int> {
    let e = (bits / 0x10_0000_0000_0000) % 2048;
    let m = bits % 0x10_0000_0000_0000;
    let negative = bits >= 0x8000_0000_0000_0000;
    let significand: nat = (0x10_0000_0000_0000 + m) as nat;
    let magnitude: Option<int> = if e == 0 && m == 0 {
        Some(0)
    } else if e == 1075 {
        Some(significand as int)
    } else if e == 1076 && m == 0 {
        Some(0x20_0000_0000_0000)
    } else if 1023 <= e < 1075 && significand % pow2((1075 - e) as nat) == 0 {
        Some((significand / pow2((1075 - e) as nat)) as int)
    } else {
        None
    };
    match magnitude {
        Some(v) => Some(if negative { -v } else { v }),
        None => None,
    }
}

/// The integer of an integral double within 2^53 of zero.
fn float_to_integer(bits: u64) -> (r: Option<i64>)
    ensures
        match float_integer(bits) {
            Some(v) => r == Some(v as i64) && i64::MIN <= v <= i64::MAX,
            None => r is None,
        },
{
    let e: u64 = (bits >> 52) & 0x7ff;
    let m: u64 = bits & 0xF_FFFF_FFFF_FFFF;
    let negative = (bits >> 63) == 1;
    proof {
        assert(e == (bits / 0x10_0000_0000_0000) % 2048) by (bit_vector)
            requires
                e == (bits >> 52) & 0x7ff,
        ;
        assert(m == bits % 0x10_0000_0000_0000) by (bit_vector)
            requires
                m == bits & 0xF_FFFF_FFFF_FFFF,
        ;
        assert(negative == (bits >= 0x8000_0000_0000_0000)) by (bit_vector)
            requires
                negative == ((bits >> 63) == 1),
        ;
    }
    let significand: u64 = 0x10_0000_0000_0000 + m;
    let magnitude: i64 = if e == 0 && m == 0 {
        0
    } else if e == 1075 {
        significand as i64
    } else if e == 1076 && m == 0 {
        0x20_0000_0000_0000
    } else if 1023 <= e && e < 1075 {
        let shift: u64 = 1075 - e;
        proof {
            vstd::bits::lemma_u64_pow2_no_overflow(shift as nat);
            vstd::bits::lemma_u64_shl_is_mul(1, shift);
            vstd::bits::lemma_u64_low_bits_mask_is_mod(significand, shift as nat);
            vstd::bits::lemma_u64_shr_is_div(significand, shift);
        }
        let mask: u64 = (1u64 << shift) - 1;
        proof {
            assert(mask == vstd::bits::low_bits_mask(shift as nat) as u64);
        }
        if significand & mask != 0 {
            return None;
        }
        (significand >> shift) as i64
    } else {
        return None;
    };
    if negative {
        Some(-magnitude)
    } else {
        Some(magnitude)
    }
}

// ---------------------------------------------------------------------------
// Exact integers
// ---------------------------------------------------------------------------

/// The canonical text of the integer that an input stands for, or the view
/// of the error that `exact_integer` answers.
pub open spec fn exact_integer_outcome(input: InputNode, strict: bool, profile: InputProfile) -> Result<
    Seq<char>,
    (Seq<DetailView>, bool),
> {
    let canonical_only = plain_error("int_parsing"@, "Input must be a canonical integer"@, "int"@);
    match input {
        InputNode::Integer(s) => if canonical_integer(s) {
            Ok(s)
        } else {
            Err(canonical_only)
        },
        _ => if strict && profile != InputProfile::Strings {
            Err(plain_error("int_type"@, "Input must be an integer"@, "int"@))
        } else {
            match input {
                InputNode::Bool(b) => Ok(if b { "1"@ } else { "0"@ }),
                InputNode::Float(bits) => match float_integer(bits) {
                    Some(v) => Ok(signed_decimal(v)),
                    None => Err(plain_error("int_parsing"@, "Input must be a valid integer"@, "int"@)),
                },
                InputNode::String(s) => if canonical_integer(s) {
                    Ok(s)
                } else {
                    Err(canonical_only)
                },
                _ => Err(plain_error("int_parsing"@, "Input must be a valid integer"@, "int"@)),
            }
        },
    }
}

/// The canonical text of the integer that an input stands for: an integer
/// input in canonical form; unless strict validation of other than string
/// input asks for an integer, also a boolean as 0 or 1, an integral double
/// within 2^53 of zero, or a string in canonical form.
pub fn exact_integer(input: &InputValue, strict: bool, profile: InputProfile) -> (r: Result<String, ValidationError>)
    ensures
        match exact_integer_outcome(input@, strict, profile) {
            Ok(text) => r matches Ok(t) && t@ == text,
            Err(view) => r matches Err(e) && e@ == view,
        },
{
    if let InputValue::Integer(value) = input {
        return parse_canonical_integer(value.as_str());
    }
    if strict && profile != InputProfile::Strings {
        return Err(type_error("int_type", "Input must be an integer", "int"));
    }
    match input {
        InputValue::Bool(value) => {
            proof {
                reveal_strlit("1");
                reveal_strlit("0");
            }
            Ok(owned(if *value { "1" } else { "0" }))
        },
        InputValue::Float(bits) => match float_to_integer(*bits) {
            Some(value) => Ok(i64_text(value)),
            None => Err(type_error("int_parsing", "Input must be a valid integer", "int")),
        },
        InputValue::String(value) => parse_canonical_integer(value.as_str()),
        _ => Err(type_error("int_parsing", "Input must be a valid integer", "int")),
    }
}

// ---------------------------------------------------------------------------
// Bounds and steps
// ---------------------------------------------------------------------------

/// The error view of a bound that an integer broke.
pub open spec fn bound_fault(code: Seq<char>, message: Seq<char>, bound: Seq<char>) -> (Seq<DetailView>, bool) {
    detail_error(code, message, Seq::empty(), seq![("bound"@, bound)])
}

/// The error view of the first constraint that an integer breaks, checked
/// in the order greater-than, greater-or-equal, less-than, less-or-equal,
/// multiple-of; none when it keeps them all.
pub open spec fn integer_constraint_fault(value: Seq<char>, c: IntegerConstraints) -> Option<(Seq<DetailView>, bool)> {
    let v = integer_value(value);
    if c.greater_than matches Some(b) && v <= integer_value(b@) {
        Some(bound_fault("greater_than"@, "Input must be greater"@, c.greater_than->0@))
    } else if c.greater_or_equal matches Some(b) && v < integer_value(b@) {
        Some(bound_fault("greater_than_equal"@, "Input must be greater than or equal"@, c.greater_or_equal->0@))
    } else if c.less_than matches Some(b) && v >= integer_value(b@) {
        Some(bound_fault("less_than"@, "Input must be less"@, c.less_than->0@))
    } else if c.less_or_equal matches Some(b) && v > integer_value(b@) {
        Some(bound_fault("less_than_equal"@, "Input must be less than or equal"@, c.less_or_equal->0@))
    } else {
        match c.multiple_of {
            Some(step) => if integer_value(step@) == 0 {
                Some(plain_error("schema_invalid"@, "multiple_of cannot be zero"@, "nonzero integer"@))
            } else if v % integer_value(step@) != 0 {
                Some(detail_error("multiple_of"@, "Input must be a multiple"@, Seq::empty(), seq![("multiple_of"@, step@)]))
            } else {
                None
            },
            None => None,
        }
    }
}

fn bound_error(code: &'static str, message: &str, bound: &String) -> (r: ValidationError)
    ensures
        r@ == bound_fault(code@, message@, bound@),
{
    let detail = ErrorDetail::new(code, owned(message)).context("bound", bound.clone());
    let e = ValidationError::one(detail);
    proof {
        assert(detail@.context =~= seq![("bound"@, bound@)]);
        assert(detail@.location =~= Seq::<crate::error::LocationStep>::empty());
        assert(detail@.expected =~= Seq::<char>::empty());
        assert(e@.0 =~= bound_fault(code@, message@, bound@).0);
    }
    e
}

/// Checks an integer, written as canonical decimal text, against the
/// bounds and the step of its constraints.
pub fn validate_integer_constraints(value: &str, constraints: &IntegerConstraints) -> (r: Result<(), ValidationError>)
    requires
        canonical_integer(value@),
        integer_constraints_wf(*constraints),
    ensures
        match integer_constraint_fault(value@, *constraints) {
            None => r is Ok,
            Some(view) => r matches Err(e) && e@ == view,
        },
{
    if let Some(bound) = &constraints.greater_than {
        if compare_integers(value, bound.as_str()) != Order::Greater {
            return Err(bound_error("greater_than", "Input must be greater", bound));
        }
    }
    if let Some(bound) = &constraints.greater_or_equal {
        if compare_integers(value, bound.as_str()) == Order::Less {
            return Err(bound_error("greater_than_equal", "Input must be greater than or equal", bound));
        }
    }
    if let Some(bound) = &constraints.less_than {
        if compare_integers(value, bound.as_str()) != Order::Less {
            return Err(bound_error("less_than", "Input must be less", bound));
        }
    }
    if let Some(bound) = &constraints.less_or_equal {
        if compare_integers(value, bound.as_str()) == Order::Greater {
            return Err(bound_error("less_than_equal", "Input must be less than or equal", bound));
        }
    }
    if let Some(step) = &constraints.multiple_of {
        proof {
            reveal_strlit("0");
            assert("0"@ =~= seq!['0']);
            assert(canonical_integer("0"@) && integer_value("0"@) == 0) by {
                reveal_with_fuel(digits_value, 2);
            }
        }
        if compare_integers(step.as_str(), "0") == Order::Equal {
            return Err(type_error("schema_invalid", "multiple_of cannot be zero", "nonzero integer"));
        }
        if !is_multiple(value, step.as_str()) {
            let detail = ErrorDetail::new("multiple_of", owned("Input must be a multiple")).context(
                "multiple_of",
                step.clone(),
            );
            let e = ValidationError::one(detail);
            proof {
                assert(detail@.context =~= seq![("multiple_of"@, step@)]);
                assert(detail@.location =~= Seq::<crate::error::LocationStep>::empty());
                assert(detail@.expected =~= Seq::<char>::empty());
            }
            return Err(e);
        }
    }
    Ok(())
}

// ---------------------------------------------------------------------------
// Integers of a target type
// ---------------------------------------------------------------------------

/// The least and greatest value of a fixed-width target.
pub open spec fn target_bounds(target: IntegerTarget) -> Option<(int, int)> {
    match target {
        IntegerTarget::Exact => None,
        IntegerTarget::I8 => Some((i8::MIN as int, i8::MAX as int)),
        IntegerTarget::I16 => Some((i16::MIN as int, i16::MAX as int)),
        IntegerTarget::I32 => Some((i32::MIN as int, i32::MAX as int)),
        IntegerTarget::I64 => Some((i64::MIN as int, i64::MAX as int)),
        IntegerTarget::U8 => Some((0, u8::MAX as int)),
        IntegerTarget::U16 => Some((0, u16::MAX as int)),
        IntegerTarget::U32 => Some((0, u32::MAX as int)),
        IntegerTarget::U64 => Some((0, u64::MAX as int)),
    }
}

/// The name of an integer target.
pub open spec fn target_name(target: IntegerTarget) -> Seq<char> {
    match target {
        IntegerTarget::Exact => "int"@,
        IntegerTarget::I8 => "int8"@,
        IntegerTarget::I16 => "int16"@,
        IntegerTarget::I32 => "int32"@,
        IntegerTarget::I64 => "int64"@,
        IntegerTarget::U8 => "uint8"@,
        IntegerTarget::U16 => "uint16"@,
        IntegerTarget::U32 => "uint32"@,
        IntegerTarget::U64 => "uint64"@,
    }
}

/// What `validate_integer` answers: the canonical text of the integer, or
/// the view of its error.
pub open spec fn integer_outcome(
    input: InputNode,
    strict: bool,
    profile: InputProfile,
    target: IntegerTarget,
    constraints: IntegerConstraints,
) -> Result<Seq<char>, (Seq<DetailView>, bool)> {
    match exact_integer_outcome(input, strict, profile) {
        Err(view) => Err(view),
        Ok(text) => {
            let v = integer_value(text);
            match target_bounds(target) {
                Some((lo, hi)) => if v < lo || v > hi {
                    Err(
                        detail_error(
                            "integer_overflow"@,
                            "Input does not fit "@ + target_name(target),
                            target_name(target),
                            seq![
                                ("minimum"@, signed_decimal(lo)),
                                ("maximum"@, signed_decimal(hi)),
                                ("target"@, target_name(target)),
                            ],
                        ),
                    )
                } else {
                    match integer_constraint_fault(text, constraints) {
                        Some(view) => Err(view),
                        None => Ok(text),
                    }
                },
                None => match integer_constraint_fault(text, constraints) {
                    Some(view) => Err(view),
                    None => Ok(text),
                },
            }
        },
    }
}

/// Validates an integer: the exact integer of the input, within the range
/// of a fixed-width target, keeping the bounds and the step of the
/// constraints; an exact target gives an exact integer, another a fixed
/// integer of the target's name.
pub fn validate_integer(
    input: &InputValue,
    strict: bool,
    profile: InputProfile,
    target: IntegerTarget,
    constraints: &IntegerConstraints,
) -> (r: Result<ValidatedValue, ValidationError>)
    requires
        integer_constraints_wf(*constraints),
    ensures
        match integer_outcome(input@, strict, profile, target, *constraints) {
            Ok(text) => if target == IntegerTarget::Exact {
                r matches Ok(ValidatedValue::ExactInt(t)) && t@ == text
            } else {
                r matches Ok(ValidatedValue::FixedInt { kind, value }) && kind@ == target_name(target) && value@
                    == text
            },
            Err(view) => r matches Err(e) && e@ == view,
        },
{
    let value = exact_integer(input, strict, profile)?;
    proof {
        let ghost o = exact_integer_outcome(input@, strict, profile);
        if let InputNode::Float(bits) = input@ {
            if let Some(v) = float_integer(bits) {
                lemma_signed_decimal(v);
            }
        }
        assert(canonical_integer(value@)) by {
            reveal_strlit("1");
            reveal_strlit("0");
            assert("1"@ =~= seq!['1']);
            assert("0"@ =~= seq!['0']);
        }
    }
    if let Some((minimum, maximum)) = target.bounds() {
        let low = i64_text(minimum);
        let high = u64_text(maximum);
        proof {
            lemma_signed_decimal(minimum as int);
            lemma_signed_decimal(maximum as int);
            assert(signed_decimal(maximum as int) == decimal(maximum as nat));
        }
        if compare_integers(value.as_str(), low.as_str()) == Order::Less || compare_integers(
            value.as_str(),
            high.as_str(),
        ) == Order::Greater {
            let name = target.name();
            let detail = ErrorDetail::new("integer_overflow", concat("Input does not fit ", name)).expected(
                owned(name),
            );
            let detail = detail.context("minimum", low);
            proof {
                reveal_strlit("minimum");
                reveal_strlit("maximum");
                reveal_strlit("target");
                assert("minimum"@[1] != "maximum"@[1]);
                assert("minimum"@ != "maximum"@);
                assert("minimum"@[0] != "target"@[0]);
                assert("maximum"@[0] != "target"@[0]);
            }
            let detail = detail.context("maximum", high);
            let detail = detail.context("target", owned(name));
            let e = ValidationError::one(detail);
            proof {
                assert(detail@.location =~= Seq::<crate::error::LocationStep>::empty());
                assert(detail@.context =~= seq![
                    ("minimum"@, signed_decimal(minimum as int)),
                    ("maximum"@, signed_decimal(maximum as int)),
                    ("target"@, target_name(target)),
                ]);
                let view = integer_outcome(input@, strict, profile, target, *constraints);
                assert(e@.0 =~= view->Err_0.0);
            }
            return Err(e);
        }
    }
    validate_integer_constraints(value.as_str(), constraints)?;
    if target == IntegerTarget::Exact {
        Ok(ValidatedValue::ExactInt(value))
    } else {
        Ok(ValidatedValue::FixedInt { kind: target.name(), value })
    }
}

} // verus!
