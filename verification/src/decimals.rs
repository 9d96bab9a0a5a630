use core::str::FromStr;

use vstd::arithmetic::power::pow;
use vstd::prelude::*;

use crate::error::{detail_error, plain_error, type_error, DetailView, ErrorDetail, ValidationError};
use crate::input::{InputNode, InputValue};
use crate::integers::integer_value;
use crate::options::InputProfile;
use crate::order::{compare_int, Order};
use crate::scalars::{canonical_integer, integer_digits};
use crate::strings::finite_bits;
use crate::text::{decimal, owned, usize_text};
use crate::values::ValidatedValue;

verus! {

// ---------------------------------------------------------------------------
// Decimal values
// ---------------------------------------------------------------------------

/// What bigdecimal's `BigDecimal::from_str` gives for a text: the
/// coefficient's decimal text, the scale, and the value's `Display` text;
/// none when it refuses the text.
pub uninterp spec fn parsed_decimal(text: Seq<char>) -> Option<(Seq<char>, i64, Seq<char>)>;

/// Parses a decimal with bigdecimal's `BigDecimal::from_str`, handing out
/// the coefficient and scale of `as_bigint_and_exponent`, with num-bigint's
/// `Display` of the coefficient, and the decimal's own `Display`. Trusted:
/// all depend on the text alone, and num-bigint writes an integer as its
/// canonical decimal text.
#[verifier::external_body]
fn parse_decimal(text: &str) -> (r: Option<(String, i64, String)>)
    ensures
        match r {
            Some((coefficient, scale, shown)) => parsed_decimal(text@) == Some((coefficient@, scale, shown@))
                && canonical_integer(coefficient@),
            None => parsed_decimal(text@) is None,
        },
{
    match bigdecimal::BigDecimal::from_str(text) {
        Ok(value) => {
            let (coefficient, scale) = value.as_bigint_and_exponent();
            Some((coefficient.to_string(), scale, value.to_string()))
        },
        Err(_) => None,
    }
}

/// The coefficient and scale of a decimal text that bigdecimal reads, as
/// numbers: the value is `coefficient * 10^-scale`.
pub open spec fn decimal_parts(text: Seq<char>) -> (int, int) {
    let p = parsed_decimal(text)->0;
    (integer_value(p.0), p.1 as int)
}

/// The coefficient's text and the scale of the decimal that a text writes,
/// when bigdecimal reads it.
pub(crate) fn parse_decimal_parts(text: &str) -> (r: Option<(String, i64)>)
    ensures
        r is Some <==> parsed_decimal(text@) is Some,
        r matches Some((c, s)) ==> c@ == decimal_coefficient(text@) && s == decimal_scale(text@)
            && canonical_integer(c@),
{
    match parse_decimal(text) {
        Some((coefficient, scale, _)) => Some((coefficient, scale)),
        None => None,
    }
}

/// How bigdecimal writes the decimal of a text that it reads.
pub open spec fn shown_decimal(text: Seq<char>) -> Seq<char> {
    let p = parsed_decimal(text)->0;
    p.2
}

/// The scale of the decimal of a text that bigdecimal reads.
pub open spec fn decimal_scale(text: Seq<char>) -> i64 {
    let p = parsed_decimal(text)->0;
    p.1
}

/// The coefficient's text of the decimal of a text that bigdecimal reads.
pub open spec fn decimal_coefficient(text: Seq<char>) -> Seq<char> {
    let p = parsed_decimal(text)->0;
    p.0
}

/// Two decimals, given by coefficient and scale, in numeric order.
pub open spec fn compare_decimal_parts(a: (int, int), b: (int, int)) -> Order {
    let k = if a.1 >= b.1 { a.1 } else { b.1 };
    compare_int(a.0 * pow(10, (k - a.1) as nat), b.0 * pow(10, (k - b.1) as nat))
}

/// Whether the first of two decimals, given by coefficient and scale, is an
/// integral multiple of the second.
pub open spec fn decimal_multiple(a: (int, int), b: (int, int)) -> bool {
    let k = if a.1 >= b.1 { a.1 } else { b.1 };
    (a.0 * pow(10, (k - a.1) as nat)) % (b.0 * pow(10, (k - b.1) as nat)) == 0
}

/// Compares two decimal texts that bigdecimal reads, by bigdecimal's `Ord`
/// on their `BigDecimal` values. Trusted: bigdecimal orders decimals by
/// value.
#[verifier::external_body]
fn compare_decimals(a: &str, b: &str) -> (r: Order)
    requires
        parsed_decimal(a@) is Some,
        parsed_decimal(b@) is Some,
    ensures
        r == compare_decimal_parts(decimal_parts(a@), decimal_parts(b@)),
{
    let left = bigdecimal::BigDecimal::from_str(a).unwrap_or_default();
    let right = bigdecimal::BigDecimal::from_str(b).unwrap_or_default();
    match left.cmp(&right) {
        core::cmp::Ordering::Less => Order::Less,
        core::cmp::Ordering::Equal => Order::Equal,
        core::cmp::Ordering::Greater => Order::Greater,
    }
}

/// Whether the first of two decimal texts that bigdecimal reads is an
/// integral multiple of the second, by bigdecimal's remainder. Trusted:
/// bigdecimal's remainder is zero exactly for integral multiples.
#[verifier::external_body]
fn is_decimal_multiple(value: &str, step: &str) -> (r: bool)
    requires
        parsed_decimal(value@) is Some,
        parsed_decimal(step@) is Some,
        decimal_parts(step@).0 != 0,
    ensures
        r == decimal_multiple(decimal_parts(value@), decimal_parts(step@)),
{
    let value = bigdecimal::BigDecimal::from_str(value).unwrap_or_default();
    let step = bigdecimal::BigDecimal::from_str(step).unwrap_or_default();
    num_traits::Zero::is_zero(&(value % step))
}

/// A decimal number that bigdecimal reads, held as its text.
#[derive(Debug)]
pub struct DecimalNumber {
    text: String,
}

impl Clone for DecimalNumber {
    fn clone(&self) -> (r: Self)
        ensures
            r.spec_text() == self.spec_text(),
    {
        proof {
            use_type_invariant(self);
        }
        DecimalNumber { text: self.text.clone() }
    }
}

impl DecimalNumber {
    #[verifier::type_invariant]
    closed spec fn inv(self) -> bool {
        parsed_decimal(self.text@) is Some
    }

    pub closed spec fn spec_text(self) -> Seq<char> {
        self.text@
    }

    /// The decimal that a text writes, when bigdecimal reads it.
    pub fn parse(text: &str) -> (r: Option<DecimalNumber>)
        ensures
            r is Some <==> parsed_decimal(text@) is Some,
            r matches Some(d) ==> d.spec_text() == text@,
    {
        match parse_decimal(text) {
            Some(_) => Some(DecimalNumber { text: owned(text) }),
            None => None,
        }
    }

    pub fn text(&self) -> (r: &str)
        ensures
            r@ == self.spec_text(),
            parsed_decimal(r@) is Some,
    {
        proof {
            use_type_invariant(self);
        }
        self.text.as_str()
    }
}

/// Bounds, a step and digit counts that a decimal must respect.
#[derive(Clone, Debug, Default)]
pub struct DecimalConstraints {
    pub greater_than: Option<DecimalNumber>,
    pub greater_or_equal: Option<DecimalNumber>,
    pub less_than: Option<DecimalNumber>,
    pub less_or_equal: Option<DecimalNumber>,
    pub multiple_of: Option<DecimalNumber>,
    pub max_digits: Option<usize>,
    pub decimal_places: Option<usize>,
}

// ---------------------------------------------------------------------------
// Bounds
// ---------------------------------------------------------------------------

/// The error view of a decimal constraint that a value broke, with the
/// bound as bigdecimal writes it.
pub open spec fn decimal_bound_fault(code: Seq<char>, bound: Seq<char>) -> (Seq<DetailView>, bool) {
    detail_error(
        code,
        "Input violates a decimal constraint"@,
        Seq::empty(),
        seq![("bound"@, shown_decimal(bound))],
    )
}

/// The first bound that a decimal breaks, in the order greater-than,
/// greater-or-equal, less-than, less-or-equal, multiple-of.
pub open spec fn decimal_bounds_fault(value: Seq<char>, c: DecimalConstraints) -> Option<(Seq<DetailView>, bool)> {
    let v = decimal_parts(value);
    if c.greater_than matches Some(b) && compare_decimal_parts(v, decimal_parts(b.spec_text())) != Order::Greater {
        Some(decimal_bound_fault("greater_than"@, c.greater_than->0.spec_text()))
    } else if c.greater_or_equal matches Some(b) && compare_decimal_parts(v, decimal_parts(b.spec_text()))
        == Order::Less {
        Some(decimal_bound_fault("greater_than_equal"@, c.greater_or_equal->0.spec_text()))
    } else if c.less_than matches Some(b) && compare_decimal_parts(v, decimal_parts(b.spec_text())) != Order::Less {
        Some(decimal_bound_fault("less_than"@, c.less_than->0.spec_text()))
    } else if c.less_or_equal matches Some(b) && compare_decimal_parts(v, decimal_parts(b.spec_text()))
        == Order::Greater {
        Some(decimal_bound_fault("less_than_equal"@, c.less_or_equal->0.spec_text()))
    } else {
        match c.multiple_of {
            Some(step) => if decimal_parts(step.spec_text()).0 == 0 {
                Some(plain_error("schema_invalid"@, "multiple_of cannot be zero"@, "nonzero decimal"@))
            } else if !decimal_multiple(v, decimal_parts(step.spec_text())) {
                Some(decimal_bound_fault("multiple_of"@, step.spec_text()))
            } else {
                None
            },
            None => None,
        }
    }
}

fn decimal_bound_error(code: &'static str, bound: &DecimalNumber) -> (r: ValidationError)
    ensures
        r@ == decimal_bound_fault(code@, bound.spec_text()),
{
    let shown = match parse_decimal(bound.text()) {
        Some((_, _, shown)) => shown,
        None => owned(bound.text()),
    };
    let detail = ErrorDetail::new(code, owned("Input violates a decimal constraint")).context("bound", shown);
    let e = ValidationError::one(detail);
    proof {
        assert(detail@.context =~= seq![("bound"@, shown_decimal(bound.spec_text()))]);
        assert(detail@.location =~= Seq::<crate::error::LocationStep>::empty());
        assert(detail@.expected =~= Seq::<char>::empty());
        assert(e@.0 =~= decimal_bound_fault(code@, bound.spec_text()).0);
    }
    e
}

/// Checks a decimal against the bounds and the step of its constraints.
pub fn validate_decimal_bounds(value: &DecimalNumber, constraints: &DecimalConstraints) -> (r: Result<
    (),
    ValidationError,
>)
    ensures
        match decimal_bounds_fault(value.spec_text(), *constraints) {
            None => r is Ok,
            Some(view) => r matches Err(e) && e@ == view,
        },
{
    let text = value.text();
    if let Some(bound) = &constraints.greater_than {
        if compare_decimals(text, bound.text()) != Order::Greater {
            return Err(decimal_bound_error("greater_than", bound));
        }
    }
    if let Some(bound) = &constraints.greater_or_equal {
        if compare_decimals(text, bound.text()) == Order::Less {
            return Err(decimal_bound_error("greater_than_equal", bound));
        }
    }
    if let Some(bound) = &constraints.less_than {
        if compare_decimals(text, bound.text()) != Order::Less {
            return Err(decimal_bound_error("less_than", bound));
        }
    }
    if let Some(bound) = &constraints.less_or_equal {
        if compare_decimals(text, bound.text()) == Order::Greater {
            return Err(decimal_bound_error("less_than_equal", bound));
        }
    }
    if let Some(step) = &constraints.multiple_of {
        let step_text = step.text();
        let zero = match parse_decimal(step_text) {
            Some((coefficient, _, _)) => crate::text::str_equal(coefficient.as_str(), "0"),
            None => false,
        };
        proof {
            reveal_strlit("0");
            assert(integer_value("0"@) == 0) by {
                assert("0"@ =~= seq!['0']);
                reveal_with_fuel(crate::integers::digits_value, 2);
            }
        }
        if zero {
            return Err(type_error("schema_invalid", "multiple_of cannot be zero", "nonzero decimal"));
        }
        proof {
            let c = decimal_coefficient(step_text@);
            if integer_value(c) == 0 {
                lemma_zero_text(c);
            }
        }
        if !is_decimal_multiple(text, step_text) {
            return Err(decimal_bound_error("multiple_of", step));
        }
    }
    Ok(())
}

/// The only canonical integer text that writes zero is `0`.
pub(crate) proof fn lemma_zero_text(c: Seq<char>)
    requires
        canonical_integer(c),
        integer_value(c) == 0,
    ensures
        c == "0"@,
{
    reveal_strlit("0");
    let d = integer_digits(c);
    lemma_digits_positive(d);
    if c.len() > 0 && c[0] == '-' {
        assert(d == c.drop_first());
    } else {
        assert(d == c);
    }
    assert(d.len() == 1);
    assert(d[0] == '0') by {
        assert(d.drop_last() =~= Seq::<char>::empty());
        assert(crate::integers::digits_value(Seq::<char>::empty()) == 0);
    }
    if c.len() > 0 && c[0] == '-' {
        assert(c =~= seq!['-', '0']);
    } else {
        assert(c =~= seq!['0']);
    }
}

/// Digits without a leading zero, other than `0` itself, write a positive
/// number.
proof fn lemma_digits_positive(d: Seq<char>)
    requires
        d.len() > 0,
        forall|i: int| 0 <= i < d.len() ==> '0' <= #[trigger] d[i] <= '9',
        d.len() == 1 || d[0] != '0',
    ensures
        crate::integers::digits_value(d) == 0 ==> d.len() == 1 && d[0] == '0',
    decreases d.len(),
{
    if d.len() > 1 {
        let prefix = d.drop_last();
        assert forall|i: int| 0 <= i < prefix.len() implies '0' <= #[trigger] prefix[i] <= '9' by {
            assert(prefix[i] == d[i]);
        }
        assert(prefix[0] == d[0]);
        lemma_digits_positive(prefix);
        if crate::integers::digits_value(d) == 0 {
            assert(crate::integers::digits_value(prefix) == 0);
            assert(prefix.len() == 1 && prefix[0] == '0');
        }
    } else {
        assert(d.drop_last() =~= Seq::<char>::empty());
        assert(crate::integers::digits_value(Seq::<char>::empty()) == 0);
    }
}

// ---------------------------------------------------------------------------
// Digit counts
// ---------------------------------------------------------------------------

/// How many zeros end a string of digits.
pub open spec fn trailing_zeros(d: Seq<char>) -> nat
    decreases d.len(),
{
    if d.len() > 0 && d.last() == '0' {
        1 + trailing_zeros(d.drop_last())
    } else {
        0
    }
}

/// A scale as a count of decimal places: none for a scale below one, and
/// at most the largest `usize`.
pub open spec fn places(scale: int) -> nat {
    if scale <= 0 {
        0
    } else if scale > usize::MAX {
        usize::MAX as nat
    } else {
        scale as nat
    }
}

/// The digits of a decimal's coefficient and its decimal places.
pub open spec fn raw_counts(text: Seq<char>) -> (nat, nat) {
    let p = parsed_decimal(text)->0;
    (integer_digits(p.0).len(), places(p.1 as int))
}

/// The digits and decimal places of a decimal once its coefficient's
/// trailing zeros are dropped; zero has one digit and no places.
pub open spec fn normalized_counts(text: Seq<char>) -> (nat, nat) {
    let p = parsed_decimal(text)->0;
    let d = integer_digits(p.0);
    if integer_value(p.0) == 0 {
        (1, 0)
    } else {
        ((d.len() - trailing_zeros(d)) as nat, places(p.1 - trailing_zeros(d)))
    }
}

/// `a - b`, or zero when `b` is larger.
pub open spec fn saturating_minus(a: nat, b: nat) -> nat {
    if a >= b {
        (a - b) as nat
    } else {
        0
    }
}

/// The error view of a digit constraint that a decimal broke.
pub open spec fn digit_fault(code: Seq<char>, key: Seq<char>, allowance: nat) -> (Seq<DetailView>, bool) {
    detail_error(code, "Decimal digit constraint failed"@, Seq::empty(), seq![(key, decimal(allowance))])
}

/// The first digit constraint that a decimal breaks both as written and
/// normalized: the total digits, the decimal places, then the whole digits
/// that the two leave.
pub open spec fn decimal_digits_fault(text: Seq<char>, c: DecimalConstraints) -> Option<(Seq<DetailView>, bool)> {
    let raw = raw_counts(text);
    let norm = normalized_counts(text);
    if c.max_digits matches Some(m) && raw.0 > m && norm.0 > m {
        Some(digit_fault("decimal_max_digits"@, "max_digits"@, c.max_digits->0 as nat))
    } else if c.decimal_places matches Some(m) && raw.1 > m && norm.1 > m {
        Some(digit_fault("decimal_max_places"@, "decimal_places"@, c.decimal_places->0 as nat))
    } else if c.max_digits is Some && c.decimal_places is Some {
        let allowed = saturating_minus(c.max_digits->0 as nat, c.decimal_places->0 as nat);
        if saturating_minus(raw.0, raw.1) > allowed && saturating_minus(norm.0, norm.1) > allowed {
            Some(digit_fault("decimal_whole_digits"@, "whole_digits"@, allowed))
        } else {
            None
        }
    } else {
        None
    }
}

/// The digits of a canonical integer text and how many zeros end them.
fn digit_counts(c: &str) -> (r: (usize, usize))
    requires
        canonical_integer(c@),
    ensures
        r.0 == integer_digits(c@).len(),
        r.1 == trailing_zeros(integer_digits(c@)),
{
    let ghost s = c@;
    let ghost d = integer_digits(s);
    proof {
        assert(vstd::utf8::is_ascii_chars(s)) by {
            assert forall|i: int| 0 <= i < s.len() implies '\0' <= #[trigger] s[i] <= '\u{7f}' by {
                if s.len() > 0 && s[0] == '-' {
                    if i > 0 {
                        assert(d[i - 1] == s[i]);
                    }
                } else {
                    assert(d[i] == s[i]);
                }
            }
        }
        vstd::utf8::is_ascii_chars_encode_utf8(s);
    }
    let bytes = c.as_bytes();
    proof {
        assert forall|i: int| 0 <= i < s.len() implies (#[trigger] s[i]) as int == bytes@[i] as int by {
            assert(s[i] as u8 == bytes@[i]);
        }
    }
    let n = bytes.len();
    let start: usize = if n > 0 && bytes[0] == 45 { 1 } else { 0 };
    proof {
        if n > 0 {
            assert(s[0] as int == bytes@[0] as int);
        }
        assert(d.len() == n - start);
        assert forall|i: int| 0 <= i < d.len() implies #[trigger] d[i] == s[i + start] by {}
    }
    let mut k: usize = n;
    let mut zeros: usize = 0;
    proof {
        assert(d.subrange(0, (n - start) as int) =~= d);
    }
    while k > start && bytes[k - 1] == 48
        invariant
            start <= k <= n,
            n == s.len(),
            n == bytes@.len(),
            d.len() == n - start,
            forall|i: int| 0 <= i < d.len() ==> #[trigger] d[i] == s[i + start],
            forall|i: int| 0 <= i < s.len() ==> (#[trigger] s[i]) as int == bytes@[i] as int,
            zeros == n - k,
            trailing_zeros(d) == zeros + trailing_zeros(d.subrange(0, k - start)),
        decreases k,
    {
        let ghost prefix = d.subrange(0, k - start);
        proof {
            assert(s[k - 1] as int == bytes@[k - 1] as int);
            assert(prefix.last() == d[k - start - 1]);
            assert(prefix.drop_last() =~= d.subrange(0, k - start - 1));
        }
        k = k - 1;
        zeros = zeros + 1;
    }
    proof {
        let prefix = d.subrange(0, k - start);
        if k > start {
            assert(s[k - 1] as int == bytes@[k - 1] as int);
            assert(prefix.last() == d[k - start - 1]);
        }
        assert(d.subrange(0, d.len() as int) =~= d);
    }
    (n - start, zeros)
}

/// The normalized counts when the coefficient is not zero.
proof fn lemma_nonzero_counts(text: Seq<char>)
    requires
        parsed_decimal(text) is Some,
        canonical_integer(decimal_coefficient(text)),
        decimal_coefficient(text) != "0"@,
    ensures
        integer_value(decimal_coefficient(text)) != 0,
{
    if integer_value(decimal_coefficient(text)) == 0 {
        lemma_zero_text(decimal_coefficient(text));
    }
}

fn digit_error(code: &'static str, key: &'static str, allowance: usize) -> (r: ValidationError)
    ensures
        r@ == digit_fault(code@, key@, allowance as nat),
{
    let detail = ErrorDetail::new(code, owned("Decimal digit constraint failed")).context(key, usize_text(allowance));
    let e = ValidationError::one(detail);
    proof {
        assert(detail@.context =~= seq![(key@, decimal(allowance as nat))]);
        assert(detail@.location =~= Seq::<crate::error::LocationStep>::empty());
        assert(detail@.expected =~= Seq::<char>::empty());
        assert(e@.0 =~= digit_fault(code@, key@, allowance as nat).0);
    }
    e
}

fn places_of(scale: i128) -> (r: usize)
    ensures
        r == places(scale as int),
{
    if scale <= 0 {
        0
    } else if scale > usize::MAX as i128 {
        usize::MAX
    } else {
        scale as usize
    }
}

/// Checks the digits of a decimal against the digit constraints.
pub fn validate_decimal_digits(value: &DecimalNumber, constraints: &DecimalConstraints) -> (r: Result<
    (),
    ValidationError,
>)
    ensures
        match decimal_digits_fault(value.spec_text(), *constraints) {
            None => r is Ok,
            Some(view) => r matches Err(e) && e@ == view,
        },
{
    let text = value.text();
    let (coefficient, scale) = match parse_decimal(text) {
        Some((coefficient, scale, _)) => (coefficient, scale),
        None => return Ok(()),
    };
    let (digits, zeros) = digit_counts(coefficient.as_str());
    let raw_places = places_of(scale as i128);
    let is_zero = crate::text::str_equal(coefficient.as_str(), "0");
    proof {
        reveal_strlit("0");
        if is_zero {
            assert(integer_value("0"@) == 0) by {
                assert("0"@ =~= seq!['0']);
                reveal_with_fuel(crate::integers::digits_value, 2);
            }
        } else {
            lemma_nonzero_counts(text@);
        }
    }
    proof {
        lemma_trailing_zeros_bound(integer_digits(coefficient@));
    }
    let (norm_digits, norm_places): (usize, usize) = if is_zero {
        (1, 0)
    } else {
        (digits - zeros, places_of(scale as i128 - zeros as i128))
    };
    if let Some(maximum) = constraints.max_digits {
        if digits > maximum && norm_digits > maximum {
            return Err(digit_error("decimal_max_digits", "max_digits", maximum));
        }
    }
    if let Some(maximum) = constraints.decimal_places {
        if raw_places > maximum && norm_places > maximum {
            return Err(digit_error("decimal_max_places", "decimal_places", maximum));
        }
    }
    if let (Some(max_digits), Some(decimal_places)) = (constraints.max_digits, constraints.decimal_places) {
        let allowed = max_digits.saturating_sub(decimal_places);
        if digits.saturating_sub(raw_places) > allowed && norm_digits.saturating_sub(norm_places) > allowed {
            return Err(digit_error("decimal_whole_digits", "whole_digits", allowed));
        }
    }
    Ok(())
}

proof fn lemma_trailing_zeros_bound(d: Seq<char>)
    ensures
        trailing_zeros(d) <= d.len(),
    decreases d.len(),
{
    if d.len() > 0 {
        lemma_trailing_zeros_bound(d.drop_last());
    }
}

// ---------------------------------------------------------------------------
// Decimals
// ---------------------------------------------------------------------------

/// What `validate_decimal_text` answers for a text: the decimal as
/// bigdecimal writes it, or the view of its error.
pub open spec fn decimal_text_outcome(text: Seq<char>, c: DecimalConstraints) -> Result<Seq<char>, (Seq<DetailView>, bool)> {
    if parsed_decimal(text) is None {
        Err(plain_error("decimal_parsing"@, "Input must be a valid decimal"@, "decimal"@))
    } else {
        match decimal_bounds_fault(text, c) {
            Some(view) => Err(view),
            None => match decimal_digits_fault(text, c) {
                Some(view) => Err(view),
                None => Ok(shown_decimal(text)),
            },
        }
    }
}

/// Validates the text of a decimal: bigdecimal reads it, then its bounds
/// and digits are checked; the result is the decimal as bigdecimal writes
/// it.
pub fn validate_decimal_text(source: &str, constraints: &DecimalConstraints) -> (r: Result<ValidatedValue, ValidationError>)
    ensures
        match decimal_text_outcome(source@, *constraints) {
            Ok(text) => r matches Ok(ValidatedValue::Decimal(t)) && t@ == text,
            Err(view) => r matches Err(e) && e@ == view,
        },
{
    let value = match DecimalNumber::parse(source) {
        Some(value) => value,
        None => return Err(type_error("decimal_parsing", "Input must be a valid decimal", "decimal")),
    };
    validate_decimal_bounds(&value, constraints)?;
    validate_decimal_digits(&value, constraints)?;
    match parse_decimal(value.text()) {
        Some((_, _, shown)) => Ok(ValidatedValue::Decimal(shown)),
        None => Err(type_error("decimal_parsing", "Input must be a valid decimal", "decimal")),
    }
}

/// The text that a decimal validator reads, as `out`, or the view of the
/// error it answers: a decimal; an integer or a string unless strict
/// validation of native input asks for a decimal; when not strict, a
/// finite double as the formatter writes it.
pub open spec fn decimal_source<F: Fn(u64) -> String>(
    input: InputNode,
    strict: bool,
    profile: InputProfile,
    float_text: F,
    out: Result<Seq<char>, (Seq<DetailView>, bool)>,
) -> bool {
    let refused = plain_error("decimal_type"@, "Input must be an exact decimal"@, "decimal"@);
    let lenient = !strict || profile != InputProfile::Native;
    match input {
        InputNode::Decimal(s) => out == Ok::<Seq<char>, (Seq<DetailView>, bool)>(s),
        InputNode::Integer(s) => if lenient {
            out == Ok::<Seq<char>, (Seq<DetailView>, bool)>(s)
        } else {
            out == Err::<Seq<char>, (Seq<DetailView>, bool)>(refused)
        },
        InputNode::Float(bits) => if !strict && finite_bits(bits) {
            exists|t: String| #[trigger] call_ensures(float_text, (bits,), t) && out == Ok::<
                Seq<char>,
                (Seq<DetailView>, bool),
            >(t@)
        } else {
            out == Err::<Seq<char>, (Seq<DetailView>, bool)>(refused)
        },
        InputNode::String(s) => if lenient {
            out == Ok::<Seq<char>, (Seq<DetailView>, bool)>(s)
        } else {
            out == Err::<Seq<char>, (Seq<DetailView>, bool)>(refused)
        },
        _ => out == Err::<Seq<char>, (Seq<DetailView>, bool)>(refused),
    }
}

/// Validates an exact decimal: the text of a decimal, integer, string or
/// double input, validated as `validate_decimal_text` says. Doubles are
/// written by the given formatter.
pub fn validate_decimal<F: Fn(u64) -> String>(
    input: &InputValue,
    strict: bool,
    profile: InputProfile,
    constraints: &DecimalConstraints,
    float_text: &F,
) -> (r: Result<ValidatedValue, ValidationError>)
    requires
        forall|x: u64| float_text.requires((x,)),
    ensures
        exists|source: Result<Seq<char>, (Seq<DetailView>, bool)>|
            #[trigger] decimal_source(input@, strict, profile, *float_text, source) && match source {
                Err(view) => r matches Err(e) && e@ == view,
                Ok(text) => match decimal_text_outcome(text, *constraints) {
                    Ok(shown) => r matches Ok(ValidatedValue::Decimal(t)) && t@ == shown,
                    Err(view) => r matches Err(e) && e@ == view,
                },
            },
{
    let lenient = !strict || profile != InputProfile::Native;
    match input {
        InputValue::Decimal(value) => {
            let ghost source = Ok::<Seq<char>, (Seq<DetailView>, bool)>(value@);
            assert(decimal_source(input@, strict, profile, *float_text, source));
            validate_decimal_text(value.as_str(), constraints)
        },
        InputValue::Integer(value) if lenient => {
            let ghost source = Ok::<Seq<char>, (Seq<DetailView>, bool)>(value@);
            assert(decimal_source(input@, strict, profile, *float_text, source));
            validate_decimal_text(value.as_str(), constraints)
        },
        InputValue::Float(bits) if !strict && crate::strings::is_finite_bits(*bits) => {
            let text = float_text(*bits);
            let ghost source = Ok::<Seq<char>, (Seq<DetailView>, bool)>(text@);
            assert(decimal_source(input@, strict, profile, *float_text, source));
            validate_decimal_text(text.as_str(), constraints)
        },
        InputValue::String(value) if lenient => {
            let ghost source = Ok::<Seq<char>, (Seq<DetailView>, bool)>(value@);
            assert(decimal_source(input@, strict, profile, *float_text, source));
            validate_decimal_text(value.as_str(), constraints)
        },
        _ => {
            let e = type_error("decimal_type", "Input must be an exact decimal", "decimal");
            let ghost source = Err::<Seq<char>, (Seq<DetailView>, bool)>(e@);
            assert(decimal_source(input@, strict, profile, *float_text, source));
            Err(e)
        },
    }
}

} // verus!
