use core::str::FromStr;

use vstd::arithmetic::power::pow;
use vstd::prelude::*;
use vstd::utf8::encode_utf8;

use crate::error::{
    appended, plain_error, type_error, DetailView, ErrorDetail, LocationItem, LocationStep, ValidationError,
};
use crate::text::owned;
use crate::integers::integer_value;
use crate::scalars::canonical_integer;
use crate::values::{TimeValue, ValidatedArena, ValidatedValue, ValueId};

verus! {

/// What a canonical key is made for: deduplicating set items or mapping
/// keys. It decides the error code for a value that cannot be a key.
#[derive(Clone, Copy, Debug, PartialEq, Eq, Structural)]
pub enum KeyUse {
    SetItem,
    MappingKey,
}

// ---------------------------------------------------------------------------
// Byte layouts
// ---------------------------------------------------------------------------

/// The eight big-endian bytes of a `u64`.
pub open spec fn be_u64(x: u64) -> Seq<u8> {
    seq![
        (x >> 56u64) as u8,
        (x >> 48u64) as u8,
        (x >> 40u64) as u8,
        (x >> 32u64) as u8,
        (x >> 24u64) as u8,
        (x >> 16u64) as u8,
        (x >> 8u64) as u8,
        x as u8,
    ]
}

/// The four big-endian bytes of a `u32`.
pub open spec fn be_u32(x: u32) -> Seq<u8> {
    seq![(x >> 24u32) as u8, (x >> 16u32) as u8, (x >> 8u32) as u8, x as u8]
}

/// The two big-endian bytes of a `u16`.
pub open spec fn be_u16(x: u16) -> Seq<u8> {
    seq![(x >> 8u16) as u8, x as u8]
}

/// The four big-endian two's-complement bytes of an `i32`.
pub open spec fn be_i32(x: i32) -> Seq<u8> {
    be_u32(x as u32)
}

/// Bytes preceded by their count as eight big-endian bytes, so that
/// consecutive fields cannot run into each other.
pub open spec fn framed(bytes: Seq<u8>) -> Seq<u8> {
    be_u64(bytes.len() as u64) + bytes
}

/// The bit pattern under which a double enters a key: both zeros share
/// the pattern of positive zero; every other double keeps its own.
pub open spec fn float_key_bits(bits: u64) -> u64 {
    if bits & 0x7fff_ffff_ffff_ffffu64 == 0 {
        0
    } else {
        bits
    }
}

/// The natural number that big-endian bytes spell.
pub open spec fn unsigned_be(bytes: Seq<u8>) -> nat
    decreases bytes.len(),
{
    if bytes.len() == 0 {
        0
    } else {
        unsigned_be(bytes.drop_last()) * 256 + bytes.last() as nat
    }
}

/// The integer that big-endian two's-complement bytes spell.
pub open spec fn signed_be(bytes: Seq<u8>) -> int {
    if bytes.len() > 0 && bytes[0] >= 128 {
        unsigned_be(bytes) - pow(256, bytes.len())
    } else {
        unsigned_be(bytes) as int
    }
}

/// Two's-complement bytes with no redundant leading byte, and at least one.
pub open spec fn minimal_signed(bytes: Seq<u8>) -> bool {
    &&& bytes.len() >= 1
    &&& bytes.len() >= 2 ==> !((bytes[0] == 0 && bytes[1] < 128) || (bytes[0] == 255 && bytes[1] >= 128))
}

// ---------------------------------------------------------------------------
// Outside computations
// ---------------------------------------------------------------------------

/// num-bigint's `to_signed_bytes_be` of the `BigInt` read from a text.
pub uninterp spec fn signed_be_bytes(text: Seq<char>) -> Seq<u8>;

/// num-bigint's `normalized` and then `to_string` of the `BigDecimal` read
/// from a text.
pub uninterp spec fn normalized_decimal(text: Seq<char>) -> Seq<char>;

/// Reads a decimal integer text as a num-bigint `BigInt` and returns its
/// `to_signed_bytes_be`. Trusted: the bytes depend on the text alone; for
/// a canonical integer text they are the shortest big-endian two's
/// complement of its value, as num-bigint builds them. A text that does not
/// parse gives no bytes.
#[verifier::external_body]
fn integer_bytes(text: &str) -> (r: Vec<u8>)
    ensures
        r@ == signed_be_bytes(text@),
        canonical_integer(text@) ==> signed_be(r@) == integer_value(text@) && minimal_signed(r@),
{
    match num_bigint::BigInt::from_str(text) {
        Ok(value) => value.to_signed_bytes_be(),
        Err(_) => Vec::new(),
    }
}

/// Whether byte `i` of a text is its first exponent mark, `e` or `E`.
pub open spec fn first_exponent_mark(bytes: Seq<u8>, i: int) -> bool {
    &&& 0 <= i < bytes.len()
    &&& (bytes[i] == 101u8 || bytes[i] == 69u8)
    &&& forall|j: int| 0 <= j < i ==> bytes[j] != 101u8 && bytes[j] != 69u8
}

/// A decimal text whose normal form bigdecimal computes within its range:
/// at most 10^15 bytes, and at most 18 bytes after the first exponent mark.
/// The scale of such a text then stays within 2 * 10^18 of zero, however
/// many trailing zeros normalizing removes.
pub open spec fn decimal_key_safe(bytes: Seq<u8>) -> bool {
    &&& bytes.len() <= 1_000_000_000_000_000
    &&& forall|i: int| #[trigger] first_exponent_mark(bytes, i) ==> bytes.len() - i - 1 <= 18
}

/// Reads a decimal text as a bigdecimal `BigDecimal` and returns the text of
/// its `normalized` form. Trusted: the text depends on the input text
/// alone; what bigdecimal writes is not restated here. A text that does
/// not parse gives the empty text. bigdecimal reads the exponent after the
/// first `e` or `E` as an `i128` and the scale as the number of fraction
/// digits minus the exponent, refusing scales outside `i64`; `normalized`
/// then lowers the scale by the count of trailing zero digits without a
/// check, which the `requires` keeps in range.
#[verifier::external_body]
fn decimal_key_text(text: &str) -> (r: String)
    requires
        decimal_key_safe(encode_utf8(text@)),
    ensures
        r@ == normalized_decimal(text@),
{
    match bigdecimal::BigDecimal::from_str(text) {
        Ok(value) => value.normalized().to_string(),
        Err(_) => String::new(),
    }
}

/// Whether a decimal text is safe to normalize, as `decimal_key_safe` says.
fn decimal_text_is_safe(text: &String) -> (r: bool)
    ensures
        r == decimal_key_safe(encode_utf8(text@)),
{
    let bytes = text.as_str().as_bytes();
    if bytes.len() as u64 > 1_000_000_000_000_000u64 {
        return false;
    }
    let mut i: usize = 0;
    while i < bytes.len()
        invariant
            i <= bytes@.len(),
            bytes@ == encode_utf8(text@),
            bytes@.len() <= 1_000_000_000_000_000,
            forall|j: int| 0 <= j < i ==> bytes@[j] != 101u8 && bytes@[j] != 69u8,
        decreases bytes@.len() - i,
    {
        if bytes[i] == 101u8 || bytes[i] == 69u8 {
            proof {
                assert(first_exponent_mark(bytes@, i as int));
                assert forall|k: int| #[trigger] first_exponent_mark(bytes@, k) implies k == i by {
                    if k < i {
                    } else if k > i {
                        assert(bytes@[i as int] != 101u8 && bytes@[i as int] != 69u8);
                    }
                }
            }
            return bytes.len() - i - 1 <= 18;
        }
        i = i + 1;
    }
    proof {
        assert forall|k: int| #[trigger] first_exponent_mark(bytes@, k) implies bytes@.len() - k - 1 <= 18 by {
            assert(bytes@[k] != 101u8 && bytes@[k] != 69u8);
        }
    }
    true
}

/// The error for a decimal whose exponent lies outside the range that keys
/// are computed for.
pub open spec fn decimal_out_of_range() -> (Seq<DetailView>, bool) {
    plain_error(
        "internal_output"@,
        "Validated decimal exponent is outside the key range"@,
        "bounded decimal"@,
    )
}

// ---------------------------------------------------------------------------
// The key of a value
// ---------------------------------------------------------------------------

/// The bytes of a time of day: hour, minute, second, microseconds, whether
/// an offset is present and the offset (zero when absent).
pub open spec fn time_bytes(t: TimeValue) -> Seq<u8> {
    seq![t.hour, t.minute, t.second] + be_u32(t.microsecond) + seq![
        if t.offset_seconds is Some {
            1u8
        } else {
            0u8
        },
    ] + be_i32(
        match t.offset_seconds {
            Some(o) => o,
            None => 0i32,
        },
    )
}

/// The key of a value that needs no other value of the arena: a tag byte
/// for its kind and then its contents. `None` for the values that refer
/// to others and for containers.
pub open spec fn scalar_key(value: ValidatedValue) -> Option<Seq<u8>> {
    match value {
        ValidatedValue::Null => Some(seq![0u8]),
        ValidatedValue::Bool(b) => Some(
            seq![
                1u8,
                if b {
                    1u8
                } else {
                    0u8
                },
            ],
        ),
        ValidatedValue::ExactInt(t) => Some(seq![2u8] + framed(signed_be_bytes(t@))),
        ValidatedValue::FixedInt { kind: _, value: t } => Some(seq![2u8] + framed(signed_be_bytes(t@))),
        ValidatedValue::Float(bits) => Some(seq![3u8] + be_u64(float_key_bits(bits))),
        ValidatedValue::Decimal(t) => Some(seq![4u8] + framed(encode_utf8(normalized_decimal(t@)))),
        ValidatedValue::Fraction { numerator, denominator } => Some(
            seq![5u8] + framed(signed_be_bytes(numerator@)) + framed(signed_be_bytes(denominator@)),
        ),
        ValidatedValue::Complex { real: re, imaginary } => Some(
            seq![6u8] + be_u64(float_key_bits(re)) + be_u64(float_key_bits(imaginary)),
        ),
        ValidatedValue::String(s) => Some(seq![7u8] + framed(encode_utf8(s@))),
        ValidatedValue::Bytes(b) => Some(seq![8u8] + framed(b@)),
        ValidatedValue::Date(d) => Some(seq![9u8] + be_u16(d.year) + seq![d.month, d.day]),
        ValidatedValue::Time(t) => Some(seq![10u8] + time_bytes(t)),
        ValidatedValue::DateTime(dt) => Some(
            seq![11u8] + be_u16(dt.date.year) + seq![dt.date.month, dt.date.day] + time_bytes(dt.time),
        ),
        ValidatedValue::Duration(d) => Some(
            seq![
                12u8,
                if d.positive {
                    1u8
                } else {
                    0u8
                },
            ] + be_u32(d.days) + be_u32(d.seconds) + be_u32(d.microseconds),
        ),
        ValidatedValue::Uuid(u) => Some(seq![13u8] + u@),
        ValidatedValue::Url(s) => Some(seq![14u8] + framed(encode_utf8(s@))),
        ValidatedValue::Pattern { source, flags } => Some(seq![15u8, flags] + framed(encode_utf8(source@))),
        ValidatedValue::MultiHostUrl(s) => Some(seq![18u8] + framed(encode_utf8(s@))),
        _ => None,
    }
}

/// The tag and the referred value of a value that stands for another:
/// a present nullable, an enum member (by its discriminant value) or a
/// union member.
pub open spec fn wrapper_key(value: ValidatedValue) -> Option<(u8, ValueId)> {
    match value {
        ValidatedValue::Nullable(Some(c)) => Some((17u8, c)),
        ValidatedValue::Enum(e) => Some((19u8, e.spec_discriminant())),
        ValidatedValue::Union(u) => Some((20u8, u.spec_value())),
        _ => None,
    }
}

/// The error for a value that is no key.
pub open spec fn unhashable(usage: KeyUse) -> (Seq<DetailView>, bool) {
    match usage {
        KeyUse::SetItem => plain_error("set_item_unhashable"@, "Set items must be scalar values"@, "hashable scalar"@),
        KeyUse::MappingKey => plain_error(
            "mapping_key_unhashable"@,
            "Mapping keys must be scalar values"@,
            "hashable scalar"@,
        ),
    }
}

/// The error for an id past the end of the arena.
pub open spec fn missing_value() -> (Seq<DetailView>, bool) {
    plain_error("internal_output"@, "Validated arena index is invalid"@, "valid output arena"@)
}

/// The canonical key of the value at `id`: equal values give equal keys,
/// whatever their representation (both zeros of a double, an exact and a
/// fixed-width integer of one value). A value standing for another adds its
/// tag before that value's key. Containers and models are no keys. A value
/// that refers to its own or a later position, which validation never
/// stores, is an internal error, and so is a decimal whose exponent lies
/// outside the range that keys are computed for.
pub open spec fn spec_key(values: Seq<ValidatedValue>, id: nat, usage: KeyUse) -> Result<Seq<u8>, (Seq<DetailView>, bool)>
    decreases id,
{
    if id >= values.len() {
        Err(missing_value())
    } else if values[id as int] matches ValidatedValue::Decimal(t) && !decimal_key_safe(encode_utf8(t@)) {
        Err(decimal_out_of_range())
    } else {
        let value = values[id as int];
        match scalar_key(value) {
            Some(k) => Ok(k),
            None => match value {
                ValidatedValue::Nullable(None) => Ok(seq![16u8]),
                _ => match wrapper_key(value) {
                    Some((tag, c)) => if c@ < id {
                        match spec_key(values, c@, usage) {
                            Ok(k) => Ok(seq![tag] + k),
                            Err(e) => Err(e),
                        }
                    } else {
                        Err(missing_value())
                    },
                    None => Err(unhashable(usage)),
                },
            },
        }
    }
}

// ---------------------------------------------------------------------------
// Writing keys
// ---------------------------------------------------------------------------

fn push_u64(key: &mut Vec<u8>, x: u64)
    ensures
        final(key)@ == old(key)@ + be_u64(x),
{
    key.push((x >> 56u64) as u8);
    key.push((x >> 48u64) as u8);
    key.push((x >> 40u64) as u8);
    key.push((x >> 32u64) as u8);
    key.push((x >> 24u64) as u8);
    key.push((x >> 16u64) as u8);
    key.push((x >> 8u64) as u8);
    key.push(x as u8);
    assert(key@ =~= old(key)@ + be_u64(x));
}

fn push_u32(key: &mut Vec<u8>, x: u32)
    ensures
        final(key)@ == old(key)@ + be_u32(x),
{
    key.push((x >> 24u32) as u8);
    key.push((x >> 16u32) as u8);
    key.push((x >> 8u32) as u8);
    key.push(x as u8);
    assert(key@ =~= old(key)@ + be_u32(x));
}

fn push_u16(key: &mut Vec<u8>, x: u16)
    ensures
        final(key)@ == old(key)@ + be_u16(x),
{
    key.push((x >> 8u16) as u8);
    key.push(x as u8);
    assert(key@ =~= old(key)@ + be_u16(x));
}

fn push_all(key: &mut Vec<u8>, bytes: &[u8])
    ensures
        final(key)@ == old(key)@ + bytes@,
{
    let mut i: usize = 0;
    while i < bytes.len()
        invariant
            i <= bytes@.len(),
            key@ == old(key)@ + bytes@.subrange(0, i as int),
        decreases bytes@.len() - i,
    {
        key.push(bytes[i]);
        i = i + 1;
        assert(key@ =~= old(key)@ + bytes@.subrange(0, i as int));
    }
    assert(bytes@.subrange(0, bytes@.len() as int) =~= bytes@);
}

fn push_framed(key: &mut Vec<u8>, bytes: &[u8])
    ensures
        final(key)@ == old(key)@ + framed(bytes@),
{
    push_u64(key, bytes.len() as u64);
    push_all(key, bytes);
    assert(key@ =~= old(key)@ + framed(bytes@));
}

fn push_time(key: &mut Vec<u8>, t: &TimeValue)
    ensures
        final(key)@ == old(key)@ + time_bytes(*t),
{
    key.push(t.hour);
    key.push(t.minute);
    key.push(t.second);
    push_u32(key, t.microsecond);
    let offset: i32 = match t.offset_seconds {
        Some(o) => {
            key.push(1u8);
            o
        },
        None => {
            key.push(0u8);
            0i32
        },
    };
    push_u32(key, offset as u32);
    assert(key@ =~= old(key)@ + time_bytes(*t));
}

fn float_bits_for_key(bits: u64) -> (r: u64)
    ensures
        r == float_key_bits(bits),
{
    if bits & 0x7fff_ffff_ffff_ffffu64 == 0 {
        0
    } else {
        bits
    }
}

fn push_text(key: &mut Vec<u8>, text: &String)
    ensures
        final(key)@ == old(key)@ + framed(encode_utf8(text@)),
{
    let bytes = text.as_str().as_bytes();
    push_framed(key, bytes);
}

/// The key of a value that needs no other value, or `None` for the others.
fn scalar_key_bytes(value: &ValidatedValue) -> (r: Option<Vec<u8>>)
    requires
        value matches ValidatedValue::Decimal(t) ==> decimal_key_safe(encode_utf8(t@)),
    ensures
        match r {
            Some(k) => scalar_key(*value) == Some(k@),
            None => scalar_key(*value) is None,
        },
{
    let mut key: Vec<u8> = Vec::new();
    match value {
        ValidatedValue::Null => key.push(0u8),
        ValidatedValue::Bool(b) => {
            key.push(1u8);
            key.push(if *b { 1u8 } else { 0u8 });
        },
        ValidatedValue::ExactInt(t) => {
            key.push(2u8);
            let bytes = integer_bytes(t.as_str());
            push_framed(&mut key, bytes.as_slice());
        },
        ValidatedValue::FixedInt { kind: _, value: t } => {
            key.push(2u8);
            let bytes = integer_bytes(t.as_str());
            push_framed(&mut key, bytes.as_slice());
        },
        ValidatedValue::Float(bits) => {
            key.push(3u8);
            push_u64(&mut key, float_bits_for_key(*bits));
        },
        ValidatedValue::Decimal(t) => {
            key.push(4u8);
            let shown = decimal_key_text(t.as_str());
            push_text(&mut key, &shown);
        },
        ValidatedValue::Fraction { numerator, denominator } => {
            key.push(5u8);
            let n = integer_bytes(numerator.as_str());
            push_framed(&mut key, n.as_slice());
            let d = integer_bytes(denominator.as_str());
            push_framed(&mut key, d.as_slice());
        },
        ValidatedValue::Complex { real: re, imaginary } => {
            key.push(6u8);
            push_u64(&mut key, float_bits_for_key(*re));
            push_u64(&mut key, float_bits_for_key(*imaginary));
        },
        ValidatedValue::String(s) => {
            key.push(7u8);
            push_text(&mut key, s);
        },
        ValidatedValue::Bytes(b) => {
            key.push(8u8);
            push_framed(&mut key, b.as_slice());
        },
        ValidatedValue::Date(d) => {
            key.push(9u8);
            push_u16(&mut key, d.year);
            key.push(d.month);
            key.push(d.day);
        },
        ValidatedValue::Time(t) => {
            key.push(10u8);
            push_time(&mut key, t);
        },
        ValidatedValue::DateTime(dt) => {
            key.push(11u8);
            push_u16(&mut key, dt.date.year);
            key.push(dt.date.month);
            key.push(dt.date.day);
            push_time(&mut key, &dt.time);
        },
        ValidatedValue::Duration(d) => {
            key.push(12u8);
            key.push(if d.positive { 1u8 } else { 0u8 });
            push_u32(&mut key, d.days);
            push_u32(&mut key, d.seconds);
            push_u32(&mut key, d.microseconds);
        },
        ValidatedValue::Uuid(u) => {
            key.push(13u8);
            let bytes = u.as_slice();
            proof {
                vstd::array::axiom_spec_array_as_slice(u);
            }
            push_all(&mut key, bytes);
        },
        ValidatedValue::Url(s) => {
            key.push(14u8);
            push_text(&mut key, s);
        },
        ValidatedValue::Pattern { source, flags } => {
            key.push(15u8);
            key.push(*flags);
            push_text(&mut key, source);
        },
        ValidatedValue::MultiHostUrl(s) => {
            key.push(18u8);
            push_text(&mut key, s);
        },
        _ => {
            return None;
        },
    }
    proof {
        assert(key@ =~= scalar_key(*value).unwrap());
    }
    Some(key)
}

/// The canonical key of the value at `id`, for deduplicating set items and
/// mapping keys: equal values give equal keys whatever their
/// representation. Containers and models are refused with the error of the
/// given use; an id past the end of the arena is an internal error.
pub fn canonical_key(values: &ValidatedArena, id: ValueId, usage: KeyUse) -> (r: Result<Vec<u8>, ValidationError>)
    ensures
        match spec_key(values.spec_values(), id@, usage) {
            Ok(k) => r matches Ok(b) && b@ == k,
            Err(e) => r matches Err(x) && x@ == e,
        },
    decreases id@,
{
    let value = match values.get(id) {
        Some(v) => v,
        None => {
            return Err(type_error("internal_output", "Validated arena index is invalid", "valid output arena"));
        },
    };
    if let ValidatedValue::Decimal(t) = value {
        if !decimal_text_is_safe(t) {
            return Err(
                type_error(
                    "internal_output",
                    "Validated decimal exponent is outside the key range",
                    "bounded decimal",
                ),
            );
        }
    }
    if let Some(k) = scalar_key_bytes(value) {
        return Ok(k);
    }
    let (tag, child): (u8, ValueId) = match value {
        ValidatedValue::Nullable(None) => {
            return Ok(vec![16u8]);
        },
        ValidatedValue::Nullable(Some(c)) => (17u8, *c),
        ValidatedValue::Enum(e) => (19u8, e.discriminant()),
        ValidatedValue::Union(u) => (20u8, u.value()),
        _ => {
            return Err(
                match usage {
                    KeyUse::SetItem => type_error(
                        "set_item_unhashable",
                        "Set items must be scalar values",
                        "hashable scalar",
                    ),
                    KeyUse::MappingKey => type_error(
                        "mapping_key_unhashable",
                        "Mapping keys must be scalar values",
                        "hashable scalar",
                    ),
                },
            );
        },
    };
    proof {
        assert(wrapper_key(*value) == Some((tag, child)));
    }
    if child.raw() >= id.raw() {
        return Err(type_error("internal_output", "Validated arena index is invalid", "valid output arena"));
    }
    let inner = canonical_key(values, child, usage)?;
    let mut key: Vec<u8> = vec![tag];
    push_all(&mut key, inner.as_slice());
    proof {
        assert(key@ =~= seq![tag] + inner@);
    }
    Ok(key)
}

// ---------------------------------------------------------------------------
// Deduplicating set items
// ---------------------------------------------------------------------------

/// An error view with one more location step in front of each detail.
pub open spec fn at_step(e: (Seq<DetailView>, bool), step: LocationStep) -> (Seq<DetailView>, bool) {
    (
        Seq::new(
            e.0.len(),
            |i: int|
                DetailView {
                    code: e.0[i].code,
                    location: seq![step] + e.0[i].location,
                    message: e.0[i].message,
                    expected: e.0[i].expected,
                    context: e.0[i].context,
                },
        ),
        e.1,
    )
}

/// The state of a run over set items: the keys seen, the items kept, the
/// errors collected and whether the error limit stopped the run.
pub struct SetRun {
    pub seen: Seq<Seq<u8>>,
    pub kept: Seq<ValueId>,
    pub errors: Option<(Seq<DetailView>, bool)>,
    pub stopped: bool,
}

/// One item of the run: a new key keeps the item, a known key drops it, a
/// value that is no key adds its error at the item's index. Once the
/// errors reach the limit the run stops, and marks them truncated when
/// items remain.
pub open spec fn set_step(values: Seq<ValidatedValue>, items: Seq<ValueId>, usage: KeyUse, limit: usize, run: SetRun, i: int) -> SetRun {
    if run.stopped {
        run
    } else {
        let after = match spec_key(values, items[i]@, usage) {
            Ok(k) => if run.seen.contains(k) {
                run
            } else {
                SetRun { seen: run.seen.push(k), kept: run.kept.push(items[i]), errors: run.errors, stopped: false }
            },
            Err(e) => {
                let located = at_step(e, LocationStep::Index(i as usize));
                SetRun {
                    seen: run.seen,
                    kept: run.kept,
                    errors: Some(
                        match run.errors {
                            None => located,
                            Some(held) => appended(held, located, limit as nat),
                        },
                    ),
                    stopped: false,
                }
            },
        };
        let full = after.errors matches Some(x) && x.0.len() >= limit;
        let errors = match after.errors {
            Some(x) => Some((x.0, x.1 || (full && i + 1 < items.len()))),
            None => None,
        };
        SetRun { seen: after.seen, kept: after.kept, errors, stopped: full }
    }
}

/// The run over the first `n` items.
pub open spec fn set_run(values: Seq<ValidatedValue>, items: Seq<ValueId>, usage: KeyUse, limit: usize, n: nat) -> SetRun
    decreases n,
{
    if n == 0 {
        SetRun { seen: Seq::empty(), kept: Seq::empty(), errors: None, stopped: false }
    } else {
        set_step(values, items, usage, limit, set_run(values, items, usage, limit, (n - 1) as nat), n - 1)
    }
}

/// What deduplicating set items answers: the collected errors, if any, and
/// otherwise the first item of each key, in input order.
pub open spec fn unique_outcome(values: Seq<ValidatedValue>, items: Seq<ValueId>, usage: KeyUse, limit: usize) -> Result<
    Seq<ValueId>,
    (Seq<DetailView>, bool),
> {
    let fin = set_run(values, items, usage, limit, items.len());
    match fin.errors {
        Some(e) => Err(e),
        None => Ok(fin.kept),
    }
}

proof fn lemma_stopped_run_stays(values: Seq<ValidatedValue>, items: Seq<ValueId>, usage: KeyUse, limit: usize, m: nat, n: nat)
    requires
        m <= n,
        set_run(values, items, usage, limit, m).stopped,
    ensures
        set_run(values, items, usage, limit, n) == set_run(values, items, usage, limit, m),
    decreases n - m,
{
    if m < n {
        lemma_stopped_run_stays(values, items, usage, limit, m, (n - 1) as nat);
    }
}

fn bytes_equal(a: &Vec<u8>, b: &Vec<u8>) -> (r: bool)
    ensures
        r == (a@ == b@),
{
    if a.len() != b.len() {
        return false;
    }
    let mut i: usize = 0;
    while i < a.len()
        invariant
            i <= a@.len(),
            a@.len() == b@.len(),
            a@.subrange(0, i as int) == b@.subrange(0, i as int),
        decreases a@.len() - i,
    {
        if a[i] != b[i] {
            assert(a@[i as int] != b@[i as int]);
            return false;
        }
        assert(a@.subrange(0, i + 1) =~= a@.subrange(0, i as int).push(a@[i as int]));
        assert(b@.subrange(0, i + 1) =~= b@.subrange(0, i as int).push(b@[i as int]));
        i = i + 1;
    }
    assert(a@ =~= a@.subrange(0, i as int));
    assert(b@ =~= b@.subrange(0, i as int));
    true
}

fn seen_contains(seen: &Vec<Vec<u8>>, key: &Vec<u8>) -> (r: bool)
    ensures
        r == seen@.map_values(|v: Vec<u8>| v@).contains(key@),
{
    let ghost views = seen@.map_values(|v: Vec<u8>| v@);
    let mut i: usize = 0;
    while i < seen.len()
        invariant
            i <= seen@.len(),
            views == seen@.map_values(|v: Vec<u8>| v@),
            forall|j: int| 0 <= j < i ==> views[j] != key@,
        decreases seen@.len() - i,
    {
        if bytes_equal(&seen[i], key) {
            assert(views[i as int] == key@);
            return true;
        }
        i = i + 1;
    }
    false
}

/// Deduplicates validated set items by their canonical keys: keeps the
/// first item of each key in input order; collects the error of each item
/// that is no key at its index, within the error limit, and stops once
/// the limit is reached.
pub fn unique_set_items(values: &ValidatedArena, items: &Vec<ValueId>, usage: KeyUse, limit: usize) -> (r: Result<
    Vec<ValueId>,
    ValidationError,
>)
    ensures
        match unique_outcome(values.spec_values(), items@, usage, limit) {
            Ok(kept) => r matches Ok(out) && out@ == kept,
            Err(e) => r matches Err(x) && x@ == e,
        },
{
    let ghost vals = values.spec_values();
    let mut seen: Vec<Vec<u8>> = Vec::new();
    let mut kept: Vec<ValueId> = Vec::new();
    let mut errors: Option<ValidationError> = None;
    let mut i: usize = 0;
    while i < items.len()
        invariant_except_break
            !set_run(vals, items@, usage, limit, i as nat).stopped,
        invariant
            i <= items@.len(),
            vals == values.spec_values(),
            set_run(vals, items@, usage, limit, i as nat).seen == seen@.map_values(|v: Vec<u8>| v@),
            set_run(vals, items@, usage, limit, i as nat).kept == kept@,
            match errors {
                Some(x) => set_run(vals, items@, usage, limit, i as nat).errors == Some(x@),
                None => set_run(vals, items@, usage, limit, i as nat).errors is None,
            },
        ensures
            set_run(vals, items@, usage, limit, items@.len()) == set_run(vals, items@, usage, limit, i as nat),
        decreases items@.len() - i,
    {
        let ghost run = set_run(vals, items@, usage, limit, i as nat);
        match canonical_key(values, items[i], usage) {
            Ok(key) => {
                if !seen_contains(&seen, &key) {
                    let ghost before = seen@;
                    seen.push(key);
                    kept.push(items[i]);
                    proof {
                        assert(seen@.map_values(|v: Vec<u8>| v@) =~= before.map_values(|v: Vec<u8>| v@).push(
                            key@,
                        ));
                    }
                }
            },
            Err(error) => {
                let located = error.at(LocationItem::Index(i));
                proof {
                    assert(located@.0 =~= at_step(error@, LocationStep::Index(i)).0);
                }
                crate::sums::collect_branch_error(&mut errors, located, limit);
            },
        }
        let stop = crate::collections::stop_after_error_cap(&mut errors, limit, i + 1 < items.len());
        proof {
            let next = set_run(vals, items@, usage, limit, (i + 1) as nat);
            assert(next == set_step(vals, items@, usage, limit, run, i as int));
            if errors is Some {
                assert(next.errors matches Some(y) && y.0 =~= errors->Some_0@.0);
            }
        }
        i = i + 1;
        if stop {
            proof {
                lemma_stopped_run_stays(vals, items@, usage, limit, i as nat, items@.len());
            }
            break;
        }
    }
    match errors {
        Some(error) => Err(error),
        None => Ok(kept),
    }
}

// ---------------------------------------------------------------------------
// Collecting mapping entries
// ---------------------------------------------------------------------------

/// The view of collected errors.
pub open spec fn errors_view(errors: Option<ValidationError>) -> Option<(Seq<DetailView>, bool)> {
    match errors {
        Some(e) => Some(e@),
        None => None,
    }
}

/// The errors after collecting one more: it becomes the first, or is
/// appended within the limit.
pub open spec fn collect_view(errors: Option<(Seq<DetailView>, bool)>, e: (Seq<DetailView>, bool), limit: usize) -> Option<
    (Seq<DetailView>, bool),
> {
    match errors {
        None => Some(e),
        Some(held) => Some(appended(held, e, limit as nat)),
    }
}

/// The error for a mapping key whose value was already seen, at the
/// entry's position.
pub open spec fn duplicate_key(index: usize) -> (Seq<DetailView>, bool) {
    (
        seq![
            DetailView {
                code: "mapping_key_duplicate"@,
                location: seq![LocationStep::MappingKey(index)],
                message: "Validated mapping key is duplicated"@,
                expected: Seq::empty(),
                context: Seq::empty(),
            },
        ],
        false,
    )
}

/// What collecting one validated mapping entry does to the seen keys, the
/// output entries and the errors: a key and a value that both validated
/// are kept when the key's canonical key is new, and are a duplicate error
/// otherwise; a key that is no key adds its error at the entry; failed
/// validations add their errors, the key's first.
pub open spec fn mapping_entry_step(
    values: Seq<ValidatedValue>,
    index: usize,
    key: Result<ValueId, (Seq<DetailView>, bool)>,
    value: Result<ValueId, (Seq<DetailView>, bool)>,
    seen: Seq<Seq<u8>>,
    output: Seq<(ValueId, ValueId)>,
    errors: Option<(Seq<DetailView>, bool)>,
    limit: usize,
) -> (Seq<Seq<u8>>, Seq<(ValueId, ValueId)>, Option<(Seq<DetailView>, bool)>) {
    match (key, value) {
        (Ok(k), Ok(v)) => match spec_key(values, k@, KeyUse::MappingKey) {
            Ok(id) => if seen.contains(id) {
                (seen, output, collect_view(errors, duplicate_key(index), limit))
            } else {
                (seen.push(id), output.push((k, v)), errors)
            },
            Err(e) => (seen, output, collect_view(errors, at_step(e, LocationStep::MappingKey(index)), limit)),
        },
        (Err(ke), Ok(_)) => (seen, output, collect_view(errors, ke, limit)),
        (Ok(_), Err(ve)) => (seen, output, collect_view(errors, ve, limit)),
        (Err(ke), Err(ve)) => (seen, output, collect_view(collect_view(errors, ke, limit), ve, limit)),
    }
}

/// The view of a validation result.
pub open spec fn result_view(r: Result<ValueId, ValidationError>) -> Result<ValueId, (Seq<DetailView>, bool)> {
    match r {
        Ok(id) => Ok(id),
        Err(e) => Err(e@),
    }
}

pub(crate) fn collect_error(errors: &mut Option<ValidationError>, error: ValidationError, limit: usize)
    ensures
        errors_view(*final(errors)) == collect_view(errors_view(*old(errors)), error@, limit),
{
    crate::sums::collect_branch_error(errors, error, limit);
}

/// Collects one validated mapping entry at position `index`: keeps the key
/// and value when both validated and the key's canonical key is new, and
/// otherwise collects the errors, as `mapping_entry_step` says.
pub fn collect_mapping_entry(
    values: &ValidatedArena,
    index: usize,
    key: Result<ValueId, ValidationError>,
    value: Result<ValueId, ValidationError>,
    output: &mut Vec<(ValueId, ValueId)>,
    seen: &mut Vec<Vec<u8>>,
    errors: &mut Option<ValidationError>,
    limit: usize,
)
    ensures
        mapping_entry_step(
            values.spec_values(),
            index,
            result_view(key),
            result_view(value),
            old(seen)@.map_values(|v: Vec<u8>| v@),
            old(output)@,
            errors_view(*old(errors)),
            limit,
        ) == (final(seen)@.map_values(|v: Vec<u8>| v@), final(output)@, errors_view(*final(errors))),
{
    match (key, value) {
        (Ok(k), Ok(v)) => match canonical_key(values, k, KeyUse::MappingKey) {
            Ok(identity) => {
                if seen_contains(seen, &identity) {
                    let single = ValidationError::one(
                        ErrorDetail::new("mapping_key_duplicate", owned("Validated mapping key is duplicated")),
                    );
                    let duplicate = single.at(LocationItem::MappingKey(index));
                    proof {
                        assert(single@.0.len() == 1);
                        assert(duplicate@.0[0].location =~= seq![LocationStep::MappingKey(index)]);
                        assert(duplicate@.0[0].expected =~= Seq::<char>::empty());
                        assert(duplicate@.0[0].context =~= Seq::<(Seq<char>, Seq<char>)>::empty());
                        assert(duplicate@.0[0] == duplicate_key(index).0[0]);
                        assert(duplicate@.0 =~= duplicate_key(index).0);
                    }
                    collect_error(errors, duplicate, limit);
                } else {
                    let ghost before = seen@;
                    seen.push(identity);
                    output.push((k, v));
                    proof {
                        assert(seen@.map_values(|v: Vec<u8>| v@) =~= before.map_values(|v: Vec<u8>| v@).push(
                            identity@,
                        ));
                    }
                }
            },
            Err(error) => {
                let located = error.at(LocationItem::MappingKey(index));
                proof {
                    assert(located@.0 =~= at_step(error@, LocationStep::MappingKey(index)).0);
                }
                collect_error(errors, located, limit);
            },
        },
        (Err(key_error), Ok(_)) => collect_error(errors, key_error, limit),
        (Ok(_), Err(value_error)) => collect_error(errors, value_error, limit),
        (Err(key_error), Err(value_error)) => {
            collect_error(errors, key_error, limit);
            collect_error(errors, value_error, limit);
        },
    }
}


// ---------------------------------------------------------------------------
// Laws
// ---------------------------------------------------------------------------

/// What a run keeps: one item per seen key, in step, with distinct keys;
/// and while no error is collected every item so far has a seen key.
pub open spec fn run_keeps_first_items(values: Seq<ValidatedValue>, items: Seq<ValueId>, usage: KeyUse, limit: usize, n: nat) -> bool {
    let r = set_run(values, items, usage, limit, n);
    &&& r.kept.len() == r.seen.len()
    &&& forall|j: int| 0 <= j < r.kept.len() ==> spec_key(values, (#[trigger] r.kept[j])@, usage) == Ok::<
        Seq<u8>,
        (Seq<DetailView>, bool),
    >(r.seen[j])
    &&& forall|a: int, b: int| 0 <= a < b < r.seen.len() ==> r.seen[a] != r.seen[b]
    &&& r.stopped ==> r.errors is Some
    &&& r.errors is None ==> forall|i: int|
        0 <= i < n ==> ((#[trigger] spec_key(values, items[i]@, usage)) matches Ok(k) && r.seen.contains(k))
}

proof fn lemma_run_keeps_first_items(values: Seq<ValidatedValue>, items: Seq<ValueId>, usage: KeyUse, limit: usize, n: nat)
    requires
        n <= items.len(),
    ensures
        run_keeps_first_items(values, items, usage, limit, n),
    decreases n,
{
    if n > 0 {
        lemma_run_keeps_first_items(values, items, usage, limit, (n - 1) as nat);
        let r0 = set_run(values, items, usage, limit, (n - 1) as nat);
        let r = set_run(values, items, usage, limit, n);
        let i = n - 1;
        if !r0.stopped {
            match spec_key(values, items[i]@, usage) {
                Ok(k) => {
                    if r0.seen.contains(k) {
                        assert(r.seen == r0.seen);
                    } else {
                        assert(r.seen == r0.seen.push(k));
                        assert(r.kept == r0.kept.push(items[i]));
                        assert forall|a: int, b: int| 0 <= a < b < r.seen.len() implies r.seen[a] != r.seen[b] by {
                            if b == r.seen.len() - 1 {
                                assert(r.seen[a] == r0.seen[a]);
                            }
                        }
                        assert forall|j: int| 0 <= j < r.kept.len() implies spec_key(values, (#[trigger] r.kept[j])@, usage)
                            == Ok::<Seq<u8>, (Seq<DetailView>, bool)>(r.seen[j]) by {
                            if j < r0.kept.len() {
                                assert(r.kept[j] == r0.kept[j]);
                            }
                        }
                        if r.errors is None {
                            assert forall|t: int| 0 <= t < n implies ((#[trigger] spec_key(values, items[t]@, usage)) matches Ok(kk)
                                && r.seen.contains(kk)) by {
                                if t < i {
                                    let kk = spec_key(values, items[t]@, usage)->Ok_0;
                                    let w = choose|w: int| 0 <= w < r0.seen.len() && r0.seen[w] == kk;
                                    assert(r.seen[w] == kk);
                                } else {
                                    assert(r.seen[r.seen.len() - 1] == k);
                                }
                            }
                        }
                    }
                },
                Err(_) => {},
            }
        }
    }
}

/// A deduplicated set keeps items whose keys are pairwise distinct, and
/// every input item shares its key with a kept item: equal items collapse
/// to the first of them.
pub proof fn law_unique_items_are_distinct_and_cover(
    values: Seq<ValidatedValue>,
    items: Seq<ValueId>,
    usage: KeyUse,
    limit: usize,
)
    ensures
        unique_outcome(values, items, usage, limit) matches Ok(kept) ==> {
            &&& forall|a: int, b: int|
                0 <= a < b < kept.len() ==> spec_key(values, (#[trigger] kept[a])@, usage) != spec_key(
                    values,
                    (#[trigger] kept[b])@,
                    usage,
                )
            &&& forall|i: int|
                0 <= i < items.len() ==> exists|j: int|
                    0 <= j < kept.len() && #[trigger] spec_key(values, items[i]@, usage) == spec_key(
                        values,
                        (#[trigger] kept[j])@,
                        usage,
                    )
        },
{
    lemma_run_keeps_first_items(values, items, usage, limit, items.len());
    let r = set_run(values, items, usage, limit, items.len());
    if r.errors is None {
        let kept = r.kept;
        assert forall|a: int, b: int| 0 <= a < b < kept.len() implies spec_key(values, (#[trigger] kept[a])@, usage)
            != spec_key(values, (#[trigger] kept[b])@, usage) by {
            assert(r.seen[a] != r.seen[b]);
        }
        assert forall|i: int| 0 <= i < items.len() implies exists|j: int|
            0 <= j < kept.len() && #[trigger] spec_key(values, items[i]@, usage) == spec_key(
                values,
                (#[trigger] kept[j])@,
                usage,
            ) by {
            let k = spec_key(values, items[i]@, usage)->Ok_0;
            let w = choose|w: int| 0 <= w < r.seen.len() && r.seen[w] == k;
            assert(spec_key(values, kept[w]@, usage) == Ok::<Seq<u8>, (Seq<DetailView>, bool)>(r.seen[w]));
        }
    }
}

/// The tag byte of a value's kind.
pub open spec fn kind_tag(value: ValidatedValue) -> u8 {
    match value {
        ValidatedValue::Null => 0,
        ValidatedValue::Bool(_) => 1,
        ValidatedValue::ExactInt(_) => 2,
        ValidatedValue::FixedInt { .. } => 2,
        ValidatedValue::Float(_) => 3,
        ValidatedValue::Decimal(_) => 4,
        ValidatedValue::Fraction { .. } => 5,
        ValidatedValue::Complex { .. } => 6,
        ValidatedValue::String(_) => 7,
        ValidatedValue::Bytes(_) => 8,
        ValidatedValue::Date(_) => 9,
        ValidatedValue::Time(_) => 10,
        ValidatedValue::DateTime(_) => 11,
        ValidatedValue::Duration(_) => 12,
        ValidatedValue::Uuid(_) => 13,
        ValidatedValue::Url(_) => 14,
        ValidatedValue::Pattern { .. } => 15,
        ValidatedValue::Nullable(None) => 16,
        ValidatedValue::Nullable(Some(_)) => 17,
        ValidatedValue::MultiHostUrl(_) => 18,
        ValidatedValue::Enum(_) => 19,
        ValidatedValue::Union(_) => 20,
        _ => 255,
    }
}

/// Every key starts with the tag of its value's kind, so values of
/// different kinds never share a key.
pub proof fn law_key_starts_with_tag(values: Seq<ValidatedValue>, id: nat, usage: KeyUse)
    ensures
        spec_key(values, id, usage) matches Ok(k) ==> k.len() >= 1 && k[0] == kind_tag(values[id as int]),
    decreases id,
{
}

/// A boolean and an integer never share a key: `True` is not the
/// integer one as a set item or a mapping key.
pub proof fn law_bool_is_no_integer(values: Seq<ValidatedValue>, i: nat, j: nat, usage: KeyUse)
    requires
        i < values.len(),
        j < values.len(),
        values[i as int] is Bool,
        values[j as int] is ExactInt || values[j as int] is FixedInt,
    ensures
        spec_key(values, i, usage) != spec_key(values, j, usage),
{
    law_key_starts_with_tag(values, i, usage);
    law_key_starts_with_tag(values, j, usage);
}

/// An exact integer and a fixed-width integer with the same digits share
/// their key.
pub proof fn law_integer_kinds_share_key(
    values: Seq<ValidatedValue>,
    i: nat,
    j: nat,
    usage: KeyUse,
    exact: String,
    kind: &'static str,
    fixed: String,
)
    requires
        i < values.len(),
        j < values.len(),
        values[i as int] == ValidatedValue::ExactInt(exact),
        values[j as int] == (ValidatedValue::FixedInt { kind, value: fixed }),
        exact@ == fixed@,
    ensures
        spec_key(values, i, usage) == spec_key(values, j, usage),
{
}

/// Eight big-endian bytes spell one `u64` only.
pub proof fn lemma_be_u64_injective(a: u64, b: u64)
    requires
        be_u64(a) == be_u64(b),
    ensures
        a == b,
{
    assert(be_u64(a)[0] == be_u64(b)[0]);
    assert(be_u64(a)[1] == be_u64(b)[1]);
    assert(be_u64(a)[2] == be_u64(b)[2]);
    assert(be_u64(a)[3] == be_u64(b)[3]);
    assert(be_u64(a)[4] == be_u64(b)[4]);
    assert(be_u64(a)[5] == be_u64(b)[5]);
    assert(be_u64(a)[6] == be_u64(b)[6]);
    assert(be_u64(a)[7] == be_u64(b)[7]);
    assert(a == b) by (bit_vector)
        requires
            (a >> 56u64) as u8 == (b >> 56u64) as u8,
            (a >> 48u64) as u8 == (b >> 48u64) as u8,
            (a >> 40u64) as u8 == (b >> 40u64) as u8,
            (a >> 32u64) as u8 == (b >> 32u64) as u8,
            (a >> 24u64) as u8 == (b >> 24u64) as u8,
            (a >> 16u64) as u8 == (b >> 16u64) as u8,
            (a >> 8u64) as u8 == (b >> 8u64) as u8,
            a as u8 == b as u8,
    ;
}

/// Two doubles share a key exactly when they are equal as numbers or are
/// the same pattern: positive and negative zero share one, every other
/// pattern has its own.
pub proof fn law_float_keys(values: Seq<ValidatedValue>, i: nat, j: nat, usage: KeyUse, x: u64, y: u64)
    requires
        i < values.len(),
        j < values.len(),
        values[i as int] == ValidatedValue::Float(x),
        values[j as int] == ValidatedValue::Float(y),
    ensures
        spec_key(values, i, usage) == spec_key(values, j, usage) <==> float_key_bits(x) == float_key_bits(y),
        (x & 0x7fff_ffff_ffff_ffffu64 == 0 && y & 0x7fff_ffff_ffff_ffffu64 == 0) ==> spec_key(values, i, usage)
            == spec_key(values, j, usage),
{
    if spec_key(values, i, usage) == spec_key(values, j, usage) {
        let ki = seq![3u8] + be_u64(float_key_bits(x));
        let kj = seq![3u8] + be_u64(float_key_bits(y));
        assert(ki == kj);
        assert(ki.subrange(1, 9) =~= be_u64(float_key_bits(x)));
        assert(kj.subrange(1, 9) =~= be_u64(float_key_bits(y)));
        lemma_be_u64_injective(float_key_bits(x), float_key_bits(y));
    }
}

} // verus!
