use vstd::prelude::*;
use vstd::string::StringSliceAdditionalSpecFns;

use crate::constraints::AliasSegment;
use crate::error::{plain_error, type_error, ValidationError};

verus! {

/// How a union picks among the choices that accept an input.
#[derive(Clone, Copy, Debug, PartialEq, Eq, Structural)]
pub enum UnionMode {
    Smart,
    LeftToRight,
}

/// A declared error that replaces a union's collected errors.
#[derive(Clone, Copy, Debug, PartialEq, Eq)]
pub struct SchemaErrorOverride {
    pub code: &'static str,
    pub message: &'static str,
}

/// The path at which a tagged union finds its tag.
#[derive(Clone, Debug, PartialEq, Eq)]
pub struct DiscriminatorPath {
    pub segments: Vec<AliasSegment>,
}

/// How exactly a union choice accepted an input, from loosest to exact.
#[derive(Clone, Copy, Debug, PartialEq, Eq, Structural)]
pub enum Exactness {
    Lax,
    Strict,
    Exact,
}

/// The rank of an exactness: lax below strict below exact.
pub open spec fn exactness_rank(e: Exactness) -> nat {
    match e {
        Exactness::Lax => 0,
        Exactness::Strict => 1,
        Exactness::Exact => 2,
    }
}

fn exactness_value(e: Exactness) -> (r: u8)
    ensures
        r == exactness_rank(e),
{
    match e {
        Exactness::Lax => 0,
        Exactness::Strict => 1,
        Exactness::Exact => 2,
    }
}

/// A candidate beats the best so far when both count validated model
/// fields and it counts more, or, when the counts are equal or either is
/// missing, when it is strictly more exact.
pub open spec fn spec_candidate_is_better(
    fields: Option<usize>,
    exactness: Exactness,
    best_fields: Option<usize>,
    best_exactness: Exactness,
) -> bool {
    match (fields, best_fields) {
        (Some(f), Some(b)) if f != b => f > b,
        _ => exactness_rank(exactness) > exactness_rank(best_exactness),
    }
}

/// Whether a smart union's candidate replaces the best candidate so far.
pub fn candidate_is_better(
    fields: Option<usize>,
    exactness: Exactness,
    best_fields: Option<usize>,
    best_exactness: Exactness,
) -> (r: bool)
    ensures
        r == spec_candidate_is_better(fields, exactness, best_fields, best_exactness),
{
    match (fields, best_fields) {
        (Some(f), Some(b)) if f != b => f > b,
        _ => exactness_value(exactness) > exactness_value(best_exactness),
    }
}

/// A candidate is never better than itself, and of two different
/// candidates at most one beats the other, so the choice a smart union
/// keeps does not depend on ties being broken twice.
pub proof fn law_candidate_order_is_strict(
    fields: Option<usize>,
    exactness: Exactness,
    other_fields: Option<usize>,
    other_exactness: Exactness,
)
    ensures
        !spec_candidate_is_better(fields, exactness, fields, exactness),
        !(spec_candidate_is_better(fields, exactness, other_fields, other_exactness)
            && spec_candidate_is_better(other_fields, other_exactness, fields, exactness)),
{
}

/// The errors after collecting `error`: it becomes the first error, or is
/// appended within the limit.
pub open spec fn collected(
    errors: Option<ValidationError>,
    error: ValidationError,
    limit: usize,
    after: Option<ValidationError>,
) -> bool {
    match errors {
        None => after == Some(error),
        Some(held) => after matches Some(now) && ({
            now@ == crate::error::appended(held@, error@, limit as nat)
        }),
    }
}

/// Collects the error of one failed union branch.
pub fn collect_branch_error(errors: &mut Option<ValidationError>, error: ValidationError, limit: usize)
    ensures
        collected(*old(errors), error, limit, *final(errors)),
{
    let ghost e = error;
    match errors {
        Some(held) => held.append(error, limit),
        None => *errors = Some(error),
    }
}

/// Replaces the collected error by the declared one, when there is one.
pub fn apply_override(error: ValidationError, declaration: Option<SchemaErrorOverride>) -> (r: ValidationError)
    ensures
        match declaration {
            None => r == error,
            Some(d) => r@ == plain_error(d.code@, d.message@, "valid union input"@),
        },
{
    match declaration {
        None => error,
        Some(declaration) => type_error(declaration.code, declaration.message, "valid union input"),
    }
}

/// The error for an input position outside the arena.
pub fn invalid_input() -> (r: ValidationError)
    ensures
        r@ == plain_error("internal_input"@, "Input arena index is invalid"@, "valid input arena"@),
{
    type_error("internal_input", "Input arena index is invalid", "valid input arena")
}

/// The error for a sum result that does not fit its canonical layout.
pub fn invalid_sum_output() -> (r: ValidationError)
    ensures
        r@ == plain_error(
            "schema_invalid"@,
            "Sum validation output does not match its canonical layout"@,
            "canonical sum output"@,
        ),
{
    type_error("schema_invalid", "Sum validation output does not match its canonical layout", "canonical sum output")
}

/// The error for static literal metadata that cannot be read.
pub fn invalid_literal_metadata() -> (r: ValidationError)
    ensures
        r@ == plain_error(
            "schema_invalid"@,
            "Static sum literal metadata is invalid"@,
            "canonical literal metadata"@,
        ),
{
    type_error("schema_invalid", "Static sum literal metadata is invalid", "canonical literal metadata")
}

// ---------------------------------------------------------------------------
// Hexadecimal literal metadata
// ---------------------------------------------------------------------------

/// The value of a hexadecimal digit, either case.
pub open spec fn spec_hex_digit(b: u8) -> Option<u8> {
    if 48 <= b <= 57 {
        Some((b - 48) as u8)
    } else if 97 <= b <= 102 {
        Some((b - 97 + 10) as u8)
    } else if 65 <= b <= 70 {
        Some((b - 65 + 10) as u8)
    } else {
        None
    }
}

pub fn hex_digit(value: u8) -> (r: Option<u8>)
    ensures
        r == spec_hex_digit(value),
{
    if value >= 48 && value <= 57 {
        Some(value - 48)
    } else if value >= 97 && value <= 102 {
        Some(value - 97 + 10)
    } else if value >= 65 && value <= 70 {
        Some(value - 65 + 10)
    } else {
        None
    }
}

/// The bytes spelled by pairs of hexadecimal digits, high digit first;
/// `None` when the length is odd or a character is not a digit.
pub open spec fn spec_decode_hex(text: Seq<u8>) -> Option<Seq<u8>>
    decreases text.len(),
{
    if text.len() % 2 != 0 {
        None
    } else if text.len() == 0 {
        Some(Seq::empty())
    } else {
        match (spec_decode_hex(text.subrange(0, text.len() - 2)), spec_hex_digit(text[text.len() - 2]), spec_hex_digit(
            text[text.len() - 1],
        )) {
            (Some(front), Some(high), Some(low)) => Some(front.push((high * 16 + low) as u8)),
            _ => None,
        }
    }
}

/// Decodes hexadecimal text into bytes.
pub fn decode_hex(value: &str) -> (r: Option<Vec<u8>>)
    ensures
        match spec_decode_hex(value.spec_bytes()) {
            Some(bytes) => r matches Some(v) && v@ == bytes,
            None => r is None,
        },
{
    let bytes = value.as_bytes();
    let n = bytes.len();
    if n % 2 != 0 {
        return None;
    }
    let mut out: Vec<u8> = Vec::new();
    let mut k: usize = 0;
    while k < n
        invariant
            bytes@ == value.spec_bytes(),
            n == bytes@.len(),
            n % 2 == 0,
            k <= n,
            k % 2 == 0,
            spec_decode_hex(bytes@.subrange(0, k as int)) == Some(out@),
        decreases n - k,
    {
        let high = match hex_digit(bytes[k]) {
            Some(d) => d,
            None => {
                proof {
                    lemma_decode_hex_stops(bytes@, k as int);
                }
                return None;
            },
        };
        let low = match hex_digit(bytes[k + 1]) {
            Some(d) => d,
            None => {
                proof {
                    lemma_decode_hex_stops(bytes@, k as int);
                }
                return None;
            },
        };
        proof {
            let next = bytes@.subrange(0, k + 2);
            assert(next.subrange(0, next.len() - 2) =~= bytes@.subrange(0, k as int));
            assert(next[next.len() - 2] == bytes@[k as int]);
            assert(next[next.len() - 1] == bytes@[k + 1]);
        }
        out.push(high * 16 + low);
        k = k + 2;
    }
    assert(bytes@.subrange(0, n as int) =~= bytes@);
    Some(out)
}

proof fn lemma_decode_hex_stops(text: Seq<u8>, k: int)
    requires
        0 <= k,
        k + 2 <= text.len(),
        text.len() % 2 == 0,
        k % 2 == 0,
        spec_hex_digit(text[k]) is None || spec_hex_digit(text[k + 1]) is None,
    ensures
        spec_decode_hex(text) is None,
    decreases text.len(),
{
    if k + 2 == text.len() {
    } else {
        let shorter = text.subrange(0, text.len() - 2);
        assert(shorter[k] == text[k]);
        assert(shorter[k + 1] == text[k + 1]);
        lemma_decode_hex_stops(shorter, k);
    }
}

// ---------------------------------------------------------------------------
// Canonical ordering of union members
// ---------------------------------------------------------------------------

/// The kind of a literal value.
#[derive(Clone, Copy, Debug, PartialEq, Eq, Structural)]
pub enum LiteralKind {
    Null,
    Bool,
    Integer,
    String,
    Bytes,
}

/// The category that places a literal among union members; literals carry
/// no name of their own.
pub fn literal_sort_key(kind: LiteralKind) -> (r: (u8, String))
    ensures
        r.0 == match kind {
            LiteralKind::Null => 0u8,
            LiteralKind::Bool => 1u8,
            LiteralKind::Integer => 2u8,
            LiteralKind::String => 5u8,
            LiteralKind::Bytes => 6u8,
        },
        r.1@ == Seq::<char>::empty(),
{
    let category: u8 = match kind {
        LiteralKind::Null => 0,
        LiteralKind::Bool => 1,
        LiteralKind::Integer => 2,
        LiteralKind::String => 5,
        LiteralKind::Bytes => 6,
    };
    (category, String::new())
}

/// The index just after the last `.` of a name, or zero when it has none.
pub open spec fn bare_name_start(name: Seq<char>) -> int
    decreases name.len(),
{
    if name.len() == 0 {
        0
    } else if name.last() == '.' {
        name.len() as int
    } else {
        bare_name_start(name.drop_last())
    }
}

/// The part of a dotted name after its last `.`: a class's bare name.
pub open spec fn spec_bare_nominal_name(name: Seq<char>) -> Seq<char> {
    name.subrange(bare_name_start(name), name.len() as int)
}

proof fn lemma_bare_name_start(name: Seq<char>)
    ensures
        0 <= bare_name_start(name) <= name.len(),
        bare_name_start(name) > 0 ==> name[bare_name_start(name) - 1] == '.',
        forall|j: int| bare_name_start(name) <= j < name.len() ==> name[j] != '.',
    decreases name.len(),
{
    if name.len() > 0 && name.last() != '.' {
        let front = name.drop_last();
        lemma_bare_name_start(front);
        assert forall|j: int| bare_name_start(name) <= j < name.len() implies name[j] != '.' by {
            if j < name.len() - 1 {
                assert(front[j] == name[j]);
            }
        }
        if bare_name_start(name) > 0 {
            assert(front[bare_name_start(name) - 1] == name[bare_name_start(name) - 1]);
        }
    }
}

/// The bare name of a dotted nominal name.
pub fn bare_nominal_name<'a>(name: &'a str) -> (r: &'a str)
    ensures
        r@ == spec_bare_nominal_name(name@),
{
    let n = name.unicode_len();
    let mut start: usize = n;
    assert(name@.subrange(0, n as int) =~= name@);
    while start > 0 && name.get_char(start - 1) != '.'
        invariant
            n == name@.len(),
            start <= n,
            bare_name_start(name@) == bare_name_start(name@.subrange(0, start as int)),
        decreases start,
    {
        assert(name@.subrange(0, start as int).drop_last() =~= name@.subrange(0, start - 1));
        start = start - 1;
    }
    proof {
        assert(name@.subrange(0, n as int) =~= name@);
        if start > 0 {
            assert(name@.subrange(0, start as int).last() == '.');
        } else {
            assert(name@.subrange(0, 0) =~= Seq::<char>::empty());
        }
    }
    name.substring_char(start, n)
}

/// A union member's name is what follows its module path, so members of
/// different modules with one class name sort together.
pub proof fn law_bare_name_has_no_dot(name: Seq<char>)
    ensures
        !spec_bare_nominal_name(name).contains('.'),
        name.len() >= spec_bare_nominal_name(name).len(),
{
    lemma_bare_name_start(name);
    let bare = spec_bare_nominal_name(name);
    if bare.contains('.') {
        let j = choose|j: int| 0 <= j < bare.len() && bare[j] == '.';
        assert(name[bare_name_start(name) + j] == '.');
    }
}

} // verus!
