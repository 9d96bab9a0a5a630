use std::collections::{BTreeMap, BTreeSet};

use vstd::prelude::*;
use vstd::set_lib::{lemma_int_range, lemma_len_subset, set_int_range};
use vstd::utf8::{decode_utf8, valid_utf8};

use crate::arena::Arena;
use crate::canonical::hex_text;
use crate::error::{DetailView, ValidationError};
use crate::input::{refers_backwards, refs_below, InputArena, InputId, InputNode, InputValue, ObjectKind, SequenceKind};
use crate::options::InputProfile;
use crate::constraints::schema_error;
use crate::text::{copy_bytes, owned, str_equal};
use crate::values::{
    duration_text, padded, padded_text, spec_duration_text, spec_time_text, time_text, DateTimeValue, DateValue,
    ModelValue, ValidatedArena, ValidatedValue, ValueId,
};

verus! {

broadcast use vstd::std_specs::btree::group_btree_axioms, vstd::laws_cmp::group_laws_cmp;

// ---------------------------------------------------------------------------
// What a handoff input stands for
// ---------------------------------------------------------------------------

/// `YYYY-MM-DD`.
pub open spec fn date_text(d: DateValue) -> Seq<char> {
    padded(d.year as nat, 4) + seq!['-'] + padded(d.month as nat, 2) + seq!['-'] + padded(d.day as nat, 2)
}

/// `YYYY-MM-DD`, `T`, then the time of day.
pub open spec fn datetime_text(v: DateTimeValue) -> Seq<char> {
    date_text(v.date) + seq!['T'] + spec_time_text(v.time)
}

/// The hyphenated lower-case text of a UUID: groups of four, two, two, two
/// and six bytes in hexadecimal.
pub open spec fn uuid_text(b: Seq<u8>) -> Seq<char> {
    hex_text(b.subrange(0, 4)) + seq!['-'] + hex_text(b.subrange(4, 6)) + seq!['-'] + hex_text(b.subrange(6, 8))
        + seq!['-'] + hex_text(b.subrange(8, 10)) + seq!['-'] + hex_text(b.subrange(10, 16))
}

/// A fraction as its numerator alone when the denominator is one, else as
/// `numerator/denominator`.
pub open spec fn ratio_text(numerator: Seq<char>, denominator: Seq<char>) -> Seq<char> {
    if denominator == seq!['1'] {
        numerator
    } else {
        numerator + seq!['/'] + denominator
    }
}

/// The object kind that a profile hands on.
pub open spec fn handoff_object_kind(json: bool) -> ObjectKind {
    if json {
        ObjectKind::JsonObject
    } else {
        ObjectKind::Object
    }
}

/// The sequence kind that a profile hands on for a native kind.
pub open spec fn handoff_sequence_kind(json: bool, native: SequenceKind) -> SequenceKind {
    if json {
        SequenceKind::JsonArray
    } else {
        native
    }
}

/// The input node that a scalar validated value is handed on as; nothing
/// for wrappers and aggregates.
pub open spec fn handed_scalar(value: ValidatedValue) -> Option<InputNode> {
    match value {
        ValidatedValue::Null => Some(InputNode::Null),
        ValidatedValue::Nullable(None) => Some(InputNode::Null),
        ValidatedValue::Bool(b) => Some(InputNode::Bool(b)),
        ValidatedValue::ExactInt(t) => Some(InputNode::Integer(t@)),
        ValidatedValue::FixedInt { value: t, .. } => Some(InputNode::Integer(t@)),
        ValidatedValue::Float(x) => Some(InputNode::Float(x)),
        ValidatedValue::Decimal(t) => Some(InputNode::Decimal(t@)),
        ValidatedValue::Fraction { numerator, denominator } => Some(
            InputNode::Fraction { numerator: numerator@, denominator: denominator@ },
        ),
        ValidatedValue::Complex { real: re, imaginary: im } => Some(InputNode::Complex { real: re, imaginary: im }),
        ValidatedValue::String(s) => Some(InputNode::String(s@)),
        ValidatedValue::Bytes(b) => Some(InputNode::Bytes(b@)),
        ValidatedValue::Date(d) => Some(InputNode::Date(date_text(d))),
        ValidatedValue::Time(t) => Some(InputNode::Time(spec_time_text(t))),
        ValidatedValue::DateTime(v) => Some(InputNode::DateTime(datetime_text(v))),
        ValidatedValue::Duration(d) => Some(InputNode::Duration(spec_duration_text(d))),
        ValidatedValue::Uuid(u) => Some(InputNode::Uuid(uuid_text(u@))),
        ValidatedValue::Url(t) => Some(InputNode::Url(t@)),
        ValidatedValue::MultiHostUrl(t) => Some(InputNode::Url(t@)),
        ValidatedValue::Pattern { source, flags } => Some(InputNode::Pattern { source: source@, flags }),
        _ => None,
    }
}

/// The value that a wrapper stands for: an enum member's discriminant, a
/// union choice's value, or a present optional value.
pub open spec fn wrapped(value: ValidatedValue) -> Option<ValueId> {
    match value {
        ValidatedValue::Enum(e) => Some(e.spec_discriminant()),
        ValidatedValue::Union(u) => Some(u.spec_value()),
        ValidatedValue::Nullable(Some(c)) => Some(c),
        _ => None,
    }
}

/// A model's fields and then its extra entries, as names and value ids.
pub open spec fn model_entries(value: ValidatedValue) -> Seq<(Seq<char>, ValueId)> {
    match value {
        ValidatedValue::Model(m) => m.spec_fields().map_values(|f: (&'static str, ValueId)| (f.0@, f.1))
            + m.spec_extras().map_values(|e: (String, ValueId)| (e.0@, e.1)),
        _ => Seq::empty(),
    }
}

/// The text that a JSON mapping key stands for, given as `text`: scalars
/// by their text, floats and complex numbers as the given formatters wrote
/// them, bytes as the UTF-8 text they hold, wrappers by what they wrap.
pub open spec fn key_corresponds<F: Fn(u64) -> String, G: Fn(u64, u64) -> String>(
    src: Seq<ValidatedValue>,
    k: nat,
    text: Seq<char>,
    b: nat,
    float_text: F,
    complex_text: G,
) -> bool
    decreases b,
{
    &&& k < src.len()
    &&& match src[k as int] {
        ValidatedValue::Bool(x) => text == (if x {
            "true"@
        } else {
            "false"@
        }),
        ValidatedValue::ExactInt(t) => text == t@,
        ValidatedValue::FixedInt { value: t, .. } => text == t@,
        ValidatedValue::Float(x) => exists|s: String| s@ == text && #[trigger] call_ensures(float_text, (x,), s),
        ValidatedValue::Decimal(t) => text == t@,
        ValidatedValue::Fraction { numerator, denominator } => text == ratio_text(numerator@, denominator@),
        ValidatedValue::Complex { real: re, imaginary: im } => exists|s: String|
            s@ == text && #[trigger] call_ensures(complex_text, (re, im), s),
        ValidatedValue::String(s) => text == s@,
        ValidatedValue::Bytes(bytes) => valid_utf8(bytes@) && text == decode_utf8(bytes@),
        ValidatedValue::Date(d) => text == date_text(d),
        ValidatedValue::Time(t) => text == spec_time_text(t),
        ValidatedValue::DateTime(v) => text == datetime_text(v),
        ValidatedValue::Duration(d) => text == spec_duration_text(d),
        ValidatedValue::Uuid(u) => text == uuid_text(u@),
        ValidatedValue::Url(t) => text == t@,
        ValidatedValue::MultiHostUrl(t) => text == t@,
        ValidatedValue::Pattern { source, .. } => text == source@,
        ValidatedValue::Enum(e) => b > 0 && key_corresponds(
            src,
            e.spec_discriminant()@,
            text,
            (b - 1) as nat,
            float_text,
            complex_text,
        ),
        ValidatedValue::Union(u) => b > 0 && key_corresponds(
            src,
            u.spec_value()@,
            text,
            (b - 1) as nat,
            float_text,
            complex_text,
        ),
        ValidatedValue::Nullable(Some(c)) => b > 0 && key_corresponds(
            src,
            c@,
            text,
            (b - 1) as nat,
            float_text,
            complex_text,
        ),
        _ => false,
    }
}

/// Input node `i` of `out` stands for validated value `v` of `src`, within
/// `b` levels of nesting: a wrapper for what it wraps; a model as an object
/// of its fields and then its extra entries; a sequence as a sequence of
/// the profile's kind; a mapping as a JSON object keyed by its keys' text
/// under the JSON profile, else as a mapping; any other value as
/// `handed_scalar` gives it.
pub open spec fn corresponds<F: Fn(u64) -> String, G: Fn(u64, u64) -> String>(
    src: Seq<ValidatedValue>,
    out: Seq<InputNode>,
    v: nat,
    i: nat,
    b: nat,
    json: bool,
    float_text: F,
    complex_text: G,
) -> bool
    decreases b,
{
    &&& v < src.len()
    &&& i < out.len()
    &&& match src[v as int] {
        ValidatedValue::Enum(e) => b > 0 && corresponds(
            src,
            out,
            e.spec_discriminant()@,
            i,
            (b - 1) as nat,
            json,
            float_text,
            complex_text,
        ),
        ValidatedValue::Union(u) => b > 0 && corresponds(
            src,
            out,
            u.spec_value()@,
            i,
            (b - 1) as nat,
            json,
            float_text,
            complex_text,
        ),
        ValidatedValue::Nullable(Some(c)) => b > 0 && corresponds(
            src,
            out,
            c@,
            i,
            (b - 1) as nat,
            json,
            float_text,
            complex_text,
        ),
        ValidatedValue::Model(_) => out[i as int] matches InputNode::Object { kind, entries } && kind
            == handoff_object_kind(json) && entries.len() == model_entries(src[v as int]).len() && (entries.len() > 0
            ==> b > 0) && forall|j: int|
            #![trigger entries[j]]
            0 <= j < entries.len() ==> entries[j].0 == model_entries(src[v as int])[j].0 && corresponds(
                src,
                out,
                model_entries(src[v as int])[j].1@,
                entries[j].1,
                (b - 1) as nat,
                json,
                float_text,
                complex_text,
            ),
        ValidatedValue::Sequence(items) => out[i as int] matches InputNode::Sequence { kind, items: its } && kind
            == handoff_sequence_kind(json, SequenceKind::List) && its.len() == items@.len() && (its.len() > 0 ==> b > 0)
            && forall|j: int|
            #![trigger its[j]]
            0 <= j < its.len() ==> corresponds(
                src,
                out,
                items@[j]@,
                its[j],
                (b - 1) as nat,
                json,
                float_text,
                complex_text,
            ),
        ValidatedValue::Tuple(items) => out[i as int] matches InputNode::Sequence { kind, items: its } && kind
            == handoff_sequence_kind(json, SequenceKind::Tuple) && its.len() == items@.len() && (its.len() > 0 ==> b > 0)
            && forall|j: int|
            #![trigger its[j]]
            0 <= j < its.len() ==> corresponds(
                src,
                out,
                items@[j]@,
                its[j],
                (b - 1) as nat,
                json,
                float_text,
                complex_text,
            ),
        ValidatedValue::MutableSet(items) => out[i as int] matches InputNode::Sequence { kind, items: its } && kind
            == handoff_sequence_kind(json, SequenceKind::MutableSet) && its.len() == items@.len() && (its.len() > 0 ==> b > 0)
            && forall|j: int|
            #![trigger its[j]]
            0 <= j < its.len() ==> corresponds(
                src,
                out,
                items@[j]@,
                its[j],
                (b - 1) as nat,
                json,
                float_text,
                complex_text,
            ),
        ValidatedValue::FrozenSet(items) => out[i as int] matches InputNode::Sequence { kind, items: its } && kind
            == handoff_sequence_kind(json, SequenceKind::FrozenSet) && its.len() == items@.len() && (its.len() > 0 ==> b > 0)
            && forall|j: int|
            #![trigger its[j]]
            0 <= j < its.len() ==> corresponds(
                src,
                out,
                items@[j]@,
                its[j],
                (b - 1) as nat,
                json,
                float_text,
                complex_text,
            ),
        ValidatedValue::Mapping(pairs) => if json {
            out[i as int] matches InputNode::Object { kind, entries } && kind == ObjectKind::JsonObject
                && entries.len() == pairs@.len() && (entries.len() > 0 ==> b > 0) && forall|j: int|
                #![trigger entries[j]]
                0 <= j < entries.len() ==> key_corresponds(
                    src,
                    pairs@[j].0@,
                    entries[j].0,
                    (b - 1) as nat,
                    float_text,
                    complex_text,
                ) && corresponds(
                    src,
                    out,
                    pairs@[j].1@,
                    entries[j].1,
                    (b - 1) as nat,
                    json,
                    float_text,
                    complex_text,
                )
        } else {
            out[i as int] matches InputNode::Mapping(ps) && ps.len() == pairs@.len() && (ps.len() > 0 ==> b > 0)
                && forall|j: int|
                #![trigger ps[j]]
                0 <= j < ps.len() ==> corresponds(
                    src,
                    out,
                    pairs@[j].0@,
                    ps[j].0,
                    (b - 1) as nat,
                    json,
                    float_text,
                    complex_text,
                ) && corresponds(
                    src,
                    out,
                    pairs@[j].1@,
                    ps[j].1,
                    (b - 1) as nat,
                    json,
                    float_text,
                    complex_text,
                )
        },
        _ => handed_scalar(src[v as int]) == Some(out[i as int]),
    }
}

// ---------------------------------------------------------------------------
// When a handoff succeeds
// ---------------------------------------------------------------------------

/// A JSON mapping key that can be written as text within `b` levels of
/// wrapping: no null, aggregate or model, and bytes only when they hold
/// UTF-8.
pub open spec fn key_fits(src: Seq<ValidatedValue>, k: nat, b: nat) -> bool
    decreases b,
{
    &&& k < src.len()
    &&& match wrapped(src[k as int]) {
        Some(c) => b > 0 && key_fits(src, c@, (b - 1) as nat),
        None => match src[k as int] {
            ValidatedValue::Null => false,
            ValidatedValue::Nullable(None) => false,
            ValidatedValue::Model(_) => false,
            ValidatedValue::Sequence(_) => false,
            ValidatedValue::Tuple(_) => false,
            ValidatedValue::MutableSet(_) => false,
            ValidatedValue::FrozenSet(_) => false,
            ValidatedValue::Mapping(_) => false,
            ValidatedValue::Bytes(bytes) => valid_utf8(bytes@),
            _ => true,
        },
    }
}

/// Every value reachable from `v` lies in the arena and within `b` levels
/// of nesting, and under the JSON profile every mapping key can be written
/// as text.
pub open spec fn fits(src: Seq<ValidatedValue>, v: nat, b: nat, json: bool) -> bool
    decreases b,
{
    &&& v < src.len()
    &&& match src[v as int] {
        ValidatedValue::Enum(e) => b > 0 && fits(src, e.spec_discriminant()@, (b - 1) as nat, json),
        ValidatedValue::Union(u) => b > 0 && fits(src, u.spec_value()@, (b - 1) as nat, json),
        ValidatedValue::Nullable(Some(c)) => b > 0 && fits(src, c@, (b - 1) as nat, json),
        ValidatedValue::Model(_) => (model_entries(src[v as int]).len() > 0 ==> b > 0) && forall|j: int|
            #![trigger model_entries(src[v as int])[j]]
            0 <= j < model_entries(src[v as int]).len() ==> fits(
                src,
                model_entries(src[v as int])[j].1@,
                (b - 1) as nat,
                json,
            ),
        ValidatedValue::Sequence(items) => (items@.len() > 0 ==> b > 0) && forall|j: int|
            #![trigger items@[j]]
            0 <= j < items@.len() ==> fits(src, items@[j]@, (b - 1) as nat, json),
        ValidatedValue::Tuple(items) => (items@.len() > 0 ==> b > 0) && forall|j: int|
            #![trigger items@[j]]
            0 <= j < items@.len() ==> fits(src, items@[j]@, (b - 1) as nat, json),
        ValidatedValue::MutableSet(items) => (items@.len() > 0 ==> b > 0) && forall|j: int|
            #![trigger items@[j]]
            0 <= j < items@.len() ==> fits(src, items@[j]@, (b - 1) as nat, json),
        ValidatedValue::FrozenSet(items) => (items@.len() > 0 ==> b > 0) && forall|j: int|
            #![trigger items@[j]]
            0 <= j < items@.len() ==> fits(src, items@[j]@, (b - 1) as nat, json),
        ValidatedValue::Mapping(pairs) => (pairs@.len() > 0 ==> b > 0) && forall|j: int|
            #![trigger pairs@[j]]
            0 <= j < pairs@.len() ==> (if json {
                key_fits(src, pairs@[j].0@, (b - 1) as nat)
            } else {
                fits(src, pairs@[j].0@, (b - 1) as nat, json)
            }) && fits(src, pairs@[j].1@, (b - 1) as nat, json),
        _ => true,
    }
}

/// Every id that a value refers to lies below `bound`.
pub open spec fn children_below(value: ValidatedValue, bound: nat) -> bool {
    match wrapped(value) {
        Some(c) => c@ < bound,
        None => match value {
            ValidatedValue::Model(_) => forall|j: int|
                0 <= j < model_entries(value).len() ==> (#[trigger] model_entries(value)[j]).1@ < bound,
            ValidatedValue::Sequence(items) => forall|j: int| 0 <= j < items@.len() ==> (#[trigger] items@[j])@ < bound,
            ValidatedValue::Tuple(items) => forall|j: int| 0 <= j < items@.len() ==> (#[trigger] items@[j])@ < bound,
            ValidatedValue::MutableSet(items) => forall|j: int|
                0 <= j < items@.len() ==> (#[trigger] items@[j])@ < bound,
            ValidatedValue::FrozenSet(items) => forall|j: int|
                0 <= j < items@.len() ==> (#[trigger] items@[j])@ < bound,
            ValidatedValue::Mapping(pairs) => forall|j: int|
                0 <= j < pairs@.len() ==> (#[trigger] pairs@[j]).0@ < bound && pairs@[j].1@ < bound,
            _ => true,
        },
    }
}

/// Every value refers only to values stored before it, as validation
/// stores them.
pub open spec fn refers_to_earlier(src: Seq<ValidatedValue>) -> bool {
    forall|v: int| 0 <= v < src.len() ==> children_below(#[trigger] src[v], v as nat)
}

// ---------------------------------------------------------------------------
// Correspondence survives a longer output and a larger budget
// ---------------------------------------------------------------------------

/// `out` is a prefix of `out2`.
pub open spec fn extends(out: Seq<InputNode>, out2: Seq<InputNode>) -> bool {
    out.len() <= out2.len() && forall|k: int| 0 <= k < out.len() ==> out2[k] == out[k]
}

proof fn lemma_key_grow<F: Fn(u64) -> String, G: Fn(u64, u64) -> String>(
    src: Seq<ValidatedValue>,
    k: nat,
    text: Seq<char>,
    b: nat,
    b2: nat,
    ff: F,
    gf: G,
)
    requires
        b <= b2,
        key_corresponds(src, k, text, b, ff, gf),
    ensures
        key_corresponds(src, k, text, b2, ff, gf),
    decreases b,
{
    if let Some(c) = wrapped(src[k as int]) {
        lemma_key_grow(src, c@, text, (b - 1) as nat, (b2 - 1) as nat, ff, gf);
    }
}

proof fn lemma_corr_grow<F: Fn(u64) -> String, G: Fn(u64, u64) -> String>(
    src: Seq<ValidatedValue>,
    out: Seq<InputNode>,
    out2: Seq<InputNode>,
    v: nat,
    i: nat,
    b: nat,
    b2: nat,
    json: bool,
    ff: F,
    gf: G,
)
    requires
        extends(out, out2),
        b <= b2,
        corresponds(src, out, v, i, b, json, ff, gf),
    ensures
        corresponds(src, out2, v, i, b2, json, ff, gf),
    decreases b,
{
    assert(out2[i as int] == out[i as int]);
    match src[v as int] {
        ValidatedValue::Enum(e) => {
            lemma_corr_grow(src, out, out2, e.spec_discriminant()@, i, (b - 1) as nat, (b2 - 1) as nat, json, ff, gf);
        },
        ValidatedValue::Union(u) => {
            lemma_corr_grow(src, out, out2, u.spec_value()@, i, (b - 1) as nat, (b2 - 1) as nat, json, ff, gf);
        },
        ValidatedValue::Nullable(Some(c)) => {
            lemma_corr_grow(src, out, out2, c@, i, (b - 1) as nat, (b2 - 1) as nat, json, ff, gf);
        },
        ValidatedValue::Model(_) => {
            let names = model_entries(src[v as int]);
            let entries = out[i as int]->Object_entries;
            assert forall|j: int| #![trigger entries[j]] 0 <= j < entries.len() implies entries[j].0 == names[j].0
                && corresponds(src, out2, names[j].1@, entries[j].1, (b2 - 1) as nat, json, ff, gf) by {
                assert(corresponds(src, out, names[j].1@, entries[j].1, (b - 1) as nat, json, ff, gf));
                lemma_corr_grow(src, out, out2, names[j].1@, entries[j].1, (b - 1) as nat, (b2 - 1) as nat, json, ff, gf);
            }
        },
        ValidatedValue::Sequence(items) => {
            let its = out2[i as int]->Sequence_items;
            assert(its == out[i as int]->Sequence_items);
            assert forall|j: int| #![trigger its[j]] 0 <= j < its.len() implies corresponds(
                src,
                out2,
                items@[j]@,
                its[j],
                (b2 - 1) as nat,
                json,
                ff,
                gf,
            ) by {
                assert(corresponds(src, out, items@[j]@, its[j], (b - 1) as nat, json, ff, gf));
                lemma_corr_grow(src, out, out2, items@[j]@, its[j], (b - 1) as nat, (b2 - 1) as nat, json, ff, gf);
            }
        },
        ValidatedValue::Tuple(items) => {
            let its = out2[i as int]->Sequence_items;
            assert(its == out[i as int]->Sequence_items);
            assert forall|j: int| #![trigger its[j]] 0 <= j < its.len() implies corresponds(
                src,
                out2,
                items@[j]@,
                its[j],
                (b2 - 1) as nat,
                json,
                ff,
                gf,
            ) by {
                assert(corresponds(src, out, items@[j]@, its[j], (b - 1) as nat, json, ff, gf));
                lemma_corr_grow(src, out, out2, items@[j]@, its[j], (b - 1) as nat, (b2 - 1) as nat, json, ff, gf);
            }
        },
        ValidatedValue::MutableSet(items) => {
            let its = out2[i as int]->Sequence_items;
            assert(its == out[i as int]->Sequence_items);
            assert forall|j: int| #![trigger its[j]] 0 <= j < its.len() implies corresponds(
                src,
                out2,
                items@[j]@,
                its[j],
                (b2 - 1) as nat,
                json,
                ff,
                gf,
            ) by {
                assert(corresponds(src, out, items@[j]@, its[j], (b - 1) as nat, json, ff, gf));
                lemma_corr_grow(src, out, out2, items@[j]@, its[j], (b - 1) as nat, (b2 - 1) as nat, json, ff, gf);
            }
        },
        ValidatedValue::FrozenSet(items) => {
            let its = out2[i as int]->Sequence_items;
            assert(its == out[i as int]->Sequence_items);
            assert forall|j: int| #![trigger its[j]] 0 <= j < its.len() implies corresponds(
                src,
                out2,
                items@[j]@,
                its[j],
                (b2 - 1) as nat,
                json,
                ff,
                gf,
            ) by {
                assert(corresponds(src, out, items@[j]@, its[j], (b - 1) as nat, json, ff, gf));
                lemma_corr_grow(src, out, out2, items@[j]@, its[j], (b - 1) as nat, (b2 - 1) as nat, json, ff, gf);
            }
        },
        ValidatedValue::Mapping(pairs) => {
            if json {
                let entries = out[i as int]->Object_entries;
                assert forall|j: int| #![trigger entries[j]] 0 <= j < entries.len() implies key_corresponds(
                    src,
                    pairs@[j].0@,
                    entries[j].0,
                    (b2 - 1) as nat,
                    ff,
                    gf,
                ) && corresponds(src, out2, pairs@[j].1@, entries[j].1, (b2 - 1) as nat, json, ff, gf) by {
                    assert(corresponds(src, out, pairs@[j].1@, entries[j].1, (b - 1) as nat, json, ff, gf));
                    lemma_key_grow(src, pairs@[j].0@, entries[j].0, (b - 1) as nat, (b2 - 1) as nat, ff, gf);
                    lemma_corr_grow(src, out, out2, pairs@[j].1@, entries[j].1, (b - 1) as nat, (b2 - 1) as nat, json, ff, gf);
                }
            } else {
                let ps = out[i as int]->Mapping_0;
                assert forall|j: int| #![trigger ps[j]] 0 <= j < ps.len() implies corresponds(
                    src,
                    out2,
                    pairs@[j].0@,
                    ps[j].0,
                    (b2 - 1) as nat,
                    json,
                    ff,
                    gf,
                ) && corresponds(src, out2, pairs@[j].1@, ps[j].1, (b2 - 1) as nat, json, ff, gf) by {
                    assert(corresponds(src, out, pairs@[j].1@, ps[j].1, (b - 1) as nat, json, ff, gf));
                    lemma_corr_grow(src, out, out2, pairs@[j].0@, ps[j].0, (b - 1) as nat, (b2 - 1) as nat, json, ff, gf);
                    lemma_corr_grow(src, out, out2, pairs@[j].1@, ps[j].1, (b - 1) as nat, (b2 - 1) as nat, json, ff, gf);
                }
            }
        },
        _ => {},
    }
}

/// `text` is the text of JSON mapping key `k` at some depth of wrapping.
pub open spec fn key_denotes<F: Fn(u64) -> String, G: Fn(u64, u64) -> String>(
    src: Seq<ValidatedValue>,
    k: nat,
    text: Seq<char>,
    float_text: F,
    complex_text: G,
) -> bool {
    exists|b: nat| key_corresponds(src, k, text, b, float_text, complex_text)
}

/// Input node `i` of `out` stands for validated value `v` at some depth.
pub open spec fn denotes<F: Fn(u64) -> String, G: Fn(u64, u64) -> String>(
    src: Seq<ValidatedValue>,
    out: Seq<InputNode>,
    v: nat,
    i: nat,
    json: bool,
    float_text: F,
    complex_text: G,
) -> bool {
    exists|b: nat| corresponds(src, out, v, i, b, json, float_text, complex_text)
}

proof fn lemma_denotes_grow<F: Fn(u64) -> String, G: Fn(u64, u64) -> String>(
    src: Seq<ValidatedValue>,
    out: Seq<InputNode>,
    out2: Seq<InputNode>,
    v: nat,
    i: nat,
    json: bool,
    ff: F,
    gf: G,
)
    requires
        extends(out, out2),
        denotes(src, out, v, i, json, ff, gf),
    ensures
        denotes(src, out2, v, i, json, ff, gf),
{
    let b = choose|b: nat| corresponds(src, out, v, i, b, json, ff, gf);
    lemma_corr_grow(src, out, out2, v, i, b, b, json, ff, gf);
}

/// The error that a handoff reports: one `schema_invalid` detail.
pub open spec fn handoff_fault(e: (Seq<DetailView>, bool)) -> bool {
    &&& !e.1
    &&& e.0.len() == 1
    &&& e.0[0].code == "schema_invalid"@
}

proof fn lemma_room(pushed: Set<int>, v: int)
    requires
        pushed.finite(),
        forall|p: int| #[trigger] pushed.contains(p) ==> 0 <= p <= u32::MAX,
        0 <= v <= u32::MAX,
        !pushed.contains(v),
    ensures
        pushed.len() <= u32::MAX,
{
    let full = set_int_range(0, u32::MAX + 1);
    lemma_int_range(0, u32::MAX + 1);
    let rest = full.remove(v);
    assert(rest.len() == full.len() - 1);
    assert(pushed.subset_of(rest));
    lemma_len_subset(pushed, rest);
}

// ---------------------------------------------------------------------------
// Texts
// ---------------------------------------------------------------------------

/// Formats a UUID with uuid's `Uuid::from_bytes` and its `Display`.
/// Trusted: uuid's source writes the hyphenated lower-case form.
#[verifier::external_body]
fn uuid_string(bytes: [u8; 16]) -> (r: String)
    ensures
        r@ == uuid_text(bytes@),
{
    uuid::Uuid::from_bytes(bytes).to_string()
}

/// Reads bytes as text with std's `String::from_utf8`. Trusted: std
/// documents that it accepts exactly the valid UTF-8 byte sequences and
/// keeps their characters.
#[verifier::external_body]
pub(crate) fn utf8_string(bytes: &[u8]) -> (r: Option<String>)
    ensures
        r is Some <==> valid_utf8(bytes@),
        r matches Some(s) ==> s@ == decode_utf8(bytes@),
{
    match String::from_utf8(bytes.to_vec()) {
        Ok(text) => Some(text),
        Err(_) => None,
    }
}

fn date_string(d: &DateValue) -> (r: String)
    ensures
        r@ == date_text(*d),
{
    proof {
        reveal_strlit("-");
    }
    let mut out = padded_text(d.year as u64, 4);
    out.append("-");
    let month = padded_text(d.month as u64, 2);
    out.append(month.as_str());
    out.append("-");
    let day = padded_text(d.day as u64, 2);
    out.append(day.as_str());
    out
}

fn datetime_string(v: &DateTimeValue) -> (r: String)
    ensures
        r@ == datetime_text(*v),
{
    proof {
        reveal_strlit("T");
    }
    let mut out = date_string(&v.date);
    out.append("T");
    let time = time_text(&v.time);
    out.append(time.as_str());
    out
}

fn ratio_string(numerator: &String, denominator: &String) -> (r: String)
    ensures
        r@ == ratio_text(numerator@, denominator@),
{
    proof {
        reveal_strlit("1");
        reveal_strlit("/");
    }
    if str_equal(denominator.as_str(), "1") {
        proof {
            assert("1"@ =~= seq!['1']);
        }
        owned(numerator.as_str())
    } else {
        proof {
            assert("1"@ =~= seq!['1']);
            assert("/"@ =~= seq!['/']);
        }
        let mut out = owned(numerator.as_str());
        out.append("/");
        out.append(denominator.as_str());
        out
    }
}

fn bool_string(b: bool) -> (r: String)
    ensures
        r@ == (if b {
            "true"@
        } else {
            "false"@
        }),
{
    if b {
        owned("true")
    } else {
        owned("false")
    }
}

#[verifier::spinoff_prover]
/// The text of a JSON mapping key: scalars as their text, floats and
/// complex numbers as the formatters write them, bytes when they hold
/// UTF-8, wrappers as what they wrap; keys deeper than the handoff limit,
/// and keys that are null, aggregates or models, are refused.
fn json_key_text<F: Fn(u64) -> String, G: Fn(u64, u64) -> String>(
    source: &ValidatedArena,
    id: ValueId,
    depth: usize,
    float_text: &F,
    complex_text: &G,
) -> (r: Result<String, ValidationError>)
    requires
        forall|x: u64| float_text.requires((x,)),
        forall|x: u64, y: u64| complex_text.requires((x, y)),
    ensures
        r matches Ok(t) ==> key_denotes(source.spec_values(), id@, t@, *float_text, *complex_text),
        depth <= 256 && key_fits(source.spec_values(), id@, (256 - depth) as nat) ==> r is Ok,
        r matches Err(e) ==> handoff_fault(e@),
    decreases 257 - depth,
{
    let ghost src = source.spec_values();
    if depth > 256 {
        return Err(schema_error("Typed chain mapping key exceeds the handoff depth limit", "bounded JSON mapping key"));
    }
    let value = match source.get(id) {
        Some(v) => v,
        None => {
            return Err(schema_error("Typed chain mapping key index is invalid", "valid mapping key"));
        },
    };
    let refused = schema_error("Typed chain output cannot represent this JSON mapping key", "textual JSON mapping key");
    let text = match value {
        ValidatedValue::Bool(b) => bool_string(*b),
        ValidatedValue::ExactInt(t) => owned(t.as_str()),
        ValidatedValue::FixedInt { value: t, .. } => owned(t.as_str()),
        ValidatedValue::Float(x) => {
            let t = float_text(*x);
            proof {
                assert(key_corresponds(src, id@, t@, 0, *float_text, *complex_text));
            }
            t
        },
        ValidatedValue::Decimal(t) => owned(t.as_str()),
        ValidatedValue::Fraction { numerator, denominator } => ratio_string(numerator, denominator),
        ValidatedValue::Complex { real: re, imaginary: im } => {
            let t = complex_text(*re, *im);
            proof {
                assert(key_corresponds(src, id@, t@, 0, *float_text, *complex_text));
            }
            t
        },
        ValidatedValue::String(t) => owned(t.as_str()),
        ValidatedValue::Bytes(bytes) => match utf8_string(bytes.as_slice()) {
            Some(t) => t,
            None => {
                return Err(schema_error("Typed chain JSON mapping key is not valid UTF-8", "textual JSON mapping key"));
            },
        },
        ValidatedValue::Date(d) => date_string(d),
        ValidatedValue::Time(t) => time_text(t),
        ValidatedValue::DateTime(v) => datetime_string(v),
        ValidatedValue::Duration(d) => duration_text(d),
        ValidatedValue::Uuid(u) => uuid_string(*u),
        ValidatedValue::Url(t) => owned(t.as_str()),
        ValidatedValue::MultiHostUrl(t) => owned(t.as_str()),
        ValidatedValue::Pattern { source: pattern, .. } => owned(pattern.as_str()),
        ValidatedValue::Enum(e) => {
            let t = json_key_text(source, e.discriminant(), depth + 1, float_text, complex_text)?;
            proof {
                let b = choose|b: nat| key_corresponds(src, e.spec_discriminant()@, t@, b, *float_text, *complex_text);
                assert(key_corresponds(src, id@, t@, b + 1, *float_text, *complex_text));
            }
            return Ok(t);
        },
        ValidatedValue::Union(u) => {
            let t = json_key_text(source, u.value(), depth + 1, float_text, complex_text)?;
            proof {
                let b = choose|b: nat| key_corresponds(src, u.spec_value()@, t@, b, *float_text, *complex_text);
                assert(key_corresponds(src, id@, t@, b + 1, *float_text, *complex_text));
            }
            return Ok(t);
        },
        ValidatedValue::Nullable(Some(child)) => {
            let t = json_key_text(source, *child, depth + 1, float_text, complex_text)?;
            proof {
                let b = choose|b: nat| key_corresponds(src, child@, t@, b, *float_text, *complex_text);
                assert(key_corresponds(src, id@, t@, b + 1, *float_text, *complex_text));
            }
            return Ok(t);
        },
        _ => {
            return Err(refused);
        },
    };
    proof {
        let b0: nat = 0;
        assert(key_corresponds(src, id@, text@, b0, *float_text, *complex_text));
    }
    Ok(text)
}

// ---------------------------------------------------------------------------
// Handing a validated result on as input
// ---------------------------------------------------------------------------

/// The state of one handoff: the input built so far, the input id each
/// converted value became, and the values being converted.
struct ChainInputBuilder<'a> {
    source: &'a ValidatedArena,
    profile: InputProfile,
    values: Arena<InputValue>,
    converted: BTreeMap<u32, InputId>,
    active: BTreeSet<u32>,
    pushed: Ghost<Set<int>>,
}

impl<'a> ChainInputBuilder<'a> {
    spec fn src(&self) -> Seq<ValidatedValue> {
        self.source.spec_values()
    }

    spec fn out(&self) -> Seq<InputNode> {
        self.values@.map_values(|v: InputValue| v@)
    }

    spec fn json(&self) -> bool {
        self.profile == InputProfile::Json
    }

    /// The input refers backwards; each converted value's input stands for
    /// it; no value being converted has been converted; and the nodes built
    /// are one per converted value that is no wrapper.
    spec fn inv<F: Fn(u64) -> String, G: Fn(u64, u64) -> String>(&self, ff: F, gf: G) -> bool {
        &&& refers_backwards(self.out())
        &&& forall|k: u32| #[trigger]
            self.converted@.contains_key(k) ==> self.converted@[k]@ < self.out().len() && denotes(
                self.src(),
                self.out(),
                k as nat,
                self.converted@[k]@,
                self.json(),
                ff,
                gf,
            )
        &&& forall|k: u32| #[trigger] self.active@.contains(k) ==> !self.converted@.contains_key(k)
        &&& self.pushed@.finite()
        &&& self.out().len() == self.pushed@.len()
        &&& forall|p: int| #[trigger]
            self.pushed@.contains(p) ==> 0 <= p <= u32::MAX && self.converted@.contains_key(p as u32)
    }

    /// Stores a node; the arena's compact range bounds the count.
    fn push(&mut self, value: InputValue) -> (r: Result<InputId, ValidationError>)
        ensures
            final(self).source == old(self).source,
            final(self).profile == old(self).profile,
            final(self).converted == old(self).converted,
            final(self).active == old(self).active,
            final(self).pushed == old(self).pushed,
            r is Ok <==> old(self).out().len() <= u32::MAX,
            r matches Ok(i) ==> i@ == old(self).out().len() && final(self).out() == old(self).out().push(value@),
            r is Err ==> final(self).out() == old(self).out(),
            r matches Err(e) ==> handoff_fault(e@),
    {
        match self.values.push(value) {
            Ok(id) => {
                proof {
                    assert(self.out() =~= old(self).out().push(value@));
                }
                Ok(id)
            },
            Err(_) => Err(schema_error("Typed chain handoff arena capacity exceeded", "bounded typed chain output")),
        }
    }
}

/// A sequence value of the given native kind with the given items.
pub open spec fn sequence_of(value: ValidatedValue, kind: SequenceKind, items: Seq<ValueId>) -> bool {
    match value {
        ValidatedValue::Sequence(v) => kind == SequenceKind::List && v@ == items,
        ValidatedValue::Tuple(v) => kind == SequenceKind::Tuple && v@ == items,
        ValidatedValue::MutableSet(v) => kind == SequenceKind::MutableSet && v@ == items,
        ValidatedValue::FrozenSet(v) => kind == SequenceKind::FrozenSet && v@ == items,
        _ => false,
    }
}

impl<'a> ChainInputBuilder<'a> {
    /// Converts one validated value, reusing the input of a value converted
    /// before and refusing values deeper than the handoff limit, cycles and
    /// ids outside the arena.
    fn convert<F: Fn(u64) -> String, G: Fn(u64, u64) -> String>(
        &mut self,
        id: ValueId,
        depth: usize,
        float_text: &F,
        complex_text: &G,
    ) -> (r: Result<InputId, ValidationError>)
        requires
            old(self).inv(*float_text, *complex_text),
            forall|x: u64| float_text.requires((x,)),
            forall|x: u64, y: u64| complex_text.requires((x, y)),
        ensures
            final(self).inv(*float_text, *complex_text),
            final(self).source == old(self).source,
            final(self).profile == old(self).profile,
            extends(old(self).out(), final(self).out()),
            r is Ok ==> final(self).active@ == old(self).active@,
            r matches Ok(i) ==> i@ < final(self).out().len() && denotes(
                old(self).src(),
                final(self).out(),
                id@,
                i@,
                old(self).json(),
                *float_text,
                *complex_text,
            ),
            refers_to_earlier(old(self).src()) && depth <= 256 && fits(
                old(self).src(),
                id@,
                (256 - depth) as nat,
                old(self).json(),
            ) && (forall|a: u32| old(self).active@.contains(a) ==> id@ < a) ==> r is Ok,
            r matches Err(e) ==> handoff_fault(e@),
        decreases 257 - depth, 2nat,
    {
        let ghost src = self.src();
        let ghost json = self.json();
        let ghost ff = *float_text;
        let ghost gf = *complex_text;
        if depth > 256 {
            return Err(
                schema_error("Typed chain output exceeds the handoff depth limit", "bounded typed chain output"),
            );
        }
        let key = id.raw();
        match self.converted.get(&key) {
            Some(found) => {
                return Ok(*found);
            },
            None => {},
        }
        if !self.active.insert(key) {
            return Err(schema_error("Typed chain output contains a cycle", "acyclic typed chain output"));
        }
        let source = self.source;
        let value = match source.get(id) {
            Some(v) => v,
            None => {
                return Err(schema_error("Typed chain output index is invalid", "valid output"));
            },
        };
        let ghost before = self.out();
        let converted: InputId = match value {
            ValidatedValue::Enum(e) => {
                let c = self.convert(e.discriminant(), depth + 1, float_text, complex_text)?;
                proof {
                    let b = choose|b: nat| corresponds(src, self.out(), e.spec_discriminant()@, c@, b, json, ff, gf);
                    assert(corresponds(src, self.out(), id@, c@, b + 1, json, ff, gf));
                }
                c
            },
            ValidatedValue::Union(u) => {
                let c = self.convert(u.value(), depth + 1, float_text, complex_text)?;
                proof {
                    let b = choose|b: nat| corresponds(src, self.out(), u.spec_value()@, c@, b, json, ff, gf);
                    assert(corresponds(src, self.out(), id@, c@, b + 1, json, ff, gf));
                }
                c
            },
            ValidatedValue::Nullable(Some(child)) => {
                let c = self.convert(*child, depth + 1, float_text, complex_text)?;
                proof {
                    let b = choose|b: nat| corresponds(src, self.out(), child@, c@, b, json, ff, gf);
                    assert(corresponds(src, self.out(), id@, c@, b + 1, json, ff, gf));
                }
                c
            },
            _ => {
                let node = match value {
                    ValidatedValue::Nullable(None) => InputValue::Null,
                    _ => self.convert_value(value, Ghost(id), depth, float_text, complex_text)?,
                };
                let ghost mid = self.out();
                proof {
                    if value is Nullable {
                        assert(corresponds(src, mid.push(node@), id@, mid.len(), 0, json, ff, gf));
                    }
                    assert(self.active@.contains(key));
                    assert(!self.converted@.contains_key(key));
                    assert(!self.pushed@.contains(key as int));
                    lemma_room(self.pushed@, key as int);
                }
                let i = self.push(node)?;
                proof {
                    self.pushed = Ghost(self.pushed@.insert(key as int));
                    assert(extends(mid, self.out()));
                    assert forall|k: u32| #[trigger] self.converted@.contains_key(k) implies self.converted@[k]@
                        < self.out().len() && denotes(src, self.out(), k as nat, self.converted@[k]@, json, ff, gf) by {
                        lemma_denotes_grow(src, mid, self.out(), k as nat, self.converted@[k]@, json, ff, gf);
                    }
                    assert forall|k: int| 0 <= k < self.out().len() implies refs_below(
                        #[trigger] self.out()[k],
                        k as nat,
                    ) by {
                        if k < mid.len() {
                            assert(self.out()[k] == mid[k]);
                        }
                    }
                }
                i
            },
        };
        self.active.remove(&key);
        self.converted.insert(key, converted);
        proof {
            assert(self.active@ =~= old(self).active@);
        }
        Ok(converted)
    }
}

impl<'a> ChainInputBuilder<'a> {
    /// The input node of a validated value that is no wrapper.
    fn convert_value<F: Fn(u64) -> String, G: Fn(u64, u64) -> String>(
        &mut self,
        value: &ValidatedValue,
        Ghost(id): Ghost<ValueId>,
        depth: usize,
        float_text: &F,
        complex_text: &G,
    ) -> (r: Result<InputValue, ValidationError>)
        requires
            old(self).inv(*float_text, *complex_text),
            forall|x: u64| float_text.requires((x,)),
            forall|x: u64, y: u64| complex_text.requires((x, y)),
            id@ < old(self).src().len(),
            depth <= 256,
            *value == old(self).src()[id@ as int],
            wrapped(*value) is None,
            !(*value is Nullable),
        ensures
            final(self).inv(*float_text, *complex_text),
            final(self).source == old(self).source,
            final(self).profile == old(self).profile,
            extends(old(self).out(), final(self).out()),
            r is Ok ==> final(self).active@ == old(self).active@,
            r matches Ok(node) ==> refs_below(node@, final(self).out().len()) && denotes(
                old(self).src(),
                final(self).out().push(node@),
                id@,
                final(self).out().len(),
                old(self).json(),
                *float_text,
                *complex_text,
            ),
            refers_to_earlier(old(self).src()) && fits(old(self).src(), id@, (256 - depth) as nat, old(self).json())
                && (forall|a: u32| old(self).active@.contains(a) ==> id@ <= a) ==> r is Ok,
            r matches Err(e) ==> handoff_fault(e@),
        decreases 257 - depth, 1nat,
    {
        let ghost src = self.src();
        let ghost json = self.json();
        let ghost ff = *float_text;
        let ghost gf = *complex_text;
        let node = match value {
            ValidatedValue::Model(m) => {
                return self.model_input(m, Ghost(id), depth, float_text, complex_text);
            },
            ValidatedValue::Sequence(items) => {
                return self.sequence(items, SequenceKind::List, Ghost(id), depth, float_text, complex_text);
            },
            ValidatedValue::Tuple(items) => {
                return self.sequence(items, SequenceKind::Tuple, Ghost(id), depth, float_text, complex_text);
            },
            ValidatedValue::MutableSet(items) => {
                return self.sequence(items, SequenceKind::MutableSet, Ghost(id), depth, float_text, complex_text);
            },
            ValidatedValue::FrozenSet(items) => {
                return self.sequence(items, SequenceKind::FrozenSet, Ghost(id), depth, float_text, complex_text);
            },
            ValidatedValue::Mapping(pairs) => {
                return self.mapping_input(pairs, Ghost(id), depth, float_text, complex_text);
            },
            ValidatedValue::Enum(_) | ValidatedValue::Union(_) | ValidatedValue::Nullable(_) => {
                return Err(schema_error("Typed chain wrapper was not reduced", "reduced typed chain value"));
            },
            ValidatedValue::Null => InputValue::Null,
            ValidatedValue::Bool(b) => InputValue::Bool(*b),
            ValidatedValue::ExactInt(t) => InputValue::Integer(owned(t.as_str())),
            ValidatedValue::FixedInt { value: t, .. } => InputValue::Integer(owned(t.as_str())),
            ValidatedValue::Float(x) => InputValue::Float(*x),
            ValidatedValue::Decimal(t) => InputValue::Decimal(owned(t.as_str())),
            ValidatedValue::Fraction { numerator, denominator } => InputValue::Fraction {
                numerator: owned(numerator.as_str()),
                denominator: owned(denominator.as_str()),
            },
            ValidatedValue::Complex { real: re, imaginary: im } => InputValue::Complex { real: *re, imaginary: *im },
            ValidatedValue::String(t) => InputValue::String(owned(t.as_str())),
            ValidatedValue::Bytes(b) => InputValue::Bytes(copy_bytes(b.as_slice())),
            ValidatedValue::Date(d) => InputValue::Date(date_string(d)),
            ValidatedValue::Time(t) => InputValue::Time(time_text(t)),
            ValidatedValue::DateTime(v) => InputValue::DateTime(datetime_string(v)),
            ValidatedValue::Duration(d) => InputValue::Duration(duration_text(d)),
            ValidatedValue::Uuid(u) => InputValue::Uuid(uuid_string(*u)),
            ValidatedValue::Url(t) => InputValue::Url(owned(t.as_str())),
            ValidatedValue::MultiHostUrl(t) => InputValue::Url(owned(t.as_str())),
            ValidatedValue::Pattern { source, flags } => InputValue::Pattern {
                source: owned(source.as_str()),
                flags: *flags,
            },
        };
        proof {
            let out2 = self.out().push(node@);
            assert(out2[self.out().len() as int] == node@);
            assert(corresponds(src, out2, id@, self.out().len(), 0, json, ff, gf));
        }
        Ok(node)
    }

    /// A sequence of converted items, of the profile's kind.
    fn sequence<F: Fn(u64) -> String, G: Fn(u64, u64) -> String>(
        &mut self,
        items: &Vec<ValueId>,
        native_kind: SequenceKind,
        Ghost(id): Ghost<ValueId>,
        depth: usize,
        float_text: &F,
        complex_text: &G,
    ) -> (r: Result<InputValue, ValidationError>)
        requires
            old(self).inv(*float_text, *complex_text),
            forall|x: u64| float_text.requires((x,)),
            forall|x: u64, y: u64| complex_text.requires((x, y)),
            id@ < old(self).src().len(),
            depth <= 256,
            sequence_of(old(self).src()[id@ as int], native_kind, items@),
        ensures
            final(self).inv(*float_text, *complex_text),
            final(self).source == old(self).source,
            final(self).profile == old(self).profile,
            extends(old(self).out(), final(self).out()),
            r is Ok ==> final(self).active@ == old(self).active@,
            r matches Ok(node) ==> refs_below(node@, final(self).out().len()) && denotes(
                old(self).src(),
                final(self).out().push(node@),
                id@,
                final(self).out().len(),
                old(self).json(),
                *float_text,
                *complex_text,
            ),
            refers_to_earlier(old(self).src()) && fits(old(self).src(), id@, (256 - depth) as nat, old(self).json())
                && (forall|a: u32| old(self).active@.contains(a) ==> id@ <= a) ==> r is Ok,
            r matches Err(e) ==> handoff_fault(e@),
        decreases 257 - depth, 0nat,
    {
        let ghost src = self.src();
        let ghost json = self.json();
        let ghost ff = *float_text;
        let ghost gf = *complex_text;
        let ghost ok = refers_to_earlier(src) && fits(src, id@, (256 - depth) as nat, json) && (forall|a: u32|
            old(self).active@.contains(a) ==> id@ <= a);
        proof {
            if ok {
                assert(children_below(src[id@ as int], id@));
            }
        }
        let kind = if self.profile == InputProfile::Json {
            SequenceKind::JsonArray
        } else {
            native_kind
        };
        let mut converted: Vec<InputId> = Vec::new();
        let ghost mut bmax: nat = 0;
        let mut k: usize = 0;
        while k < items.len()
            invariant
                self.inv(ff, gf),
                ff == *float_text,
                gf == *complex_text,
                forall|x: u64| float_text.requires((x,)),
                forall|x: u64, y: u64| complex_text.requires((x, y)),
                self.source == old(self).source,
                self.profile == old(self).profile,
                self.active@ == old(self).active@,
                src == self.src(),
                json == self.json(),
                extends(old(self).out(), self.out()),
                id@ < src.len(),
                depth <= 256,
                sequence_of(src[id@ as int], native_kind, items@),
                ok ==> refers_to_earlier(src) && fits(src, id@, (256 - depth) as nat, json) && (forall|a: u32|
                    old(self).active@.contains(a) ==> id@ <= a) && children_below(src[id@ as int], id@),
                k <= items.len(),
                converted@.len() == k,
                forall|j: int|
                    #![trigger converted@[j]]
                    0 <= j < k ==> converted@[j]@ < self.out().len() && corresponds(
                        src,
                        self.out(),
                        items@[j]@,
                        converted@[j]@,
                        bmax,
                        json,
                        ff,
                        gf,
                    ),
            decreases items.len() - k,
        {
            let ghost prev = self.out();
            proof {
                if ok {
                    assert(items@[k as int]@ < id@);
                    assert(fits(src, items@[k as int]@, (256 - (depth + 1)) as nat, json));
                }
            }
            let child = items[k];
            let c = self.convert(child, depth + 1, float_text, complex_text)?;
            proof {
                let bj = choose|b: nat| corresponds(src, self.out(), child@, c@, b, json, ff, gf);
                let newmax: nat = if bj > bmax {
                    bj
                } else {
                    bmax
                };
                assert forall|j: int| #![trigger converted@[j]] 0 <= j < k implies converted@[j]@ < self.out().len()
                    && corresponds(src, self.out(), items@[j]@, converted@[j]@, newmax, json, ff, gf) by {
                    lemma_corr_grow(src, prev, self.out(), items@[j]@, converted@[j]@, bmax, newmax, json, ff, gf);
                }
                lemma_corr_grow(src, self.out(), self.out(), child@, c@, bj, newmax, json, ff, gf);
                bmax = newmax;
            }
            converted.push(c);
            k = k + 1;
        }
        let ghost its = converted@.map_values(|c: InputId| c@);
        let node = InputValue::Sequence { kind, items: converted };
        proof {
            let out = self.out();
            let out2 = out.push(node@);
            assert(extends(out, out2));
            assert(node@->Sequence_items == its);
            assert forall|j: int| #![trigger its[j]] 0 <= j < its.len() implies corresponds(
                src,
                out2,
                items@[j]@,
                its[j],
                bmax,
                json,
                ff,
                gf,
            ) by {
                assert(its[j] == converted@[j]@);
                lemma_corr_grow(src, out, out2, items@[j]@, its[j], bmax, bmax, json, ff, gf);
            }
            assert(corresponds(src, out2, id@, out.len(), bmax + 1, json, ff, gf));
            assert forall|j: int| 0 <= j < its.len() implies #[trigger] its[j] < out.len() by {
                assert(its[j] == converted@[j]@);
            }
        }
        Ok(node)
    }
}

impl<'a> ChainInputBuilder<'a> {
    /// An object of a model's fields and then its extra entries.
    fn model_input<F: Fn(u64) -> String, G: Fn(u64, u64) -> String>(
        &mut self,
        model: &ModelValue,
        Ghost(id): Ghost<ValueId>,
        depth: usize,
        float_text: &F,
        complex_text: &G,
    ) -> (r: Result<InputValue, ValidationError>)
        requires
            old(self).inv(*float_text, *complex_text),
            forall|x: u64| float_text.requires((x,)),
            forall|x: u64, y: u64| complex_text.requires((x, y)),
            id@ < old(self).src().len(),
            depth <= 256,
            old(self).src()[id@ as int] == ValidatedValue::Model(*model),
        ensures
            final(self).inv(*float_text, *complex_text),
            final(self).source == old(self).source,
            final(self).profile == old(self).profile,
            extends(old(self).out(), final(self).out()),
            r is Ok ==> final(self).active@ == old(self).active@,
            r matches Ok(node) ==> refs_below(node@, final(self).out().len()) && denotes(
                old(self).src(),
                final(self).out().push(node@),
                id@,
                final(self).out().len(),
                old(self).json(),
                *float_text,
                *complex_text,
            ),
            refers_to_earlier(old(self).src()) && fits(old(self).src(), id@, (256 - depth) as nat, old(self).json())
                && (forall|a: u32| old(self).active@.contains(a) ==> id@ <= a) ==> r is Ok,
            r matches Err(e) ==> handoff_fault(e@),
        decreases 257 - depth, 0nat,
    {
        let ghost src = self.src();
        let ghost json = self.json();
        let ghost ff = *float_text;
        let ghost gf = *complex_text;
        let ghost names = model_entries(src[id@ as int]);
        let ghost ok = refers_to_earlier(src) && fits(src, id@, (256 - depth) as nat, json) && (forall|a: u32|
            old(self).active@.contains(a) ==> id@ <= a);
        proof {
            if ok {
                assert(children_below(src[id@ as int], id@));
            }
        }
        let fields = model.fields();
        let extras = model.extras();
        let ghost nf = fields@.len();
        proof {
            assert(names.len() == fields@.len() + extras@.len());
            assert forall|j: int| 0 <= j < nf implies #[trigger] names[j] == (fields@[j].0@, fields@[j].1) by {}
            assert forall|j: int| 0 <= j < extras@.len() implies #[trigger] names[nf + j] == (
                extras@[j].0@,
                extras@[j].1,
            ) by {}
        }
        let mut entries: Vec<(String, InputId)> = Vec::new();
        let ghost mut bmax: nat = 0;
        let mut k: usize = 0;
        while k < fields.len()
            invariant
                self.inv(ff, gf),
                ff == *float_text,
                gf == *complex_text,
                forall|x: u64| float_text.requires((x,)),
                forall|x: u64, y: u64| complex_text.requires((x, y)),
                self.source == old(self).source,
                self.profile == old(self).profile,
                self.active@ == old(self).active@,
                src == self.src(),
                json == self.json(),
                extends(old(self).out(), self.out()),
                id@ < src.len(),
                depth <= 256,
                src[id@ as int] == ValidatedValue::Model(*model),
                names == model_entries(src[id@ as int]),
                fields@ == model.spec_fields(),
                extras@ == model.spec_extras(),
                nf == fields@.len(),
                names.len() == nf + extras@.len(),
                forall|j: int| 0 <= j < nf ==> #[trigger] names[j] == (fields@[j].0@, fields@[j].1),
                ok ==> refers_to_earlier(src) && fits(src, id@, (256 - depth) as nat, json) && (forall|a: u32|
                    old(self).active@.contains(a) ==> id@ <= a) && children_below(src[id@ as int], id@),
                k <= fields.len(),
                entries@.len() == k,
                forall|j: int|
                    #![trigger entries@[j]]
                    0 <= j < k ==> entries@[j].1@ < self.out().len() && entries@[j].0@ == names[j].0 && corresponds(
                        src,
                        self.out(),
                        names[j].1@,
                        entries@[j].1@,
                        bmax,
                        json,
                        ff,
                        gf,
                    ),
            decreases fields.len() - k,
        {
            let ghost prev = self.out();
            let (name, child) = fields[k];
            proof {
                assert(names[k as int] == (fields@[k as int].0@, fields@[k as int].1));
                assert(child == names[k as int].1);
                if ok {
                    assert(names[k as int].1@ < id@);
                    assert(fits(src, names[k as int].1@, (256 - (depth + 1)) as nat, json));
                }
            }
            let c = self.convert(child, depth + 1, float_text, complex_text)?;
            proof {
                let bj = choose|b: nat| corresponds(src, self.out(), child@, c@, b, json, ff, gf);
                let newmax: nat = if bj > bmax {
                    bj
                } else {
                    bmax
                };
                assert forall|j: int| #![trigger entries@[j]] 0 <= j < k implies entries@[j].1@ < self.out().len()
                    && entries@[j].0@ == names[j].0 && corresponds(
                    src,
                    self.out(),
                    names[j].1@,
                    entries@[j].1@,
                    newmax,
                    json,
                    ff,
                    gf,
                ) by {
                    lemma_corr_grow(src, prev, self.out(), names[j].1@, entries@[j].1@, bmax, newmax, json, ff, gf);
                }
                lemma_corr_grow(src, self.out(), self.out(), child@, c@, bj, newmax, json, ff, gf);
                bmax = newmax;
            }
            entries.push((owned(name), c));
            k = k + 1;
        }
        let mut x: usize = 0;
        while x < extras.len()
            invariant
                self.inv(ff, gf),
                ff == *float_text,
                gf == *complex_text,
                forall|x: u64| float_text.requires((x,)),
                forall|x: u64, y: u64| complex_text.requires((x, y)),
                self.source == old(self).source,
                self.profile == old(self).profile,
                self.active@ == old(self).active@,
                src == self.src(),
                json == self.json(),
                extends(old(self).out(), self.out()),
                id@ < src.len(),
                depth <= 256,
                src[id@ as int] == ValidatedValue::Model(*model),
                names == model_entries(src[id@ as int]),
                fields@ == model.spec_fields(),
                extras@ == model.spec_extras(),
                nf == fields@.len(),
                names.len() == nf + extras@.len(),
                forall|j: int| 0 <= j < extras@.len() ==> #[trigger] names[nf + j] == (extras@[j].0@, extras@[j].1),
                ok ==> refers_to_earlier(src) && fits(src, id@, (256 - depth) as nat, json) && (forall|a: u32|
                    old(self).active@.contains(a) ==> id@ <= a) && children_below(src[id@ as int], id@),
                x <= extras.len(),
                entries@.len() == nf + x,
                forall|j: int|
                    #![trigger entries@[j]]
                    0 <= j < nf + x ==> entries@[j].1@ < self.out().len() && entries@[j].0@ == names[j].0
                        && corresponds(src, self.out(), names[j].1@, entries@[j].1@, bmax, json, ff, gf),
            decreases extras.len() - x,
        {
            let ghost prev = self.out();
            proof {
                assert(names[nf + x] == (extras@[x as int].0@, extras@[x as int].1));
                if ok {
                    assert(names[nf + x].1@ < id@);
                    assert(fits(src, names[nf + x].1@, (256 - (depth + 1)) as nat, json));
                }
            }
            let child = extras[x].1;
            let c = self.convert(child, depth + 1, float_text, complex_text)?;
            proof {
                let bj = choose|b: nat| corresponds(src, self.out(), child@, c@, b, json, ff, gf);
                let newmax: nat = if bj > bmax {
                    bj
                } else {
                    bmax
                };
                assert forall|j: int| #![trigger entries@[j]] 0 <= j < nf + x implies entries@[j].1@ < self.out().len()
                    && entries@[j].0@ == names[j].0 && corresponds(
                    src,
                    self.out(),
                    names[j].1@,
                    entries@[j].1@,
                    newmax,
                    json,
                    ff,
                    gf,
                ) by {
                    lemma_corr_grow(src, prev, self.out(), names[j].1@, entries@[j].1@, bmax, newmax, json, ff, gf);
                }
                lemma_corr_grow(src, self.out(), self.out(), child@, c@, bj, newmax, json, ff, gf);
                bmax = newmax;
            }
            entries.push((owned(extras[x].0.as_str()), c));
            x = x + 1;
        }
        let ghost view_entries = entries@.map_values(|e: (String, InputId)| (e.0@, e.1@));
        let kind = if self.profile == InputProfile::Json {
            ObjectKind::JsonObject
        } else {
            ObjectKind::Object
        };
        let node = InputValue::Object { kind, entries };
        proof {
            let out = self.out();
            let out2 = out.push(node@);
            assert(extends(out, out2));
            assert(node@->Object_entries == view_entries);
            assert forall|j: int| #![trigger view_entries[j]] 0 <= j < view_entries.len() implies view_entries[j].0
                == names[j].0 && corresponds(src, out2, names[j].1@, view_entries[j].1, bmax, json, ff, gf) by {
                assert(view_entries[j] == (entries@[j].0@, entries@[j].1@));
                lemma_corr_grow(src, out, out2, names[j].1@, view_entries[j].1, bmax, bmax, json, ff, gf);
            }
            assert(corresponds(src, out2, id@, out.len(), bmax + 1, json, ff, gf));
            assert forall|j: int| 0 <= j < view_entries.len() implies (#[trigger] view_entries[j]).1 < out.len() by {
                assert(view_entries[j] == (entries@[j].0@, entries@[j].1@));
            }
        }
        Ok(node)
    }
}

impl<'a> ChainInputBuilder<'a> {
    /// A mapping as a JSON object keyed by its keys' text under the JSON
    /// profile, else as a mapping of converted keys and values.
    fn mapping_input<F: Fn(u64) -> String, G: Fn(u64, u64) -> String>(
        &mut self,
        pairs: &Vec<(ValueId, ValueId)>,
        Ghost(id): Ghost<ValueId>,
        depth: usize,
        float_text: &F,
        complex_text: &G,
    ) -> (r: Result<InputValue, ValidationError>)
        requires
            old(self).inv(*float_text, *complex_text),
            forall|x: u64| float_text.requires((x,)),
            forall|x: u64, y: u64| complex_text.requires((x, y)),
            id@ < old(self).src().len(),
            depth <= 256,
            old(self).src()[id@ as int] matches ValidatedValue::Mapping(v) && v@ == pairs@,
        ensures
            final(self).inv(*float_text, *complex_text),
            final(self).source == old(self).source,
            final(self).profile == old(self).profile,
            extends(old(self).out(), final(self).out()),
            r is Ok ==> final(self).active@ == old(self).active@,
            r matches Ok(node) ==> refs_below(node@, final(self).out().len()) && denotes(
                old(self).src(),
                final(self).out().push(node@),
                id@,
                final(self).out().len(),
                old(self).json(),
                *float_text,
                *complex_text,
            ),
            refers_to_earlier(old(self).src()) && fits(old(self).src(), id@, (256 - depth) as nat, old(self).json())
                && (forall|a: u32| old(self).active@.contains(a) ==> id@ <= a) ==> r is Ok,
            r matches Err(e) ==> handoff_fault(e@),
        decreases 257 - depth, 0nat,
    {
        let ghost src = self.src();
        let ghost json = self.json();
        let ghost ff = *float_text;
        let ghost gf = *complex_text;
        let ghost ok = refers_to_earlier(src) && fits(src, id@, (256 - depth) as nat, json) && (forall|a: u32|
            old(self).active@.contains(a) ==> id@ <= a);
        proof {
            if ok {
                assert(children_below(src[id@ as int], id@));
            }
        }
        let ghost mut bmax: nat = 0;
        let mut k: usize = 0;
        if self.profile == InputProfile::Json {
            let mut entries: Vec<(String, InputId)> = Vec::new();
            while k < pairs.len()
                invariant
                self.inv(ff, gf),
                ff == *float_text,
                gf == *complex_text,
                forall|x: u64| float_text.requires((x,)),
                forall|x: u64, y: u64| complex_text.requires((x, y)),
                self.source == old(self).source,
                self.profile == old(self).profile,
                self.active@ == old(self).active@,
                src == self.src(),
                json == self.json(),
                extends(old(self).out(), self.out()),
                id@ < src.len(),
                depth <= 256,
                src[id@ as int] matches ValidatedValue::Mapping(v) && v@ == pairs@,
                ok ==> refers_to_earlier(src) && fits(src, id@, (256 - depth) as nat, json) && (forall|a: u32|
                    old(self).active@.contains(a) ==> id@ <= a) && children_below(src[id@ as int], id@),
                k <= pairs.len(),
                    json,
                    entries@.len() == k,
                    forall|j: int|
                        #![trigger entries@[j]]
                        0 <= j < k ==> entries@[j].1@ < self.out().len() && key_corresponds(
                            src,
                            pairs@[j].0@,
                            entries@[j].0@,
                            bmax,
                            ff,
                            gf,
                        ) && corresponds(src, self.out(), pairs@[j].1@, entries@[j].1@, bmax, json, ff, gf),
                decreases pairs.len() - k,
            {
                let ghost prev = self.out();
                let (key, value) = pairs[k];
                proof {
                    if ok {
                        assert(key@ < id@ && value@ < id@);
                        assert(key_fits(src, key@, (256 - (depth + 1)) as nat));
                        assert(fits(src, value@, (256 - (depth + 1)) as nat, json));
                    }
                }
                let text = json_key_text(self.source, key, depth + 1, float_text, complex_text)?;
                let c = self.convert(value, depth + 1, float_text, complex_text)?;
                proof {
                    let bk = choose|b: nat| key_corresponds(src, key@, text@, b, ff, gf);
                    let bj = choose|b: nat| corresponds(src, self.out(), value@, c@, b, json, ff, gf);
                    let m1: nat = if bj > bmax {
                        bj
                    } else {
                        bmax
                    };
                    let newmax: nat = if bk > m1 {
                        bk
                    } else {
                        m1
                    };
                    assert forall|j: int| #![trigger entries@[j]] 0 <= j < k implies entries@[j].1@ < self.out().len()
                        && key_corresponds(src, pairs@[j].0@, entries@[j].0@, newmax, ff, gf) && corresponds(
                        src,
                        self.out(),
                        pairs@[j].1@,
                        entries@[j].1@,
                        newmax,
                        json,
                        ff,
                        gf,
                    ) by {
                        lemma_key_grow(src, pairs@[j].0@, entries@[j].0@, bmax, newmax, ff, gf);
                        lemma_corr_grow(src, prev, self.out(), pairs@[j].1@, entries@[j].1@, bmax, newmax, json, ff, gf);
                    }
                    lemma_key_grow(src, key@, text@, bk, newmax, ff, gf);
                    lemma_corr_grow(src, self.out(), self.out(), value@, c@, bj, newmax, json, ff, gf);
                    bmax = newmax;
                }
                entries.push((text, c));
                k = k + 1;
            }
            let ghost view_entries = entries@.map_values(|e: (String, InputId)| (e.0@, e.1@));
            let node = InputValue::Object { kind: ObjectKind::JsonObject, entries };
            proof {
                let out = self.out();
                let out2 = out.push(node@);
                assert(extends(out, out2));
                assert(node@->Object_entries == view_entries);
                assert forall|j: int| #![trigger view_entries[j]] 0 <= j < view_entries.len() implies key_corresponds(
                    src,
                    pairs@[j].0@,
                    view_entries[j].0,
                    bmax,
                    ff,
                    gf,
                ) && corresponds(src, out2, pairs@[j].1@, view_entries[j].1, bmax, json, ff, gf) by {
                    assert(view_entries[j] == (entries@[j].0@, entries@[j].1@));
                    lemma_corr_grow(src, out, out2, pairs@[j].1@, view_entries[j].1, bmax, bmax, json, ff, gf);
                }
                assert(corresponds(src, out2, id@, out.len(), bmax + 1, json, ff, gf));
                assert forall|j: int| 0 <= j < view_entries.len() implies (#[trigger] view_entries[j]).1 < out.len() by {
                    assert(view_entries[j] == (entries@[j].0@, entries@[j].1@));
                }
            }
            Ok(node)
        } else {
            let mut converted: Vec<(InputId, InputId)> = Vec::new();
            while k < pairs.len()
                invariant
                self.inv(ff, gf),
                ff == *float_text,
                gf == *complex_text,
                forall|x: u64| float_text.requires((x,)),
                forall|x: u64, y: u64| complex_text.requires((x, y)),
                self.source == old(self).source,
                self.profile == old(self).profile,
                self.active@ == old(self).active@,
                src == self.src(),
                json == self.json(),
                extends(old(self).out(), self.out()),
                id@ < src.len(),
                depth <= 256,
                src[id@ as int] matches ValidatedValue::Mapping(v) && v@ == pairs@,
                ok ==> refers_to_earlier(src) && fits(src, id@, (256 - depth) as nat, json) && (forall|a: u32|
                    old(self).active@.contains(a) ==> id@ <= a) && children_below(src[id@ as int], id@),
                k <= pairs.len(),
                    !json,
                    converted@.len() == k,
                    forall|j: int|
                        #![trigger converted@[j]]
                        0 <= j < k ==> converted@[j].0@ < self.out().len() && converted@[j].1@ < self.out().len()
                            && corresponds(src, self.out(), pairs@[j].0@, converted@[j].0@, bmax, json, ff, gf)
                            && corresponds(src, self.out(), pairs@[j].1@, converted@[j].1@, bmax, json, ff, gf),
                decreases pairs.len() - k,
            {
                let ghost prev = self.out();
                let (key, value) = pairs[k];
                proof {
                    if ok {
                        assert(key@ < id@ && value@ < id@);
                        assert(fits(src, key@, (256 - (depth + 1)) as nat, json));
                        assert(fits(src, value@, (256 - (depth + 1)) as nat, json));
                    }
                }
                let ck = self.convert(key, depth + 1, float_text, complex_text)?;
                let ghost mid = self.out();
                let cv = self.convert(value, depth + 1, float_text, complex_text)?;
                proof {
                    let bk = choose|b: nat| corresponds(src, mid, key@, ck@, b, json, ff, gf);
                    let bj = choose|b: nat| corresponds(src, self.out(), value@, cv@, b, json, ff, gf);
                    let m1: nat = if bj > bmax {
                        bj
                    } else {
                        bmax
                    };
                    let newmax: nat = if bk > m1 {
                        bk
                    } else {
                        m1
                    };
                    assert forall|j: int| #![trigger converted@[j]] 0 <= j < k implies converted@[j].0@ < self.out().len()
                        && converted@[j].1@ < self.out().len() && corresponds(
                        src,
                        self.out(),
                        pairs@[j].0@,
                        converted@[j].0@,
                        newmax,
                        json,
                        ff,
                        gf,
                    ) && corresponds(src, self.out(), pairs@[j].1@, converted@[j].1@, newmax, json, ff, gf) by {
                        lemma_corr_grow(src, prev, self.out(), pairs@[j].0@, converted@[j].0@, bmax, newmax, json, ff, gf);
                        lemma_corr_grow(src, prev, self.out(), pairs@[j].1@, converted@[j].1@, bmax, newmax, json, ff, gf);
                    }
                    lemma_corr_grow(src, mid, self.out(), key@, ck@, bk, newmax, json, ff, gf);
                    lemma_corr_grow(src, self.out(), self.out(), value@, cv@, bj, newmax, json, ff, gf);
                    bmax = newmax;
                }
                converted.push((ck, cv));
                k = k + 1;
            }
            let ghost ps = converted@.map_values(|e: (InputId, InputId)| (e.0@, e.1@));
            let node = InputValue::Mapping(converted);
            proof {
                let out = self.out();
                let out2 = out.push(node@);
                assert(extends(out, out2));
                assert(node@->Mapping_0 == ps);
                assert forall|j: int| #![trigger ps[j]] 0 <= j < ps.len() implies corresponds(
                    src,
                    out2,
                    pairs@[j].0@,
                    ps[j].0,
                    bmax,
                    json,
                    ff,
                    gf,
                ) && corresponds(src, out2, pairs@[j].1@, ps[j].1, bmax, json, ff, gf) by {
                    assert(ps[j] == (converted@[j].0@, converted@[j].1@));
                    lemma_corr_grow(src, out, out2, pairs@[j].0@, ps[j].0, bmax, bmax, json, ff, gf);
                    lemma_corr_grow(src, out, out2, pairs@[j].1@, ps[j].1, bmax, bmax, json, ff, gf);
                }
                assert(corresponds(src, out2, id@, out.len(), bmax + 1, json, ff, gf));
                assert forall|j: int| 0 <= j < ps.len() implies (#[trigger] ps[j]).0 < out.len() && ps[j].1 < out.len() by {
                    assert(ps[j] == (converted@[j].0@, converted@[j].1@));
                }
            }
            Ok(node)
        }
    }
}

/// Hands a validated result on as the input of the next step of a typed
/// chain: each value becomes the input node that stands for it, values
/// shared in the result are converted once, and under the JSON profile
/// sequences become JSON arrays, models and mappings JSON objects, with
/// mapping keys written as text. Floats and complex numbers used as JSON
/// mapping keys are written by the given formatters. Results nested deeper
/// than the handoff limit, cyclic results, ids outside the arena and keys
/// that cannot be written as text are refused.
pub fn validated_input<F: Fn(u64) -> String, G: Fn(u64, u64) -> String>(
    source: &ValidatedArena,
    profile: InputProfile,
    float_text: &F,
    complex_text: &G,
) -> (r: Result<InputArena, ValidationError>)
    requires
        forall|x: u64| float_text.requires((x,)),
        forall|x: u64, y: u64| complex_text.requires((x, y)),
    ensures
        r matches Ok(arena) ==> denotes(
            source.spec_values(),
            arena.spec_nodes(),
            source.spec_root()@,
            arena.spec_root(),
            profile == InputProfile::Json,
            *float_text,
            *complex_text,
        ),
        refers_to_earlier(source.spec_values()) && fits(
            source.spec_values(),
            source.spec_root()@,
            256,
            profile == InputProfile::Json,
        ) ==> r is Ok,
        r matches Err(e) ==> handoff_fault(e@),
{
    let mut builder = ChainInputBuilder {
        source,
        profile,
        values: Arena::new(),
        converted: BTreeMap::new(),
        active: BTreeSet::new(),
        pushed: Ghost(Set::empty()),
    };
    proof {
        assert(builder.out() =~= Seq::<InputNode>::empty());
    }
    let root = builder.convert(source.root(), 0, float_text, complex_text)?;
    Ok(InputArena::from_parts(root, builder.values))
}

} // verus!
