use vstd::prelude::*;

use crate::arena::{Arena, ArenaError};
use crate::input::{
    refers_backwards, refs_below, usable_native_limits, validate_native_limits, InputArena, InputId, InputNode,
    InputValue, JsonLimits, NativeInputError, ObjectKind, SequenceKind,
};
use crate::text::{copy_bytes, utf8_bytes};

verus! {

/// Crate-neutral structural input. Floating-point numbers are held as their
/// IEEE 754 bit patterns.
#[derive(Debug)]
pub enum NativeValue {
    Null,
    Bool(bool),
    Integer(String),
    Float(u64),
    Decimal(String),
    Complex { real: u64, imaginary: u64 },
    String(String),
    Bytes(Vec<u8>),
    Date(String),
    Time(String),
    DateTime(String),
    Duration(String),
    Uuid(String),
    Url(String),
    Pattern { source: String, flags: u8 },
    Fraction { numerator: String, denominator: String },
    List(Vec<NativeValue>),
    Tuple(Vec<NativeValue>),
    MutableSet(Vec<NativeValue>),
    FrozenSet(Vec<NativeValue>),
    Object(Vec<(String, NativeValue)>),
    Mapping(Vec<(NativeValue, NativeValue)>),
}

// ---------------------------------------------------------------------------
// Digit counts
// ---------------------------------------------------------------------------

/// How many leading bytes are a `-`, or also a `+` when `plus` is set.
pub open spec fn sign_prefix(b: Seq<u8>, plus: bool) -> nat
    decreases b.len(),
{
    if b.len() > 0 && (b[0] == 45 || (plus && b[0] == 43)) {
        1 + sign_prefix(b.drop_first(), plus)
    } else {
        0
    }
}

/// The byte length of an integer text without its leading signs.
pub open spec fn unsigned_len(s: Seq<char>, plus: bool) -> nat {
    (utf8_bytes(s).len() - sign_prefix(utf8_bytes(s), plus)) as nat
}

/// The bytes before the first `e` or `E`.
pub open spec fn mantissa(b: Seq<u8>) -> Seq<u8>
    decreases b.len(),
{
    if b.len() == 0 || b[0] == 101 || b[0] == 69 {
        Seq::empty()
    } else {
        seq![b[0]] + mantissa(b.drop_first())
    }
}

/// How many ASCII digits a byte string holds.
pub open spec fn digit_count(b: Seq<u8>) -> nat
    decreases b.len(),
{
    if b.len() == 0 {
        0
    } else {
        (if 48 <= b[0] && b[0] <= 57 { 1nat } else { 0nat }) + digit_count(b.drop_first())
    }
}

/// The digits of a decimal text's mantissa.
pub open spec fn decimal_digits(s: Seq<char>) -> nat {
    digit_count(mantissa(utf8_bytes(s)))
}

fn sign_prefix_exec(b: &[u8], plus: bool) -> (r: usize)
    ensures
        r == sign_prefix(b@, plus),
        r <= b@.len(),
{
    let mut k: usize = 0;
    assert(b@.subrange(0, b@.len() as int) =~= b@);
    while k < b.len() && (b[k] == 45 || (plus && b[k] == 43))
        invariant
            k <= b@.len(),
            sign_prefix(b@, plus) == k + sign_prefix(b@.subrange(k as int, b@.len() as int), plus),
        decreases b@.len() - k,
    {
        let ghost rest = b@.subrange(k as int, b@.len() as int);
        assert(rest.drop_first() =~= b@.subrange(k + 1, b@.len() as int));
        k = k + 1;
    }
    let ghost rest = b@.subrange(k as int, b@.len() as int);
    assert(sign_prefix(rest, plus) == 0);
    k
}

fn decimal_digits_exec(b: &[u8]) -> (r: usize)
    ensures
        r == digit_count(mantissa(b@)),
{
    let mut k: usize = 0;
    let mut count: usize = 0;
    assert(b@.subrange(0, b@.len() as int) =~= b@);
    while k < b.len() && b[k] != 101 && b[k] != 69
        invariant
            k <= b@.len(),
            count <= k,
            digit_count(mantissa(b@)) == count + digit_count(mantissa(b@.subrange(k as int, b@.len() as int))),
        decreases b@.len() - k,
    {
        let ghost rest = b@.subrange(k as int, b@.len() as int);
        assert(rest.drop_first() =~= b@.subrange(k + 1, b@.len() as int));
        assert(mantissa(rest) == seq![rest[0]] + mantissa(rest.drop_first()));
        assert((seq![rest[0]] + mantissa(rest.drop_first())).drop_first() =~= mantissa(rest.drop_first()));
        if b[k] >= 48 && b[k] <= 57 {
            count = count + 1;
        }
        k = k + 1;
    }
    let ghost rest = b@.subrange(k as int, b@.len() as int);
    assert(mantissa(rest) =~= Seq::<u8>::empty());
    count
}

// ---------------------------------------------------------------------------
// The builder model
// ---------------------------------------------------------------------------

/// The nodes built so far and the string bytes counted so far.
pub struct NativeState {
    pub nodes: Seq<InputNode>,
    pub bytes: nat,
}

pub open spec fn limit_fault(kind: &'static str) -> NativeInputError {
    NativeInputError::Limit(kind)
}

/// Counts string bytes against the limit.
pub open spec fn add_bytes(st: NativeState, amount: nat, limits: JsonLimits) -> Result<NativeState, NativeInputError> {
    let total = st.bytes + amount;
    if total > usize::MAX || total > limits.max_string_bytes {
        Err(limit_fault("total string bytes"))
    } else {
        Ok(NativeState { nodes: st.nodes, bytes: total })
    }
}

/// Stores a node and gives its position.
pub open spec fn store(st: NativeState, node: InputNode) -> Result<(NativeState, nat), NativeInputError> {
    if st.nodes.len() > u32::MAX {
        Err(NativeInputError::Arena(ArenaError::CapacityExceeded))
    } else {
        Ok((NativeState { nodes: st.nodes.push(node), bytes: st.bytes }, st.nodes.len()))
    }
}

/// Counts a text's bytes, then stores a node.
pub open spec fn store_text(st: NativeState, text: Seq<char>, node: InputNode, limits: JsonLimits) -> Result<
    (NativeState, nat),
    NativeInputError,
> {
    match add_bytes(st, utf8_bytes(text).len(), limits) {
        Err(e) => Err(e),
        Ok(st2) => store(st2, node),
    }
}

/// Building `v` at `depth` onto the state: children first, each aggregate
/// after its children, in input order.
pub open spec fn spec_push(v: NativeValue, depth: nat, st: NativeState, limits: JsonLimits) -> Result<
    (NativeState, nat),
    NativeInputError,
>
    decreases v, 2nat,
{
    if depth > limits.max_depth {
        Err(limit_fault("maximum depth"))
    } else if st.nodes.len() >= limits.max_nodes {
        Err(limit_fault("maximum node count"))
    } else {
        match v {
            NativeValue::Null => store(st, InputNode::Null),
            NativeValue::Bool(b) => store(st, InputNode::Bool(b)),
            NativeValue::Integer(s) => if unsigned_len(s@, false) > limits.max_integer_digits {
                Err(limit_fault("maximum integer digits"))
            } else {
                store(st, InputNode::Integer(s@))
            },
            NativeValue::Float(bits) => store(st, InputNode::Float(bits)),
            NativeValue::Decimal(s) => if decimal_digits(s@) > limits.max_integer_digits {
                Err(limit_fault("maximum numeric digits"))
            } else {
                store(st, InputNode::Decimal(s@))
            },
            NativeValue::Complex { real: re, imaginary: im } => store(
                st,
                InputNode::Complex { real: re, imaginary: im },
            ),
            NativeValue::String(s) => store_text(st, s@, InputNode::String(s@), limits),
            NativeValue::Bytes(b) => match add_bytes(st, b@.len(), limits) {
                Err(e) => Err(e),
                Ok(st2) => store(st2, InputNode::Bytes(b@)),
            },
            NativeValue::Date(s) => store_text(st, s@, InputNode::Date(s@), limits),
            NativeValue::Time(s) => store_text(st, s@, InputNode::Time(s@), limits),
            NativeValue::DateTime(s) => store_text(st, s@, InputNode::DateTime(s@), limits),
            NativeValue::Duration(s) => store_text(st, s@, InputNode::Duration(s@), limits),
            NativeValue::Uuid(s) => store_text(st, s@, InputNode::Uuid(s@), limits),
            NativeValue::Url(s) => store_text(st, s@, InputNode::Url(s@), limits),
            NativeValue::Pattern { source, flags } => store_text(
                st,
                source@,
                InputNode::Pattern { source: source@, flags },
                limits,
            ),
            NativeValue::Fraction { numerator, denominator } => if unsigned_len(numerator@, true)
                > limits.max_integer_digits || unsigned_len(denominator@, true) > limits.max_integer_digits {
                Err(limit_fault("maximum integer digits"))
            } else {
                store(st, InputNode::Fraction { numerator: numerator@, denominator: denominator@ })
            },
            NativeValue::List(items) => spec_push_sequence(items@, SequenceKind::List, depth, st, limits),
            NativeValue::Tuple(items) => spec_push_sequence(items@, SequenceKind::Tuple, depth, st, limits),
            NativeValue::MutableSet(items) => spec_push_sequence(items@, SequenceKind::MutableSet, depth, st, limits),
            NativeValue::FrozenSet(items) => spec_push_sequence(items@, SequenceKind::FrozenSet, depth, st, limits),
            NativeValue::Object(entries) => spec_push_object(entries@, depth, st, limits),
            NativeValue::Mapping(pairs) => spec_push_mapping(pairs@, depth, st, limits),
        }
    }
}

/// A sequence of any kind: its items, then the sequence node.
pub open spec fn spec_push_sequence(
    items: Seq<NativeValue>,
    kind: SequenceKind,
    depth: nat,
    st: NativeState,
    limits: JsonLimits,
) -> Result<(NativeState, nat), NativeInputError>
    decreases items, 1nat,
{
    if items.len() > limits.max_collection_items {
        Err(limit_fault("maximum collection items"))
    } else {
        match spec_push_items(items, depth + 1, st, limits) {
            Err(e) => Err(e),
            Ok((st2, ids)) => store(st2, InputNode::Sequence { kind, items: ids }),
        }
    }
}

/// An object: its entries, then the object node.
pub open spec fn spec_push_object(
    entries: Seq<(String, NativeValue)>,
    depth: nat,
    st: NativeState,
    limits: JsonLimits,
) -> Result<(NativeState, nat), NativeInputError>
    decreases entries, 1nat,
{
    if entries.len() > limits.max_collection_items {
        Err(limit_fault("maximum collection items"))
    } else {
        match spec_push_entries(entries, depth + 1, st, limits) {
            Err(e) => Err(e),
            Ok((st2, built)) => store(st2, InputNode::Object { kind: ObjectKind::Object, entries: built }),
        }
    }
}

/// A mapping: its pairs, then the mapping node.
pub open spec fn spec_push_mapping(
    pairs: Seq<(NativeValue, NativeValue)>,
    depth: nat,
    st: NativeState,
    limits: JsonLimits,
) -> Result<(NativeState, nat), NativeInputError>
    decreases pairs, 1nat,
{
    if pairs.len() > limits.max_collection_items {
        Err(limit_fault("maximum collection items"))
    } else {
        match spec_push_pairs(pairs, depth + 1, st, limits) {
            Err(e) => Err(e),
            Ok((st2, built)) => store(st2, InputNode::Mapping(built)),
        }
    }
}

/// Builds items in order and collects their positions.
pub open spec fn spec_push_items(items: Seq<NativeValue>, depth: nat, st: NativeState, limits: JsonLimits) -> Result<
    (NativeState, Seq<nat>),
    NativeInputError,
>
    decreases items, 0nat,
{
    if items.len() == 0 {
        Ok((st, Seq::empty()))
    } else {
        match spec_push_items(items.drop_last(), depth, st, limits) {
            Err(e) => Err(e),
            Ok((st1, ids)) => match spec_push(items.last(), depth, st1, limits) {
                Err(e) => Err(e),
                Ok((st2, id)) => Ok((st2, ids.push(id))),
            },
        }
    }
}

/// Builds object entries in order: each key's bytes are counted, then its
/// value is built.
pub open spec fn spec_push_entries(
    entries: Seq<(String, NativeValue)>,
    depth: nat,
    st: NativeState,
    limits: JsonLimits,
) -> Result<(NativeState, Seq<(Seq<char>, nat)>), NativeInputError>
    decreases entries, 0nat,
{
    if entries.len() == 0 {
        Ok((st, Seq::empty()))
    } else {
        match spec_push_entries(entries.drop_last(), depth, st, limits) {
            Err(e) => Err(e),
            Ok((st1, built)) => match spec_entry_step(entries.last(), depth, st1, limits) {
                Err(e) => Err(e),
                Ok((st3, entry)) => Ok((st3, built.push(entry))),
            },
        }
    }
}

/// One object entry: the key's bytes are counted, then the value is built.
pub open spec fn spec_entry_step(entry: (String, NativeValue), depth: nat, st: NativeState, limits: JsonLimits) -> Result<
    (NativeState, (Seq<char>, nat)),
    NativeInputError,
>
    decreases entry, 0nat,
{
    match add_bytes(st, utf8_bytes(entry.0@).len(), limits) {
        Err(e) => Err(e),
        Ok(st2) => match spec_push(entry.1, depth, st2, limits) {
            Err(e) => Err(e),
            Ok((st3, id)) => Ok((st3, (entry.0@, id))),
        },
    }
}

/// One mapping pair: the key is built, then the value.
pub open spec fn spec_pair_step(pair: (NativeValue, NativeValue), depth: nat, st: NativeState, limits: JsonLimits) -> Result<
    (NativeState, (nat, nat)),
    NativeInputError,
>
    decreases pair, 0nat,
{
    match spec_push(pair.0, depth, st, limits) {
        Err(e) => Err(e),
        Ok((st2, k)) => match spec_push(pair.1, depth, st2, limits) {
            Err(e) => Err(e),
            Ok((st3, v)) => Ok((st3, (k, v))),
        },
    }
}

/// Builds mapping pairs in order, each key before its value.
pub open spec fn spec_push_pairs(
    pairs: Seq<(NativeValue, NativeValue)>,
    depth: nat,
    st: NativeState,
    limits: JsonLimits,
) -> Result<(NativeState, Seq<(nat, nat)>), NativeInputError>
    decreases pairs, 0nat,
{
    if pairs.len() == 0 {
        Ok((st, Seq::empty()))
    } else {
        match spec_push_pairs(pairs.drop_last(), depth, st, limits) {
            Err(e) => Err(e),
            Ok((st1, built)) => match spec_pair_step(pairs.last(), depth, st1, limits) {
                Err(e) => Err(e),
                Ok((st3, pair)) => Ok((st3, built.push(pair))),
            },
        }
    }
}

/// The arena that `build_native_input` builds, as its root and nodes, or
/// the error it stops with.
pub open spec fn spec_build_native(value: NativeValue, limits: JsonLimits) -> Result<(nat, Seq<InputNode>), NativeInputError> {
    if !usable_native_limits(limits) {
        Err(limit_fault("limits must be greater than zero"))
    } else {
        match spec_push(value, 0, NativeState { nodes: Seq::empty(), bytes: 0 }, limits) {
            Err(e) => Err(e),
            Ok((st, root)) => Ok((root, st.nodes)),
        }
    }
}

// ---------------------------------------------------------------------------
// Laws of the native builder
// ---------------------------------------------------------------------------

/// The nodes stored before a build step stay in place after it.
pub open spec fn keeps_prefix(before: NativeState, after: NativeState) -> bool {
    &&& before.nodes.len() <= after.nodes.len()
    &&& after.nodes.take(before.nodes.len() as int) == before.nodes
}

pub(crate) proof fn lemma_keeps_trans(a: NativeState, b: NativeState, c: NativeState)
    requires
        keeps_prefix(a, b),
        keeps_prefix(b, c),
    ensures
        keeps_prefix(a, c),
{
    assert(c.nodes.take(a.nodes.len() as int) =~= c.nodes.take(b.nodes.len() as int).take(a.nodes.len() as int));
}

proof fn lemma_keeps_refl(a: NativeState, b: NativeState)
    requires
        a.nodes == b.nodes,
    ensures
        keeps_prefix(a, b),
{
    assert(b.nodes.take(a.nodes.len() as int) =~= a.nodes);
}

proof fn lemma_native_store(st: NativeState, node: InputNode)
    requires
        store(st, node) is Ok,
    ensures
        keeps_prefix(st, store(st, node)->Ok_0.0),
        store(st, node)->Ok_0.1 + 1 == store(st, node)->Ok_0.0.nodes.len(),
{
    assert(store(st, node)->Ok_0.0.nodes.take(st.nodes.len() as int) =~= st.nodes);
}

proof fn lemma_native_text(st: NativeState, text: Seq<char>, node: InputNode, limits: JsonLimits)
    requires
        store_text(st, text, node, limits) is Ok,
    ensures
        keeps_prefix(st, store_text(st, text, node, limits)->Ok_0.0),
        store_text(st, text, node, limits)->Ok_0.1 + 1 == store_text(st, text, node, limits)->Ok_0.0.nodes.len(),
{
    let st2 = add_bytes(st, utf8_bytes(text).len(), limits)->Ok_0;
    lemma_keeps_refl(st, st2);
    lemma_native_store(st2, node);
    lemma_keeps_trans(st, st2, store(st2, node)->Ok_0.0);
}

pub(crate) proof fn lemma_native_push(v: NativeValue, depth: nat, st: NativeState, limits: JsonLimits)
    requires
        spec_push(v, depth, st, limits) is Ok,
    ensures
        keeps_prefix(st, spec_push(v, depth, st, limits)->Ok_0.0),
        spec_push(v, depth, st, limits)->Ok_0.1 + 1 == spec_push(v, depth, st, limits)->Ok_0.0.nodes.len(),
    decreases v, 2nat,
{
    match v {
        NativeValue::Null => lemma_native_store(st, InputNode::Null),
        NativeValue::Bool(b) => lemma_native_store(st, InputNode::Bool(b)),
        NativeValue::Integer(s) => lemma_native_store(st, InputNode::Integer(s@)),
        NativeValue::Float(bits) => lemma_native_store(st, InputNode::Float(bits)),
        NativeValue::Decimal(s) => lemma_native_store(st, InputNode::Decimal(s@)),
        NativeValue::Complex { real: re, imaginary: im } => lemma_native_store(
            st,
            InputNode::Complex { real: re, imaginary: im },
        ),
        NativeValue::String(s) => lemma_native_text(st, s@, InputNode::String(s@), limits),
        NativeValue::Bytes(b) => {
            let st2 = add_bytes(st, b@.len(), limits)->Ok_0;
            lemma_keeps_refl(st, st2);
            lemma_native_store(st2, InputNode::Bytes(b@));
            lemma_keeps_trans(st, st2, store(st2, InputNode::Bytes(b@))->Ok_0.0);
        },
        NativeValue::Date(s) => lemma_native_text(st, s@, InputNode::Date(s@), limits),
        NativeValue::Time(s) => lemma_native_text(st, s@, InputNode::Time(s@), limits),
        NativeValue::DateTime(s) => lemma_native_text(st, s@, InputNode::DateTime(s@), limits),
        NativeValue::Duration(s) => lemma_native_text(st, s@, InputNode::Duration(s@), limits),
        NativeValue::Uuid(s) => lemma_native_text(st, s@, InputNode::Uuid(s@), limits),
        NativeValue::Url(s) => lemma_native_text(st, s@, InputNode::Url(s@), limits),
        NativeValue::Pattern { source, flags } => lemma_native_text(
            st,
            source@,
            InputNode::Pattern { source: source@, flags },
            limits,
        ),
        NativeValue::Fraction { numerator, denominator } => lemma_native_store(
            st,
            InputNode::Fraction { numerator: numerator@, denominator: denominator@ },
        ),
        NativeValue::List(items) => lemma_native_sequence(items@, SequenceKind::List, depth, st, limits),
        NativeValue::Tuple(items) => lemma_native_sequence(items@, SequenceKind::Tuple, depth, st, limits),
        NativeValue::MutableSet(items) => lemma_native_sequence(items@, SequenceKind::MutableSet, depth, st, limits),
        NativeValue::FrozenSet(items) => lemma_native_sequence(items@, SequenceKind::FrozenSet, depth, st, limits),
        NativeValue::Object(entries) => {
            let (st2, built) = spec_push_entries(entries@, depth + 1, st, limits)->Ok_0;
            lemma_native_entries(entries@, depth + 1, st, limits);
            lemma_native_store(st2, InputNode::Object { kind: ObjectKind::Object, entries: built });
            lemma_keeps_trans(st, st2, spec_push(v, depth, st, limits)->Ok_0.0);
        },
        NativeValue::Mapping(pairs) => {
            let (st2, built) = spec_push_pairs(pairs@, depth + 1, st, limits)->Ok_0;
            lemma_native_pairs(pairs@, depth + 1, st, limits);
            lemma_native_store(st2, InputNode::Mapping(built));
            lemma_keeps_trans(st, st2, spec_push(v, depth, st, limits)->Ok_0.0);
        },
    }
}

proof fn lemma_native_sequence(items: Seq<NativeValue>, kind: SequenceKind, depth: nat, st: NativeState, limits: JsonLimits)
    requires
        spec_push_sequence(items, kind, depth, st, limits) is Ok,
    ensures
        keeps_prefix(st, spec_push_sequence(items, kind, depth, st, limits)->Ok_0.0),
        spec_push_sequence(items, kind, depth, st, limits)->Ok_0.1 + 1 == spec_push_sequence(
            items,
            kind,
            depth,
            st,
            limits,
        )->Ok_0.0.nodes.len(),
    decreases items, 1nat,
{
    let (st2, ids) = spec_push_items(items, depth + 1, st, limits)->Ok_0;
    lemma_native_items(items, depth + 1, st, limits);
    lemma_native_store(st2, InputNode::Sequence { kind, items: ids });
    lemma_keeps_trans(st, st2, store(st2, InputNode::Sequence { kind, items: ids })->Ok_0.0);
}

proof fn lemma_native_items(items: Seq<NativeValue>, depth: nat, st: NativeState, limits: JsonLimits)
    requires
        spec_push_items(items, depth, st, limits) is Ok,
    ensures
        keeps_prefix(st, spec_push_items(items, depth, st, limits)->Ok_0.0),
    decreases items, 0nat,
{
    if items.len() > 0 {
        let (st1, ids) = spec_push_items(items.drop_last(), depth, st, limits)->Ok_0;
        lemma_native_items(items.drop_last(), depth, st, limits);
        lemma_native_push(items.last(), depth, st1, limits);
        lemma_keeps_trans(st, st1, spec_push(items.last(), depth, st1, limits)->Ok_0.0);
    } else {
        lemma_keeps_refl(st, st);
    }
}

proof fn lemma_native_entries(entries: Seq<(String, NativeValue)>, depth: nat, st: NativeState, limits: JsonLimits)
    requires
        spec_push_entries(entries, depth, st, limits) is Ok,
    ensures
        keeps_prefix(st, spec_push_entries(entries, depth, st, limits)->Ok_0.0),
    decreases entries, 0nat,
{
    if entries.len() > 0 {
        let (st1, built) = spec_push_entries(entries.drop_last(), depth, st, limits)->Ok_0;
        lemma_native_entries(entries.drop_last(), depth, st, limits);
        let entry = entries.last();
        assert(spec_entry_step(entry, depth, st1, limits) is Ok);
        assert(add_bytes(st1, utf8_bytes(entry.0@).len(), limits) is Ok);
        let st2 = add_bytes(st1, utf8_bytes(entry.0@).len(), limits)->Ok_0;
        assert(spec_push(entry.1, depth, st2, limits) is Ok);
        lemma_keeps_refl(st1, st2);
        lemma_native_push(entry.1, depth, st2, limits);
        lemma_keeps_trans(st1, st2, spec_push(entry.1, depth, st2, limits)->Ok_0.0);
        lemma_keeps_trans(st, st1, spec_push(entry.1, depth, st2, limits)->Ok_0.0);
    } else {
        lemma_keeps_refl(st, st);
    }
}

proof fn lemma_native_pairs(pairs: Seq<(NativeValue, NativeValue)>, depth: nat, st: NativeState, limits: JsonLimits)
    requires
        spec_push_pairs(pairs, depth, st, limits) is Ok,
    ensures
        keeps_prefix(st, spec_push_pairs(pairs, depth, st, limits)->Ok_0.0),
    decreases pairs, 0nat,
{
    if pairs.len() > 0 {
        let (st1, built) = spec_push_pairs(pairs.drop_last(), depth, st, limits)->Ok_0;
        lemma_native_pairs(pairs.drop_last(), depth, st, limits);
        let pair = pairs.last();
        assert(spec_pair_step(pair, depth, st1, limits) is Ok);
        assert(spec_push(pair.0, depth, st1, limits) is Ok);
        lemma_native_push(pair.0, depth, st1, limits);
        let st2 = spec_push(pair.0, depth, st1, limits)->Ok_0.0;
        assert(spec_push(pair.1, depth, st2, limits) is Ok);
        lemma_native_push(pair.1, depth, st2, limits);
        lemma_keeps_trans(st1, st2, spec_push(pair.1, depth, st2, limits)->Ok_0.0);
        lemma_keeps_trans(st, st1, spec_push(pair.1, depth, st2, limits)->Ok_0.0);
    } else {
        lemma_keeps_refl(st, st);
    }
}

/// A native value builds children first: the root is the last value
/// stored, after everything it contains.
pub proof fn law_native_root_is_last(value: NativeValue, limits: JsonLimits)
    requires
        spec_build_native(value, limits) is Ok,
    ensures
        spec_build_native(value, limits)->Ok_0.0 + 1 == spec_build_native(value, limits)->Ok_0.1.len(),
{
    lemma_native_push(value, 0, NativeState { nodes: Seq::empty(), bytes: 0 }, limits);
}

// ---------------------------------------------------------------------------
// The builder
// ---------------------------------------------------------------------------

struct NativeBuilder {
    values: Arena<InputValue>,
    limits: JsonLimits,
    string_bytes: usize,
}

impl NativeBuilder {
    spec fn state(&self) -> NativeState {
        NativeState { nodes: self.values@.map_values(|v: InputValue| v@), bytes: self.string_bytes as nat }
    }

    spec fn sound(&self) -> bool {
        &&& refers_backwards(self.state().nodes)
        &&& self.limits.max_depth <= crate::input::HARD_MAX_DEPTH
    }

    fn add_string_bytes(&mut self, amount: usize) -> (r: Result<(), NativeInputError>)
        ensures
            match add_bytes(old(self).state(), amount as nat, old(self).limits) {
                Err(e) => r == Err::<(), NativeInputError>(e),
                Ok(st) => r is Ok && final(self).state() == st,
            },
            final(self).values@ == old(self).values@,
            final(self).limits == old(self).limits,
    {
        match self.string_bytes.checked_add(amount) {
            None => Err(NativeInputError::Limit("total string bytes")),
            Some(total) => {
                if total > self.limits.max_string_bytes {
                    return Err(NativeInputError::Limit("total string bytes"));
                }
                self.string_bytes = total;
                Ok(())
            },
        }
    }

    fn store(&mut self, value: InputValue) -> (r: Result<InputId, NativeInputError>)
        requires
            refs_below(value@, old(self).values@.len()),
            old(self).sound(),
        ensures
            match store(old(self).state(), value@) {
                Err(e) => r == Err::<InputId, NativeInputError>(e),
                Ok((st, id)) => r matches Ok(x) && x@ == id && final(self).state() == st,
            },
            final(self).limits == old(self).limits,
            final(self).sound(),
            final(self).values@.len() >= old(self).values@.len(),
            r matches Ok(x) ==> x@ < final(self).values@.len(),
    {
        let ghost before = self.values@;
        let r = self.values.push(value);
        match r {
            Ok(id) => {
                proof {
                    let nodes = self.values@.map_values(|v: InputValue| v@);
                    assert(nodes =~= before.map_values(|v: InputValue| v@).push(value@));
                    assert forall|i: int| 0 <= i < nodes.len() implies refs_below(#[trigger] nodes[i], i as nat) by {
                        if i < before.len() {
                            assert(nodes[i] == before.map_values(|v: InputValue| v@)[i]);
                        }
                    }
                }
                Ok(id)
            },
            Err(e) => Err(NativeInputError::Arena(e)),
        }
    }

    fn push(&mut self, value: &NativeValue, depth: usize) -> (r: Result<InputId, NativeInputError>)
        requires
            old(self).sound(),
        ensures
            match spec_push(*value, depth as nat, old(self).state(), old(self).limits) {
                Err(e) => r == Err::<InputId, NativeInputError>(e),
                Ok((st, id)) => r matches Ok(x) && x@ == id && final(self).state() == st,
            },
            final(self).limits == old(self).limits,
            final(self).sound(),
            r matches Ok(x) ==> x@ < final(self).values@.len(),
            final(self).values@.len() >= old(self).values@.len(),
        decreases value, 2nat,
    {
        if depth > self.limits.max_depth {
            return Err(NativeInputError::Limit("maximum depth"));
        }
        if self.values.len() >= self.limits.max_nodes {
            return Err(NativeInputError::Limit("maximum node count"));
        }
        assert(depth <= self.limits.max_depth);
        match value {
            NativeValue::Null => self.store(InputValue::Null),
            NativeValue::Bool(b) => self.store(InputValue::Bool(*b)),
            NativeValue::Integer(s) => {
                let bytes = s.as_str().as_bytes();
                let signs = sign_prefix_exec(bytes, false);
                if bytes.len() - signs > self.limits.max_integer_digits {
                    return Err(NativeInputError::Limit("maximum integer digits"));
                }
                self.store(InputValue::Integer(s.clone()))
            },
            NativeValue::Float(bits) => self.store(InputValue::Float(*bits)),
            NativeValue::Decimal(s) => {
                if decimal_digits_exec(s.as_str().as_bytes()) > self.limits.max_integer_digits {
                    return Err(NativeInputError::Limit("maximum numeric digits"));
                }
                self.store(InputValue::Decimal(s.clone()))
            },
            NativeValue::Complex { real: re, imaginary: im } => self.store(
                InputValue::Complex { real: *re, imaginary: *im },
            ),
            NativeValue::String(s) => {
                self.add_string_bytes(s.as_str().as_bytes().len())?;
                self.store(InputValue::String(s.clone()))
            },
            NativeValue::Bytes(b) => {
                self.add_string_bytes(b.len())?;
                self.store(InputValue::Bytes(copy_bytes(b.as_slice())))
            },
            NativeValue::Date(s) => {
                self.add_string_bytes(s.as_str().as_bytes().len())?;
                self.store(InputValue::Date(s.clone()))
            },
            NativeValue::Time(s) => {
                self.add_string_bytes(s.as_str().as_bytes().len())?;
                self.store(InputValue::Time(s.clone()))
            },
            NativeValue::DateTime(s) => {
                self.add_string_bytes(s.as_str().as_bytes().len())?;
                self.store(InputValue::DateTime(s.clone()))
            },
            NativeValue::Duration(s) => {
                self.add_string_bytes(s.as_str().as_bytes().len())?;
                self.store(InputValue::Duration(s.clone()))
            },
            NativeValue::Uuid(s) => {
                self.add_string_bytes(s.as_str().as_bytes().len())?;
                self.store(InputValue::Uuid(s.clone()))
            },
            NativeValue::Url(s) => {
                self.add_string_bytes(s.as_str().as_bytes().len())?;
                self.store(InputValue::Url(s.clone()))
            },
            NativeValue::Pattern { source, flags } => {
                self.add_string_bytes(source.as_str().as_bytes().len())?;
                self.store(InputValue::Pattern { source: source.clone(), flags: *flags })
            },
            NativeValue::Fraction { numerator, denominator } => {
                let nb = numerator.as_str().as_bytes();
                let db = denominator.as_str().as_bytes();
                let ns = sign_prefix_exec(nb, true);
                if nb.len() - ns > self.limits.max_integer_digits {
                    return Err(NativeInputError::Limit("maximum integer digits"));
                }
                let ds = sign_prefix_exec(db, true);
                if db.len() - ds > self.limits.max_integer_digits {
                    return Err(NativeInputError::Limit("maximum integer digits"));
                }
                self.store(InputValue::Fraction { numerator: numerator.clone(), denominator: denominator.clone() })
            },
            NativeValue::List(items) => self.push_sequence(items, SequenceKind::List, depth),
            NativeValue::Tuple(items) => self.push_sequence(items, SequenceKind::Tuple, depth),
            NativeValue::MutableSet(items) => self.push_sequence(items, SequenceKind::MutableSet, depth),
            NativeValue::FrozenSet(items) => self.push_sequence(items, SequenceKind::FrozenSet, depth),
            NativeValue::Object(entries) => self.push_object(entries, depth),
            NativeValue::Mapping(pairs) => self.push_mapping(pairs, depth),
        }
    }

    fn push_entry(&mut self, entry: &(String, NativeValue), depth: usize) -> (r: Result<InputId, NativeInputError>)
        requires
            old(self).sound(),
            depth <= old(self).limits.max_depth + 1,
        ensures
            match spec_entry_step(*entry, depth as nat, old(self).state(), old(self).limits) {
                Err(e) => r == Err::<InputId, NativeInputError>(e),
                Ok((st, built)) => r matches Ok(x) && x@ == built.1 && final(self).state() == st,
            },
            final(self).limits == old(self).limits,
            final(self).sound(),
            r matches Ok(x) ==> x@ < final(self).values@.len(),
            final(self).values@.len() >= old(self).values@.len(),
        decreases entry, 0nat,
    {
        self.add_string_bytes(entry.0.as_str().as_bytes().len())?;
        self.push(&entry.1, depth)
    }

    fn push_pair(&mut self, pair: &(NativeValue, NativeValue), depth: usize) -> (r: Result<
        (InputId, InputId),
        NativeInputError,
    >)
        requires
            old(self).sound(),
            depth <= old(self).limits.max_depth + 1,
        ensures
            match spec_pair_step(*pair, depth as nat, old(self).state(), old(self).limits) {
                Err(e) => r == Err::<(InputId, InputId), NativeInputError>(e),
                Ok((st, built)) => r matches Ok(x) && x.0@ == built.0 && x.1@ == built.1 && final(self).state() == st,
            },
            final(self).limits == old(self).limits,
            final(self).sound(),
            r matches Ok(x) ==> x.0@ < final(self).values@.len() && x.1@ < final(self).values@.len(),
            final(self).values@.len() >= old(self).values@.len(),
        decreases pair, 0nat,
    {
        let key = self.push(&pair.0, depth)?;
        let item = self.push(&pair.1, depth)?;
        Ok((key, item))
    }

    fn push_object(&mut self, entries: &Vec<(String, NativeValue)>, depth: usize) -> (r: Result<
        InputId,
        NativeInputError,
    >)
        requires
            old(self).sound(),
            depth <= old(self).limits.max_depth,
        ensures
            match spec_push_object(entries@, depth as nat, old(self).state(), old(self).limits) {
                Err(e) => r == Err::<InputId, NativeInputError>(e),
                Ok((st, id)) => r matches Ok(x) && x@ == id && final(self).state() == st,
            },
            final(self).limits == old(self).limits,
            final(self).sound(),
            r matches Ok(x) ==> x@ < final(self).values@.len(),
            final(self).values@.len() >= old(self).values@.len(),
        decreases entries@, 1nat,
    {
        if entries.len() > self.limits.max_collection_items {
            return Err(NativeInputError::Limit("maximum collection items"));
        }
        let ghost st0 = self.state();
        let mut built: Vec<(String, InputId)> = Vec::new();
        let mut i: usize = 0;
        assert(entries@.take(0) =~= Seq::<(String, NativeValue)>::empty());
        assert(built@.map_values(|e: (String, InputId)| (e.0@, e.1@)) =~= Seq::<(Seq<char>, nat)>::empty());
        while i < entries.len()
            invariant
                i <= entries@.len(),
                entries@.len() <= self.limits.max_collection_items,
                self.sound(),
                self.limits == old(self).limits,
                depth <= self.limits.max_depth,
                st0 == old(self).state(),
                spec_push_entries(entries@.take(i as int), depth as nat + 1, st0, self.limits)
                    == Ok::<(NativeState, Seq<(Seq<char>, nat)>), NativeInputError>(
                    (self.state(), built@.map_values(|e: (String, InputId)| (e.0@, e.1@))),
                ),
                forall|j: int| 0 <= j < built@.len() ==> (#[trigger] built@[j]).1@ < self.values@.len(),
                self.values@.len() >= old(self).values@.len(),
            decreases entries@.len() - i,
        {
            let ghost prefix = entries@.take(i as int);
            let ghost next = entries@.take(i + 1);
            assert(next.drop_last() =~= prefix);
            assert(next.last() == entries@[i as int]);
            let entry = &entries[i];
            let ghost st_i = self.state();
            let child = match self.push_entry(entry, depth + 1) {
                Ok(child) => child,
                Err(e) => {
                    proof {
                        assert(spec_entry_step(entries@[i as int], depth as nat + 1, st_i, self.limits) == Err::<
                            (NativeState, (Seq<char>, nat)),
                            NativeInputError,
                        >(e));
                        assert(spec_push_entries(next, depth as nat + 1, st0, self.limits) == Err::<
                            (NativeState, Seq<(Seq<char>, nat)>),
                            NativeInputError,
                        >(e));
                        lemma_entries_error(entries@, i as int, depth as nat + 1, st0, self.limits);
                    }
                    return Err(e);
                },
            };
            let ghost before = built@;
            built.push((entry.0.clone(), child));
            proof {
                assert(built@.map_values(|e: (String, InputId)| (e.0@, e.1@)) =~= before.map_values(
                    |e: (String, InputId)| (e.0@, e.1@),
                ).push((entry.0@, child@)));
            }
            i = i + 1;
        }
        proof {
            assert(entries@.take(entries@.len() as int) =~= entries@);
        }
        let value = InputValue::Object { kind: ObjectKind::Object, entries: built };
        self.store(value)
    
    }

    #[verifier::rlimit(40)]
    fn push_mapping(&mut self, pairs: &Vec<(NativeValue, NativeValue)>, depth: usize) -> (r: Result<
        InputId,
        NativeInputError,
    >)
        requires
            old(self).sound(),
            depth <= old(self).limits.max_depth,
        ensures
            match spec_push_mapping(pairs@, depth as nat, old(self).state(), old(self).limits) {
                Err(e) => r == Err::<InputId, NativeInputError>(e),
                Ok((st, id)) => r matches Ok(x) && x@ == id && final(self).state() == st,
            },
            final(self).limits == old(self).limits,
            final(self).sound(),
            r matches Ok(x) ==> x@ < final(self).values@.len(),
            final(self).values@.len() >= old(self).values@.len(),
        decreases pairs@, 1nat,
    {
        if pairs.len() > self.limits.max_collection_items {
            return Err(NativeInputError::Limit("maximum collection items"));
        }
        let ghost st0 = self.state();
        let mut built: Vec<(InputId, InputId)> = Vec::new();
        let mut i: usize = 0;
        assert(pairs@.take(0) =~= Seq::<(NativeValue, NativeValue)>::empty());
        assert(built@.map_values(|e: (InputId, InputId)| (e.0@, e.1@)) =~= Seq::<(nat, nat)>::empty());
        while i < pairs.len()
            invariant
                i <= pairs@.len(),
                pairs@.len() <= self.limits.max_collection_items,
                self.sound(),
                self.limits == old(self).limits,
                depth <= self.limits.max_depth,
                st0 == old(self).state(),
                spec_push_pairs(pairs@.take(i as int), depth as nat + 1, st0, self.limits)
                    == Ok::<(NativeState, Seq<(nat, nat)>), NativeInputError>(
                    (self.state(), built@.map_values(|e: (InputId, InputId)| (e.0@, e.1@))),
                ),
                forall|j: int| 0 <= j < built@.len() ==> (#[trigger] built@[j]).0@ < self.values@.len()
                    && built@[j].1@ < self.values@.len(),
                self.values@.len() >= old(self).values@.len(),
            decreases pairs@.len() - i,
        {
            let ghost prefix = pairs@.take(i as int);
            let ghost next = pairs@.take(i + 1);
            assert(next.drop_last() =~= prefix);
            assert(next.last() == pairs@[i as int]);
            let pair = &pairs[i];
            let ghost st_i = self.state();
            let (key, item) = match self.push_pair(pair, depth + 1) {
                Ok(ids) => ids,
                Err(e) => {
                    proof {
                        assert(spec_pair_step(pairs@[i as int], depth as nat + 1, st_i, self.limits) == Err::<
                            (NativeState, (nat, nat)),
                            NativeInputError,
                        >(e));
                        assert(spec_push_pairs(next, depth as nat + 1, st0, self.limits) == Err::<
                            (NativeState, Seq<(nat, nat)>),
                            NativeInputError,
                        >(e));
                        lemma_pairs_error(pairs@, i as int, depth as nat + 1, st0, self.limits);
                    }
                    return Err(e);
                },
            };
            let ghost before = built@;
            built.push((key, item));
            proof {
                assert(built@.map_values(|e: (InputId, InputId)| (e.0@, e.1@)) =~= before.map_values(
                    |e: (InputId, InputId)| (e.0@, e.1@),
                ).push((key@, item@)));
            }
            i = i + 1;
        }
        proof {
            assert(pairs@.take(pairs@.len() as int) =~= pairs@);
        }
        self.store(InputValue::Mapping(built))
    
    }

    fn push_sequence(&mut self, items: &Vec<NativeValue>, kind: SequenceKind, depth: usize) -> (r: Result<
        InputId,
        NativeInputError,
    >)
        requires
            old(self).sound(),
            depth <= old(self).limits.max_depth,
        ensures
            match spec_push_sequence(items@, kind, depth as nat, old(self).state(), old(self).limits) {
                Err(e) => r == Err::<InputId, NativeInputError>(e),
                Ok((st, id)) => r matches Ok(x) && x@ == id && final(self).state() == st,
            },
            final(self).limits == old(self).limits,
            final(self).sound(),
            r matches Ok(x) ==> x@ < final(self).values@.len(),
            final(self).values@.len() >= old(self).values@.len(),
        decreases items@, 1nat,
    {
        if items.len() > self.limits.max_collection_items {
            return Err(NativeInputError::Limit("maximum collection items"));
        }
        let ghost st0 = self.state();
        let mut ids: Vec<InputId> = Vec::new();
        let mut i: usize = 0;
        assert(items@.take(0) =~= Seq::<NativeValue>::empty());
        assert(ids@.map_values(|id: InputId| id@) =~= Seq::<nat>::empty());
        while i < items.len()
            invariant
                i <= items@.len(),
                items@.len() <= self.limits.max_collection_items,
                self.sound(),
                self.limits == old(self).limits,
                depth <= self.limits.max_depth,
                st0 == old(self).state(),
                spec_push_items(items@.take(i as int), depth as nat + 1, st0, self.limits)
                    == Ok::<(NativeState, Seq<nat>), NativeInputError>(
                    (self.state(), ids@.map_values(|id: InputId| id@)),
                ),
                forall|j: int| 0 <= j < ids@.len() ==> (#[trigger] ids@[j])@ < self.values@.len(),
                self.values@.len() >= old(self).values@.len(),
            decreases items@.len() - i,
        {
            let ghost prefix = items@.take(i as int);
            let ghost next = items@.take(i + 1);
            assert(next.drop_last() =~= prefix);
            assert(next.last() == items@[i as int]);
            let ghost st_i = self.state();
            let child = match self.push(&items[i], depth + 1) {
                Ok(child) => child,
                Err(e) => {
                    proof {
                        assert(spec_push(items@[i as int], depth as nat + 1, st_i, self.limits) == Err::<
                            (NativeState, nat),
                            NativeInputError,
                        >(e));
                        assert(spec_push_items(next, depth as nat + 1, st0, self.limits) == Err::<
                            (NativeState, Seq<nat>),
                            NativeInputError,
                        >(e));
                        lemma_items_error(items@, i as int, depth as nat + 1, st0, self.limits);
                    }
                    return Err(e);
                },
            };
            let ghost before = ids@;
            ids.push(child);
            proof {
                assert(ids@.map_values(|id: InputId| id@) =~= before.map_values(|id: InputId| id@).push(child@));
            }
            i = i + 1;
        }
        proof {
            assert(items@.take(items@.len() as int) =~= items@);
        }
        self.store(InputValue::Sequence { kind, items: ids })
    }
}

proof fn lemma_items_error(items: Seq<NativeValue>, i: int, depth: nat, st: NativeState, limits: JsonLimits)
    requires
        0 <= i < items.len(),
        spec_push_items(items.take(i + 1), depth, st, limits) is Err,
    ensures
        spec_push_items(items, depth, st, limits) == spec_push_items(items.take(i + 1), depth, st, limits),
    decreases items.len() - i,
{
    if i + 1 == items.len() {
        assert(items.take(i + 1) =~= items);
    } else {
        assert(items.take(i + 2).drop_last() =~= items.take(i + 1));
        lemma_items_error(items, i + 1, depth, st, limits);
    }
}

proof fn lemma_entries_error(
    entries: Seq<(String, NativeValue)>,
    i: int,
    depth: nat,
    st: NativeState,
    limits: JsonLimits,
)
    requires
        0 <= i < entries.len(),
        spec_push_entries(entries.take(i + 1), depth, st, limits) is Err,
    ensures
        spec_push_entries(entries, depth, st, limits) == spec_push_entries(entries.take(i + 1), depth, st, limits),
    decreases entries.len() - i,
{
    if i + 1 == entries.len() {
        assert(entries.take(i + 1) =~= entries);
    } else {
        assert(entries.take(i + 2).drop_last() =~= entries.take(i + 1));
        lemma_entries_error(entries, i + 1, depth, st, limits);
    }
}

proof fn lemma_pairs_error(
    pairs: Seq<(NativeValue, NativeValue)>,
    i: int,
    depth: nat,
    st: NativeState,
    limits: JsonLimits,
)
    requires
        0 <= i < pairs.len(),
        spec_push_pairs(pairs.take(i + 1), depth, st, limits) is Err,
    ensures
        spec_push_pairs(pairs, depth, st, limits) == spec_push_pairs(pairs.take(i + 1), depth, st, limits),
    decreases pairs.len() - i,
{
    if i + 1 == pairs.len() {
        assert(pairs.take(i + 1) =~= pairs);
    } else {
        assert(pairs.take(i + 2).drop_last() =~= pairs.take(i + 1));
        lemma_pairs_error(pairs, i + 1, depth, st, limits);
    }
}

/// Builds a checked input arena from a native value: values are stored
/// children first, and every limit is checked before it could be exceeded.
pub fn build_native_input(value: &NativeValue, limits: JsonLimits) -> (r: Result<InputArena, NativeInputError>)
    ensures
        match spec_build_native(*value, limits) {
            Err(e) => r == Err::<InputArena, NativeInputError>(e),
            Ok((root, nodes)) => r matches Ok(a) && a.spec_root() == root && a.spec_nodes() == nodes,
        },
{
    validate_native_limits(limits)?;
    let mut builder = NativeBuilder { values: Arena::new(), limits, string_bytes: 0 };
    proof {
        assert(builder.state().nodes =~= Seq::<InputNode>::empty());
    }
    let root = builder.push(value, 0)?;
    Ok(InputArena::from_parts(root, builder.values))
}

} // verus!
