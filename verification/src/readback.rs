use vstd::prelude::*;

use crate::input::{InputArena, InputId, InputNode, InputValue, JsonLimits, ObjectKind, SequenceKind};
use crate::native::{
    add_bytes, lemma_keeps_trans, lemma_native_push, spec_build_native, spec_push, spec_push_entries,
    spec_push_items, spec_push_pairs, store, NativeState, NativeValue,
};
use crate::serializer::{SerializationError, SerializationErrorKind};
use crate::text::{copy_bytes, owned, utf8_bytes};

verus! {

// ---------------------------------------------------------------------------
// Native values as plain values
// ---------------------------------------------------------------------------

/// A native value as plain values.
pub enum NativeView {
    Null,
    Bool(bool),
    Integer(Seq<char>),
    Float(u64),
    Decimal(Seq<char>),
    Complex { real: u64, imaginary: u64 },
    String(Seq<char>),
    Bytes(Seq<u8>),
    Date(Seq<char>),
    Time(Seq<char>),
    DateTime(Seq<char>),
    Duration(Seq<char>),
    Uuid(Seq<char>),
    Url(Seq<char>),
    Pattern { source: Seq<char>, flags: u8 },
    Fraction { numerator: Seq<char>, denominator: Seq<char> },
    List(Seq<NativeView>),
    Tuple(Seq<NativeView>),
    MutableSet(Seq<NativeView>),
    FrozenSet(Seq<NativeView>),
    Object(Seq<(Seq<char>, NativeView)>),
    Mapping(Seq<(NativeView, NativeView)>),
}

/// A native value as plain values.
pub open spec fn native_view(v: NativeValue) -> NativeView
    decreases v, 1nat,
{
    match v {
        NativeValue::Null => NativeView::Null,
        NativeValue::Bool(b) => NativeView::Bool(b),
        NativeValue::Integer(s) => NativeView::Integer(s@),
        NativeValue::Float(bits) => NativeView::Float(bits),
        NativeValue::Decimal(s) => NativeView::Decimal(s@),
        NativeValue::Complex { real: re, imaginary: im } => NativeView::Complex { real: re, imaginary: im },
        NativeValue::String(s) => NativeView::String(s@),
        NativeValue::Bytes(b) => NativeView::Bytes(b@),
        NativeValue::Date(s) => NativeView::Date(s@),
        NativeValue::Time(s) => NativeView::Time(s@),
        NativeValue::DateTime(s) => NativeView::DateTime(s@),
        NativeValue::Duration(s) => NativeView::Duration(s@),
        NativeValue::Uuid(s) => NativeView::Uuid(s@),
        NativeValue::Url(s) => NativeView::Url(s@),
        NativeValue::Pattern { source, flags } => NativeView::Pattern { source: source@, flags },
        NativeValue::Fraction { numerator, denominator } => NativeView::Fraction {
            numerator: numerator@,
            denominator: denominator@,
        },
        NativeValue::List(items) => NativeView::List(native_views(items@)),
        NativeValue::Tuple(items) => NativeView::Tuple(native_views(items@)),
        NativeValue::MutableSet(items) => NativeView::MutableSet(native_views(items@)),
        NativeValue::FrozenSet(items) => NativeView::FrozenSet(native_views(items@)),
        NativeValue::Object(entries) => NativeView::Object(entry_views(entries@)),
        NativeValue::Mapping(pairs) => NativeView::Mapping(pair_views(pairs@)),
    }
}

pub open spec fn native_views(items: Seq<NativeValue>) -> Seq<NativeView>
    decreases items, 0nat,
{
    if items.len() == 0 {
        Seq::empty()
    } else {
        native_views(items.drop_last()).push(native_view(items.last()))
    }
}

pub open spec fn entry_views(entries: Seq<(String, NativeValue)>) -> Seq<(Seq<char>, NativeView)>
    decreases entries, 0nat,
{
    if entries.len() == 0 {
        Seq::empty()
    } else {
        entry_views(entries.drop_last()).push((entries.last().0@, native_view(entries.last().1)))
    }
}

pub open spec fn pair_views(pairs: Seq<(NativeValue, NativeValue)>) -> Seq<(NativeView, NativeView)>
    decreases pairs, 0nat,
{
    if pairs.len() == 0 {
        Seq::empty()
    } else {
        pair_views(pairs.drop_last()).push((native_view(pairs.last().0), native_view(pairs.last().1)))
    }
}

// ---------------------------------------------------------------------------
// Reading an arena back
// ---------------------------------------------------------------------------

/// The native value that node `id` of an arena stands for; JSON arrays
/// read as lists and JSON objects as objects. Only nodes below `id` are
/// read for its children.
pub open spec fn read_node(nodes: Seq<InputNode>, id: nat) -> NativeView
    decreases id, 1nat, 0nat,
{
    if id >= nodes.len() {
        NativeView::Null
    } else {
        match nodes[id as int] {
            InputNode::Null => NativeView::Null,
            InputNode::Bool(b) => NativeView::Bool(b),
            InputNode::Integer(s) => NativeView::Integer(s),
            InputNode::Float(bits) => NativeView::Float(bits),
            InputNode::Decimal(s) => NativeView::Decimal(s),
            InputNode::Complex { real: re, imaginary: im } => NativeView::Complex { real: re, imaginary: im },
            InputNode::String(s) => NativeView::String(s),
            InputNode::Bytes(b) => NativeView::Bytes(b),
            InputNode::Date(s) => NativeView::Date(s),
            InputNode::Time(s) => NativeView::Time(s),
            InputNode::DateTime(s) => NativeView::DateTime(s),
            InputNode::Duration(s) => NativeView::Duration(s),
            InputNode::Uuid(s) => NativeView::Uuid(s),
            InputNode::Url(s) => NativeView::Url(s),
            InputNode::Pattern { source, flags } => NativeView::Pattern { source, flags },
            InputNode::Fraction { numerator, denominator } => NativeView::Fraction { numerator, denominator },
            InputNode::Sequence { kind, items } => {
                let values = read_items(nodes, items, id);
                match kind {
                    SequenceKind::JsonArray => NativeView::List(values),
                    SequenceKind::List => NativeView::List(values),
                    SequenceKind::Tuple => NativeView::Tuple(values),
                    SequenceKind::MutableSet => NativeView::MutableSet(values),
                    SequenceKind::FrozenSet => NativeView::FrozenSet(values),
                }
            },
            InputNode::Object { entries, .. } => NativeView::Object(read_entries(nodes, entries, id)),
            InputNode::Mapping(pairs) => NativeView::Mapping(read_pairs(nodes, pairs, id)),
        }
    }
}

/// The values of `ids`, each read when it lies below `bound`.
pub open spec fn read_items(nodes: Seq<InputNode>, ids: Seq<nat>, bound: nat) -> Seq<NativeView>
    decreases bound, 0nat, ids.len(),
{
    if ids.len() == 0 {
        Seq::empty()
    } else {
        read_items(nodes, ids.drop_last(), bound).push(
            if ids.last() < bound {
                read_node(nodes, ids.last())
            } else {
                NativeView::Null
            },
        )
    }
}

pub open spec fn read_entries(nodes: Seq<InputNode>, entries: Seq<(Seq<char>, nat)>, bound: nat) -> Seq<
    (Seq<char>, NativeView),
>
    decreases bound, 0nat, entries.len(),
{
    if entries.len() == 0 {
        Seq::empty()
    } else {
        read_entries(nodes, entries.drop_last(), bound).push(
            (
                entries.last().0,
                if entries.last().1 < bound {
                    read_node(nodes, entries.last().1)
                } else {
                    NativeView::Null
                },
            ),
        )
    }
}

pub open spec fn read_pairs(nodes: Seq<InputNode>, pairs: Seq<(nat, nat)>, bound: nat) -> Seq<(NativeView, NativeView)>
    decreases bound, 0nat, pairs.len(),
{
    if pairs.len() == 0 {
        Seq::empty()
    } else {
        read_pairs(nodes, pairs.drop_last(), bound).push(
            (
                if pairs.last().0 < bound {
                    read_node(nodes, pairs.last().0)
                } else {
                    NativeView::Null
                },
                if pairs.last().1 < bound {
                    read_node(nodes, pairs.last().1)
                } else {
                    NativeView::Null
                },
            ),
        )
    }
}

// ---------------------------------------------------------------------------
// The reader
// ---------------------------------------------------------------------------

/// The error for a position outside the arena.
pub open spec fn missing_value_view() -> (SerializationErrorKind, Seq<char>) {
    (SerializationErrorKind::InvalidProjection, "structural projection references a missing value"@)
}

fn missing_value() -> (r: SerializationError)
    ensures
        r@ == missing_value_view(),
{
    SerializationError::new(
        SerializationErrorKind::InvalidProjection,
        owned("structural projection references a missing value"),
    )
}

/// Reads the native value that node `id` of an arena stands for, children
/// included; a position outside the arena is refused.
pub fn native_value(input: &InputArena, id: InputId) -> (r: Result<NativeValue, SerializationError>)
    ensures
        id@ < input.spec_nodes().len() ==> (r matches Ok(v) && native_view(v) == read_node(input.spec_nodes(), id@)),
        id@ >= input.spec_nodes().len() ==> (r matches Err(e) && e@ == missing_value_view()),
    decreases id@,
{
    let ghost nodes = input.spec_nodes();
    let value = match input.get(id) {
        Some(value) => value,
        None => return Err(missing_value()),
    };
    assert(value@ == nodes[id@ as int]);
    match value {
        InputValue::Null => Ok(NativeValue::Null),
        InputValue::Bool(b) => Ok(NativeValue::Bool(*b)),
        InputValue::Integer(s) => Ok(NativeValue::Integer(s.clone())),
        InputValue::Float(bits) => Ok(NativeValue::Float(*bits)),
        InputValue::Decimal(s) => Ok(NativeValue::Decimal(s.clone())),
        InputValue::Complex { real: re, imaginary: im } => Ok(NativeValue::Complex { real: *re, imaginary: *im }),
        InputValue::String(s) => Ok(NativeValue::String(s.clone())),
        InputValue::Bytes(b) => Ok(NativeValue::Bytes(copy_bytes(b.as_slice()))),
        InputValue::Date(s) => Ok(NativeValue::Date(s.clone())),
        InputValue::Time(s) => Ok(NativeValue::Time(s.clone())),
        InputValue::DateTime(s) => Ok(NativeValue::DateTime(s.clone())),
        InputValue::Duration(s) => Ok(NativeValue::Duration(s.clone())),
        InputValue::Uuid(s) => Ok(NativeValue::Uuid(s.clone())),
        InputValue::Url(s) => Ok(NativeValue::Url(s.clone())),
        InputValue::Pattern { source, flags } => Ok(NativeValue::Pattern { source: source.clone(), flags: *flags }),
        InputValue::Fraction { numerator, denominator } => Ok(
            NativeValue::Fraction { numerator: numerator.clone(), denominator: denominator.clone() },
        ),
        InputValue::Sequence { kind, items } => {
            let ghost ids = items@.map_values(|x: InputId| x@);
            let mut values: Vec<NativeValue> = Vec::new();
            let mut k: usize = 0;
            assert(ids.take(0) =~= Seq::<nat>::empty());
            while k < items.len()
                invariant
                    nodes == input.spec_nodes(),
                    k <= items@.len(),
                    ids == items@.map_values(|x: InputId| x@),
                    id@ < nodes.len(),
                    forall|j: int| 0 <= j < ids.len() ==> #[trigger] ids[j] < id@,
                    native_views(values@) == read_items(nodes, ids.take(k as int), id@),
                decreases items@.len() - k,
            {
                assert(ids[k as int] < id@);
                let child = match native_value(input, items[k]) {
                    Ok(child) => child,
                    Err(e) => return Err(e),
                };
                let ghost before = values@;
                values.push(child);
                proof {
                    assert(values@.drop_last() =~= before);
                    assert(ids.take(k + 1).drop_last() =~= ids.take(k as int));
                    assert(ids.take(k + 1).last() == items@[k as int]@);
                }
                k = k + 1;
            }
            assert(ids.take(items@.len() as int) =~= ids);
            Ok(
                match kind {
                    SequenceKind::JsonArray => NativeValue::List(values),
                    SequenceKind::List => NativeValue::List(values),
                    SequenceKind::Tuple => NativeValue::Tuple(values),
                    SequenceKind::MutableSet => NativeValue::MutableSet(values),
                    SequenceKind::FrozenSet => NativeValue::FrozenSet(values),
                },
            )
        },
        InputValue::Object { entries, .. } => {
            let ghost es = entries@.map_values(|e: (String, InputId)| (e.0@, e.1@));
            let mut values: Vec<(String, NativeValue)> = Vec::new();
            let mut k: usize = 0;
            assert(es.take(0) =~= Seq::<(Seq<char>, nat)>::empty());
            while k < entries.len()
                invariant
                    nodes == input.spec_nodes(),
                    k <= entries@.len(),
                    es == entries@.map_values(|e: (String, InputId)| (e.0@, e.1@)),
                    id@ < nodes.len(),
                    forall|j: int| 0 <= j < es.len() ==> (#[trigger] es[j]).1 < id@,
                    entry_views(values@) == read_entries(nodes, es.take(k as int), id@),
                decreases entries@.len() - k,
            {
                assert(es[k as int].1 < id@);
                let child = match native_value(input, entries[k].1) {
                    Ok(child) => child,
                    Err(e) => return Err(e),
                };
                let ghost before = values@;
                values.push((entries[k].0.clone(), child));
                proof {
                    assert(values@.drop_last() =~= before);
                    assert(es.take(k + 1).drop_last() =~= es.take(k as int));
                    assert(es.take(k + 1).last() == es[k as int]);
                }
                k = k + 1;
            }
            assert(es.take(entries@.len() as int) =~= es);
            Ok(NativeValue::Object(values))
        },
        InputValue::Mapping(pairs) => {
            let ghost ps = pairs@.map_values(|e: (InputId, InputId)| (e.0@, e.1@));
            let mut values: Vec<(NativeValue, NativeValue)> = Vec::new();
            let mut k: usize = 0;
            assert(ps.take(0) =~= Seq::<(nat, nat)>::empty());
            while k < pairs.len()
                invariant
                    nodes == input.spec_nodes(),
                    k <= pairs@.len(),
                    ps == pairs@.map_values(|e: (InputId, InputId)| (e.0@, e.1@)),
                    id@ < nodes.len(),
                    forall|j: int| 0 <= j < ps.len() ==> (#[trigger] ps[j]).0 < id@ && ps[j].1 < id@,
                    pair_views(values@) == read_pairs(nodes, ps.take(k as int), id@),
                decreases pairs@.len() - k,
            {
                assert(ps[k as int].0 < id@ && ps[k as int].1 < id@);
                let key = match native_value(input, pairs[k].0) {
                    Ok(key) => key,
                    Err(e) => return Err(e),
                };
                let item = match native_value(input, pairs[k].1) {
                    Ok(item) => item,
                    Err(e) => return Err(e),
                };
                let ghost before = values@;
                values.push((key, item));
                proof {
                    assert(values@.drop_last() =~= before);
                    assert(ps.take(k + 1).drop_last() =~= ps.take(k as int));
                    assert(ps.take(k + 1).last() == ps[k as int]);
                }
                k = k + 1;
            }
            assert(ps.take(pairs@.len() as int) =~= ps);
            Ok(NativeValue::Mapping(values))
        },
    }
}

// ---------------------------------------------------------------------------
// Reading back what was built
// ---------------------------------------------------------------------------

proof fn lemma_read_stable(nodes: Seq<InputNode>, more: Seq<InputNode>, id: nat)
    requires
        nodes.len() <= more.len(),
        more.take(nodes.len() as int) == nodes,
        id < nodes.len(),
    ensures
        read_node(more, id) == read_node(nodes, id),
    decreases id, 1nat, 0nat,
{
    assert(more[id as int] == more.take(nodes.len() as int)[id as int]);
    match nodes[id as int] {
        InputNode::Sequence { kind, items } => lemma_items_stable(nodes, more, items, id),
        InputNode::Object { entries, .. } => lemma_entries_stable(nodes, more, entries, id),
        InputNode::Mapping(pairs) => lemma_pairs_stable(nodes, more, pairs, id),
        _ => {},
    }
}

proof fn lemma_items_stable(nodes: Seq<InputNode>, more: Seq<InputNode>, ids: Seq<nat>, bound: nat)
    requires
        nodes.len() <= more.len(),
        more.take(nodes.len() as int) == nodes,
        bound <= nodes.len(),
    ensures
        read_items(more, ids, bound) == read_items(nodes, ids, bound),
    decreases bound, 0nat, ids.len(),
{
    if ids.len() > 0 {
        lemma_items_stable(nodes, more, ids.drop_last(), bound);
        if ids.last() < bound {
            lemma_read_stable(nodes, more, ids.last());
        }
    }
}

proof fn lemma_entries_stable(nodes: Seq<InputNode>, more: Seq<InputNode>, entries: Seq<(Seq<char>, nat)>, bound: nat)
    requires
        nodes.len() <= more.len(),
        more.take(nodes.len() as int) == nodes,
        bound <= nodes.len(),
    ensures
        read_entries(more, entries, bound) == read_entries(nodes, entries, bound),
    decreases bound, 0nat, entries.len(),
{
    if entries.len() > 0 {
        lemma_entries_stable(nodes, more, entries.drop_last(), bound);
        if entries.last().1 < bound {
            lemma_read_stable(nodes, more, entries.last().1);
        }
    }
}

proof fn lemma_pairs_stable(nodes: Seq<InputNode>, more: Seq<InputNode>, pairs: Seq<(nat, nat)>, bound: nat)
    requires
        nodes.len() <= more.len(),
        more.take(nodes.len() as int) == nodes,
        bound <= nodes.len(),
    ensures
        read_pairs(more, pairs, bound) == read_pairs(nodes, pairs, bound),
    decreases bound, 0nat, pairs.len(),
{
    if pairs.len() > 0 {
        lemma_pairs_stable(nodes, more, pairs.drop_last(), bound);
        if pairs.last().0 < bound {
            lemma_read_stable(nodes, more, pairs.last().0);
        }
        if pairs.last().1 < bound {
            lemma_read_stable(nodes, more, pairs.last().1);
        }
    }
}

proof fn lemma_items_match(nodes: Seq<InputNode>, ids: Seq<nat>, bound: nat, items: Seq<NativeValue>)
    requires
        ids.len() == items.len(),
        forall|k: int| 0 <= k < ids.len() ==> #[trigger] ids[k] < bound,
        forall|k: int| 0 <= k < ids.len() ==> read_node(nodes, #[trigger] ids[k]) == native_view(items[k]),
    ensures
        read_items(nodes, ids, bound) == native_views(items),
    decreases ids.len(),
{
    if ids.len() > 0 {
        let (a, b) = (ids.drop_last(), items.drop_last());
        assert forall|k: int| 0 <= k < a.len() implies #[trigger] a[k] < bound && read_node(nodes, a[k]) == native_view(
            b[k],
        ) by {
            assert(a[k] == ids[k] && b[k] == items[k]);
        }
        lemma_items_match(nodes, a, bound, b);
        assert(ids.last() == ids[ids.len() - 1]);
    }
}

proof fn lemma_entries_match(
    nodes: Seq<InputNode>,
    built: Seq<(Seq<char>, nat)>,
    bound: nat,
    entries: Seq<(String, NativeValue)>,
)
    requires
        built.len() == entries.len(),
        forall|k: int| 0 <= k < built.len() ==> (#[trigger] built[k]).1 < bound,
        forall|k: int| 0 <= k < built.len() ==> (#[trigger] built[k]).0 == entries[k].0@,
        forall|k: int| 0 <= k < built.len() ==> read_node(nodes, (#[trigger] built[k]).1) == native_view(entries[k].1),
    ensures
        read_entries(nodes, built, bound) == entry_views(entries),
    decreases built.len(),
{
    if built.len() > 0 {
        let (a, b) = (built.drop_last(), entries.drop_last());
        assert forall|k: int| 0 <= k < a.len() implies (#[trigger] a[k]).1 < bound && a[k].0 == b[k].0@ && read_node(
            nodes,
            a[k].1,
        ) == native_view(b[k].1) by {
            assert(a[k] == built[k] && b[k] == entries[k]);
        }
        lemma_entries_match(nodes, a, bound, b);
        assert(built.last() == built[built.len() - 1]);
    }
}

proof fn lemma_pairs_match(
    nodes: Seq<InputNode>,
    built: Seq<(nat, nat)>,
    bound: nat,
    pairs: Seq<(NativeValue, NativeValue)>,
)
    requires
        built.len() == pairs.len(),
        forall|k: int| 0 <= k < built.len() ==> (#[trigger] built[k]).0 < bound && built[k].1 < bound,
        forall|k: int| 0 <= k < built.len() ==> read_node(nodes, (#[trigger] built[k]).0) == native_view(pairs[k].0),
        forall|k: int| 0 <= k < built.len() ==> read_node(nodes, (#[trigger] built[k]).1) == native_view(pairs[k].1),
    ensures
        read_pairs(nodes, built, bound) == pair_views(pairs),
    decreases built.len(),
{
    if built.len() > 0 {
        let (a, b) = (built.drop_last(), pairs.drop_last());
        assert forall|k: int| 0 <= k < a.len() implies (#[trigger] a[k]).0 < bound && a[k].1 < bound && read_node(
            nodes,
            a[k].0,
        ) == native_view(b[k].0) && read_node(nodes, a[k].1) == native_view(b[k].1) by {
            assert(a[k] == built[k] && b[k] == pairs[k]);
        }
        lemma_pairs_match(nodes, a, bound, b);
        assert(built.last() == built[built.len() - 1]);
    }
}

/// The last node stored reads as the node itself, with children below it.
proof fn lemma_store_reads(st: NativeState, node: InputNode)
    requires
        store(st, node) is Ok,
    ensures
        ({
            let (after, id) = store(st, node)->Ok_0;
            &&& id == st.nodes.len()
            &&& after.nodes[id as int] == node
            &&& after.nodes.take(st.nodes.len() as int) == st.nodes
        }),
{
    let (after, id) = store(st, node)->Ok_0;
    assert(after.nodes.take(st.nodes.len() as int) =~= st.nodes);
}

proof fn lemma_push_reads(v: NativeValue, depth: nat, st: NativeState, limits: JsonLimits)
    requires
        spec_push(v, depth, st, limits) is Ok,
    ensures
        read_node(spec_push(v, depth, st, limits)->Ok_0.0.nodes, spec_push(v, depth, st, limits)->Ok_0.1)
            == native_view(v),
    decreases v, 2nat,
{
    lemma_native_push(v, depth, st, limits);
    let (after, id) = spec_push(v, depth, st, limits)->Ok_0;
    match v {
        NativeValue::List(items) => lemma_sequence_reads(items@, SequenceKind::List, depth, st, limits),
        NativeValue::Tuple(items) => lemma_sequence_reads(items@, SequenceKind::Tuple, depth, st, limits),
        NativeValue::MutableSet(items) => lemma_sequence_reads(items@, SequenceKind::MutableSet, depth, st, limits),
        NativeValue::FrozenSet(items) => lemma_sequence_reads(items@, SequenceKind::FrozenSet, depth, st, limits),
        NativeValue::Object(entries) => {
            let (st2, built) = spec_push_entries(entries@, depth + 1, st, limits)->Ok_0;
            lemma_entries_reads(entries@, depth + 1, st, limits);
            let node = InputNode::Object { kind: ObjectKind::Object, entries: built };
            lemma_store_reads(st2, node);
            assert forall|k: int| 0 <= k < built.len() implies read_node(after.nodes, (#[trigger] built[k]).1)
                == native_view(entries@[k].1) by {
                lemma_read_stable(st2.nodes, after.nodes, built[k].1);
            }
            lemma_entries_match(after.nodes, built, id, entries@);
        },
        NativeValue::Mapping(pairs) => {
            let (st2, built) = spec_push_pairs(pairs@, depth + 1, st, limits)->Ok_0;
            lemma_pairs_reads(pairs@, depth + 1, st, limits);
            let node = InputNode::Mapping(built);
            lemma_store_reads(st2, node);
            assert forall|k: int| 0 <= k < built.len() implies read_node(after.nodes, (#[trigger] built[k]).0)
                == native_view(pairs@[k].0) && read_node(after.nodes, built[k].1) == native_view(pairs@[k].1) by {
                lemma_read_stable(st2.nodes, after.nodes, built[k].0);
                lemma_read_stable(st2.nodes, after.nodes, built[k].1);
            }
            lemma_pairs_match(after.nodes, built, id, pairs@);
        },
        NativeValue::String(s) => {
            let st2 = add_bytes(st, utf8_bytes(s@).len(), limits)->Ok_0;
            lemma_store_reads(st2, InputNode::String(s@));
        },
        NativeValue::Bytes(b) => {
            let st2 = add_bytes(st, b@.len(), limits)->Ok_0;
            lemma_store_reads(st2, InputNode::Bytes(b@));
        },
        NativeValue::Date(s) => {
            lemma_store_reads(add_bytes(st, utf8_bytes(s@).len(), limits)->Ok_0, InputNode::Date(s@));
        },
        NativeValue::Time(s) => {
            lemma_store_reads(add_bytes(st, utf8_bytes(s@).len(), limits)->Ok_0, InputNode::Time(s@));
        },
        NativeValue::DateTime(s) => {
            lemma_store_reads(add_bytes(st, utf8_bytes(s@).len(), limits)->Ok_0, InputNode::DateTime(s@));
        },
        NativeValue::Duration(s) => {
            lemma_store_reads(add_bytes(st, utf8_bytes(s@).len(), limits)->Ok_0, InputNode::Duration(s@));
        },
        NativeValue::Uuid(s) => {
            lemma_store_reads(add_bytes(st, utf8_bytes(s@).len(), limits)->Ok_0, InputNode::Uuid(s@));
        },
        NativeValue::Url(s) => {
            lemma_store_reads(add_bytes(st, utf8_bytes(s@).len(), limits)->Ok_0, InputNode::Url(s@));
        },
        NativeValue::Pattern { source, flags } => {
            lemma_store_reads(
                add_bytes(st, utf8_bytes(source@).len(), limits)->Ok_0,
                InputNode::Pattern { source: source@, flags },
            );
        },
        NativeValue::Null => lemma_store_reads(st, InputNode::Null),
        NativeValue::Bool(b) => lemma_store_reads(st, InputNode::Bool(b)),
        NativeValue::Integer(s) => lemma_store_reads(st, InputNode::Integer(s@)),
        NativeValue::Float(bits) => lemma_store_reads(st, InputNode::Float(bits)),
        NativeValue::Decimal(s) => lemma_store_reads(st, InputNode::Decimal(s@)),
        NativeValue::Complex { real: re, imaginary: im } => lemma_store_reads(
            st,
            InputNode::Complex { real: re, imaginary: im },
        ),
        NativeValue::Fraction { numerator, denominator } => lemma_store_reads(
            st,
            InputNode::Fraction { numerator: numerator@, denominator: denominator@ },
        ),
    }
}

proof fn lemma_sequence_reads(
    items: Seq<NativeValue>,
    kind: SequenceKind,
    depth: nat,
    st: NativeState,
    limits: JsonLimits,
)
    requires
        crate::native::spec_push_sequence(items, kind, depth, st, limits) is Ok,
    ensures
        ({
            let (after, id) = crate::native::spec_push_sequence(items, kind, depth, st, limits)->Ok_0;
            read_node(after.nodes, id) == match kind {
                SequenceKind::Tuple => NativeView::Tuple(native_views(items)),
                SequenceKind::MutableSet => NativeView::MutableSet(native_views(items)),
                SequenceKind::FrozenSet => NativeView::FrozenSet(native_views(items)),
                _ => NativeView::List(native_views(items)),
            }
        }),
    decreases items, 1nat,
{
    let (st2, ids) = spec_push_items(items, depth + 1, st, limits)->Ok_0;
    lemma_items_reads(items, depth + 1, st, limits);
    let node = InputNode::Sequence { kind, items: ids };
    lemma_store_reads(st2, node);
    let (after, id) = store(st2, node)->Ok_0;
    assert forall|k: int| 0 <= k < ids.len() implies read_node(after.nodes, #[trigger] ids[k]) == native_view(
        items[k],
    ) by {
        lemma_read_stable(st2.nodes, after.nodes, ids[k]);
    }
    lemma_items_match(after.nodes, ids, id, items);
}

proof fn lemma_items_reads(items: Seq<NativeValue>, depth: nat, st: NativeState, limits: JsonLimits)
    requires
        spec_push_items(items, depth, st, limits) is Ok,
    ensures
        ({
            let (after, ids) = spec_push_items(items, depth, st, limits)->Ok_0;
            &&& ids.len() == items.len()
            &&& forall|k: int| 0 <= k < ids.len() ==> #[trigger] ids[k] < after.nodes.len()
            &&& forall|k: int| 0 <= k < ids.len() ==> read_node(after.nodes, #[trigger] ids[k]) == native_view(items[k])
        }),
    decreases items, 0nat,
{
    if items.len() > 0 {
        let (st1, ids1) = spec_push_items(items.drop_last(), depth, st, limits)->Ok_0;
        lemma_items_reads(items.drop_last(), depth, st, limits);
        lemma_native_push(items.last(), depth, st1, limits);
        lemma_push_reads(items.last(), depth, st1, limits);
        let (after, id) = spec_push(items.last(), depth, st1, limits)->Ok_0;
        let ids = ids1.push(id);
        assert forall|k: int| 0 <= k < ids.len() implies #[trigger] ids[k] < after.nodes.len() && read_node(
            after.nodes,
            ids[k],
        ) == native_view(items[k]) by {
            if k < ids1.len() {
                assert(ids[k] == ids1[k]);
                assert(items.drop_last()[k] == items[k]);
                lemma_read_stable(st1.nodes, after.nodes, ids1[k]);
            }
        }
    }
}

proof fn lemma_entries_reads(entries: Seq<(String, NativeValue)>, depth: nat, st: NativeState, limits: JsonLimits)
    requires
        spec_push_entries(entries, depth, st, limits) is Ok,
    ensures
        ({
            let (after, built) = spec_push_entries(entries, depth, st, limits)->Ok_0;
            &&& built.len() == entries.len()
            &&& forall|k: int| 0 <= k < built.len() ==> (#[trigger] built[k]).1 < after.nodes.len()
            &&& forall|k: int| 0 <= k < built.len() ==> (#[trigger] built[k]).0 == entries[k].0@
            &&& forall|k: int|
                0 <= k < built.len() ==> read_node(after.nodes, (#[trigger] built[k]).1) == native_view(entries[k].1)
        }),
    decreases entries, 0nat,
{
    if entries.len() > 0 {
        let front = entries.drop_last();
        let (st1, built1) = spec_push_entries(front, depth, st, limits)->Ok_0;
        lemma_entries_reads(front, depth, st, limits);
        let entry = entries.last();
        assert(crate::native::spec_entry_step(entry, depth, st1, limits) is Ok);
        let st2 = add_bytes(st1, utf8_bytes(entry.0@).len(), limits)->Ok_0;
        assert(spec_push(entry.1, depth, st2, limits) is Ok);
        lemma_native_push(entry.1, depth, st2, limits);
        lemma_push_reads(entry.1, depth, st2, limits);
        let (after, id) = spec_push(entry.1, depth, st2, limits)->Ok_0;
        let built = built1.push((entry.0@, id));
        assert forall|k: int| 0 <= k < built.len() implies (#[trigger] built[k]).1 < after.nodes.len() && built[k].0
            == entries[k].0@ && read_node(after.nodes, built[k].1) == native_view(entries[k].1) by {
            if k < built1.len() {
                assert(built[k] == built1[k]);
                assert(front[k] == entries[k]);
                assert(st2.nodes == st1.nodes);
                lemma_read_stable(st1.nodes, after.nodes, built1[k].1);
            }
        }
    }
}

proof fn lemma_pairs_reads(pairs: Seq<(NativeValue, NativeValue)>, depth: nat, st: NativeState, limits: JsonLimits)
    requires
        spec_push_pairs(pairs, depth, st, limits) is Ok,
    ensures
        ({
            let (after, built) = spec_push_pairs(pairs, depth, st, limits)->Ok_0;
            &&& built.len() == pairs.len()
            &&& forall|k: int| 0 <= k < built.len() ==> (#[trigger] built[k]).0 < after.nodes.len() && built[k].1 < after.nodes.len()
            &&& forall|k: int|
                0 <= k < built.len() ==> read_node(after.nodes, (#[trigger] built[k]).0) == native_view(pairs[k].0)
            &&& forall|k: int|
                0 <= k < built.len() ==> read_node(after.nodes, (#[trigger] built[k]).1) == native_view(pairs[k].1)
        }),
    decreases pairs, 0nat,
{
    if pairs.len() > 0 {
        let front = pairs.drop_last();
        let (st1, built1) = spec_push_pairs(front, depth, st, limits)->Ok_0;
        lemma_pairs_reads(front, depth, st, limits);
        let pair = pairs.last();
        assert(crate::native::spec_pair_step(pair, depth, st1, limits) is Ok);
        assert(spec_push(pair.0, depth, st1, limits) is Ok);
        lemma_native_push(pair.0, depth, st1, limits);
        lemma_push_reads(pair.0, depth, st1, limits);
        let (st2, key) = spec_push(pair.0, depth, st1, limits)->Ok_0;
        assert(spec_push(pair.1, depth, st2, limits) is Ok);
        lemma_native_push(pair.1, depth, st2, limits);
        lemma_push_reads(pair.1, depth, st2, limits);
        let (after, item) = spec_push(pair.1, depth, st2, limits)->Ok_0;
        lemma_keeps_trans(st1, st2, after);
        lemma_read_stable(st2.nodes, after.nodes, key);
        let built = built1.push((key, item));
        assert forall|k: int| 0 <= k < built.len() implies (#[trigger] built[k]).0 < after.nodes.len() && built[k].1
            < after.nodes.len() && read_node(after.nodes, built[k].0) == native_view(pairs[k].0) && read_node(
            after.nodes,
            built[k].1,
        ) == native_view(pairs[k].1) by {
            if k < built1.len() {
                assert(built[k] == built1[k]);
                assert(front[k] == pairs[k]);
                lemma_read_stable(st1.nodes, after.nodes, built1[k].0);
                lemma_read_stable(st1.nodes, after.nodes, built1[k].1);
            }
        }
    }
}

/// Reading back the root of an arena built from a native value gives that
/// value: building keeps every scalar, every key and the order and kind of
/// every collection.
pub proof fn law_read_back_gives_the_built_value(value: NativeValue, limits: JsonLimits)
    requires
        spec_build_native(value, limits) is Ok,
    ensures
        read_node(spec_build_native(value, limits)->Ok_0.1, spec_build_native(value, limits)->Ok_0.0)
            == native_view(value),
{
    lemma_push_reads(value, 0, NativeState { nodes: Seq::empty(), bytes: 0 }, limits);
}

} // verus!
