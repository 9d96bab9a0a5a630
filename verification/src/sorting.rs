use vstd::prelude::*;

use crate::arena::Arena;
use crate::input::{refers_backwards, InputId, InputValue};
use crate::order::{
    arena_nodes, chains, input_order, law_order_is_antisymmetric, law_order_is_transitive, order_input_ids, reverse,
    then_order, Order,
};

verus! {

/// Ids in the canonical input order: no id is followed by a smaller one.
pub open spec fn sorted_ids(nodes: Seq<crate::input::InputNode>, ids: Seq<InputId>) -> bool {
    forall|i: int, j: int| 0 <= i < j < ids.len() ==> input_order(nodes, ids[i]@, ids[j]@) != Order::Greater
}

/// Every id names a value of the arena.
pub open spec fn ids_in_arena(nodes: Seq<crate::input::InputNode>, ids: Seq<InputId>) -> bool {
    forall|i: int| 0 <= i < ids.len() ==> (#[trigger] ids[i])@ < nodes.len()
}

/// Where insertion puts `x` among sorted ids: before the first id greater
/// than it, after every id that is not, so equal ids keep their order.
pub open spec fn insertion_point(nodes: Seq<crate::input::InputNode>, ids: Seq<InputId>, x: InputId) -> int
    decreases ids.len(),
{
    if ids.len() == 0 {
        0
    } else if input_order(nodes, ids[0]@, x@) == Order::Greater {
        0
    } else {
        1 + insertion_point(nodes, ids.drop_first(), x)
    }
}

/// The ids sorted by inserting each in turn at its insertion point: the
/// stable sort of the ids in the canonical input order.
pub open spec fn stable_sorted(nodes: Seq<crate::input::InputNode>, ids: Seq<InputId>) -> Seq<InputId>
    decreases ids.len(),
{
    if ids.len() == 0 {
        Seq::empty()
    } else {
        let s = stable_sorted(nodes, ids.drop_last());
        s.insert(insertion_point(nodes, s, ids.last()), ids.last())
    }
}

proof fn lemma_insertion_point(nodes: Seq<crate::input::InputNode>, ids: Seq<InputId>, x: InputId, p: int)
    requires
        0 <= p <= ids.len(),
        forall|q: int| 0 <= q < p ==> input_order(nodes, ids[q]@, x@) != Order::Greater,
        p < ids.len() ==> input_order(nodes, ids[p]@, x@) == Order::Greater,
    ensures
        insertion_point(nodes, ids, x) == p,
    decreases p,
{
    if p > 0 {
        let rest = ids.drop_first();
        assert forall|q: int| 0 <= q < p - 1 implies input_order(nodes, rest[q]@, x@) != Order::Greater by {
            assert(rest[q] == ids[q + 1]);
        }
        if p - 1 < rest.len() {
            assert(rest[p - 1] == ids[p]);
        }
        lemma_insertion_point(nodes, rest, x, p - 1);
    }
}

/// Sorting ids that are already in the canonical order leaves them as they
/// are, so sorting twice gives what sorting once gives.
pub proof fn law_sorting_sorted_ids_changes_nothing(nodes: Seq<crate::input::InputNode>, ids: Seq<InputId>)
    requires
        sorted_ids(nodes, ids),
    ensures
        stable_sorted(nodes, ids) == ids,
    decreases ids.len(),
{
    if ids.len() > 0 {
        let init = ids.drop_last();
        assert forall|i: int, j: int| 0 <= i < j < init.len() implies input_order(nodes, init[i]@, init[j]@)
            != Order::Greater by {
            assert(init[i] == ids[i] && init[j] == ids[j]);
        }
        law_sorting_sorted_ids_changes_nothing(nodes, init);
        assert forall|q: int| 0 <= q < init.len() implies input_order(nodes, init[q]@, ids.last()@) != Order::Greater by {
            assert(init[q] == ids[q]);
        }
        lemma_insertion_point(nodes, init, ids.last(), init.len() as int);
        assert(init.insert(init.len() as int, ids.last()) =~= ids);
    }
}

/// Sorts the items of a set or frozen set input into the canonical input
/// order, so that validation meets them, and reports their errors, in an
/// order that does not depend on how the caller's set was laid out. Items
/// that compare equal keep their order.
pub fn sort_set_items(values: &Arena<InputValue>, items: Vec<InputId>) -> (r: Vec<InputId>)
    requires
        refers_backwards(arena_nodes(values)),
        ids_in_arena(arena_nodes(values), items@),
    ensures
        r@ == stable_sorted(arena_nodes(values), items@),
        r@.to_multiset() == items@.to_multiset(),
        sorted_ids(arena_nodes(values), r@),
        ids_in_arena(arena_nodes(values), r@),
{
    let ghost nodes = arena_nodes(values);
    let mut out: Vec<InputId> = Vec::new();
    let mut i: usize = 0;
    proof {
        assert(items@.subrange(0, 0) =~= out@);
    }
    while i < items.len()
        invariant
            i <= items@.len(),
            nodes == arena_nodes(values),
            refers_backwards(nodes),
            ids_in_arena(nodes, items@),
            ids_in_arena(nodes, out@),
            sorted_ids(nodes, out@),
            out@.to_multiset() == items@.subrange(0, i as int).to_multiset(),
            out@ == stable_sorted(nodes, items@.subrange(0, i as int)),
        decreases items@.len() - i,
    {
        let x = items[i];
        let mut p: usize = 0;
        while p < out.len() && !(order_input_ids(values, out[p], x) == Order::Greater)
            invariant
                p <= out@.len(),
                nodes == arena_nodes(values),
                refers_backwards(nodes),
                forall|q: int| 0 <= q < p ==> input_order(nodes, out@[q]@, x@) != Order::Greater,
            decreases out@.len() - p,
        {
            p = p + 1;
        }
        let ghost before = out@;
        proof {
            assert(x@ < nodes.len());
            if p < before.len() {
                lemma_after_greater(nodes, before, x, p as int);
            }
        }
        out.insert(p, x);
        proof {
            lemma_insertion_point(nodes, before, x, p as int);
            assert(items@.subrange(0, i + 1).drop_last() =~= items@.subrange(0, i as int));
            lemma_insert_sorted(nodes, before, x, p as int);
            assert(items@.subrange(0, i + 1) =~= items@.subrange(0, i as int).push(x));
            vstd::seq_lib::to_multiset_insert(before, p as int, x);
            vstd::seq_lib::to_multiset_build(items@.subrange(0, i as int), x);
        }
        i = i + 1;
    }
    proof {
        assert(items@.subrange(0, items@.len() as int) =~= items@);
    }
    out
}

/// Inserting `x` after the ids that are not greater than it and before
/// those greater keeps the ids sorted and in the arena.
proof fn lemma_insert_sorted(nodes: Seq<crate::input::InputNode>, before: Seq<InputId>, x: InputId, p: int)
    requires
        0 <= p <= before.len(),
        x@ < nodes.len(),
        ids_in_arena(nodes, before),
        sorted_ids(nodes, before),
        forall|q: int| 0 <= q < p ==> input_order(nodes, before[q]@, x@) != Order::Greater,
        forall|q: int| p <= q < before.len() ==> input_order(nodes, x@, (#[trigger] before[q])@) == Order::Less,
    ensures
        sorted_ids(nodes, before.insert(p, x)),
        ids_in_arena(nodes, before.insert(p, x)),
{
    let out = before.insert(p, x);
    assert forall|a: int, b: int| 0 <= a < b < out.len() implies input_order(nodes, out[a]@, out[b]@)
        != Order::Greater by {
        if a < p && b == p {
        } else if a == p && b > p {
            assert(out[b] == before[b - 1]);
        } else if a < p && b > p {
            assert(out[b] == before[b - 1]);
        } else if b < p {
        } else {
            assert(out[a] == before[a - 1]);
            assert(out[b] == before[b - 1]);
        }
    }
    assert forall|k: int| 0 <= k < out.len() implies (#[trigger] out[k])@ < nodes.len() by {
        if k > p {
            assert(out[k] == before[k - 1]);
        }
    }
}

/// In sorted ids, every id from the first one greater than `x` onwards is
/// greater than `x`.
proof fn lemma_after_greater(nodes: Seq<crate::input::InputNode>, ids: Seq<InputId>, x: InputId, p: int)
    requires
        refers_backwards(nodes),
        ids_in_arena(nodes, ids),
        x@ < nodes.len(),
        sorted_ids(nodes, ids),
        0 <= p < ids.len(),
        input_order(nodes, ids[p]@, x@) == Order::Greater,
    ensures
        forall|q: int| p <= q < ids.len() ==> input_order(nodes, x@, (#[trigger] ids[q])@) == Order::Less,
{
    assert forall|q: int| p <= q < ids.len() implies input_order(nodes, x@, (#[trigger] ids[q])@) == Order::Less by {
        law_order_is_antisymmetric(nodes, ids[p]@, x@);
        assert(ids[p]@ < nodes.len());
        assert(ids[q]@ < nodes.len());
        law_order_is_transitive(nodes, x@, ids[p]@, ids[q]@);
        if q > p {
            assert(input_order(nodes, ids[p]@, ids[q]@) != Order::Greater);
        } else {
            crate::order::law_order_is_reflexive(nodes, ids[p]@);
        }
    }
}

// ---------------------------------------------------------------------------
// Mapping entries
// ---------------------------------------------------------------------------

/// Two mapping entries in the canonical input order: by key, then by value.
#[verifier::opaque]
pub open spec fn entry_order(nodes: Seq<crate::input::InputNode>, a: (InputId, InputId), b: (InputId, InputId)) -> Order {
    then_order(input_order(nodes, a.0@, b.0@), input_order(nodes, a.1@, b.1@))
}

/// Entries in the canonical input order: no entry is followed by a smaller
/// one.
pub open spec fn sorted_entries(nodes: Seq<crate::input::InputNode>, entries: Seq<(InputId, InputId)>) -> bool {
    forall|i: int, j: int| 0 <= i < j < entries.len() ==> entry_order(nodes, entries[i], entries[j]) != Order::Greater
}

/// Every key and value of the entries names a value of the arena.
pub open spec fn entries_in_arena(nodes: Seq<crate::input::InputNode>, entries: Seq<(InputId, InputId)>) -> bool {
    forall|i: int| 0 <= i < entries.len() ==> (#[trigger] entries[i]).0@ < nodes.len() && entries[i].1@ < nodes.len()
}

proof fn lemma_entry_laws(nodes: Seq<crate::input::InputNode>, a: (InputId, InputId), b: (InputId, InputId), c: (InputId, InputId))
    requires
        refers_backwards(nodes),
        a.0@ < nodes.len() && a.1@ < nodes.len(),
        b.0@ < nodes.len() && b.1@ < nodes.len(),
        c.0@ < nodes.len() && c.1@ < nodes.len(),
    ensures
        entry_order(nodes, a, b) == reverse(entry_order(nodes, b, a)),
        entry_order(nodes, a, a) == Order::Equal,
        chains(entry_order(nodes, a, b), entry_order(nodes, b, c), entry_order(nodes, a, c)),
{
    reveal(entry_order);
    law_order_is_antisymmetric(nodes, a.0@, b.0@);
    law_order_is_antisymmetric(nodes, a.1@, b.1@);
    crate::order::law_order_is_reflexive(nodes, a.0@);
    crate::order::law_order_is_reflexive(nodes, a.1@);
    law_order_is_transitive(nodes, a.0@, b.0@, c.0@);
    law_order_is_transitive(nodes, a.1@, b.1@, c.1@);
}

proof fn lemma_entry_after_greater(
    nodes: Seq<crate::input::InputNode>,
    entries: Seq<(InputId, InputId)>,
    x: (InputId, InputId),
    p: int,
)
    requires
        refers_backwards(nodes),
        entries_in_arena(nodes, entries),
        x.0@ < nodes.len() && x.1@ < nodes.len(),
        sorted_entries(nodes, entries),
        0 <= p < entries.len(),
        entry_order(nodes, entries[p], x) == Order::Greater,
    ensures
        forall|q: int| p <= q < entries.len() ==> entry_order(nodes, x, #[trigger] entries[q]) == Order::Less,
{
    assert forall|q: int| p <= q < entries.len() implies entry_order(nodes, x, #[trigger] entries[q]) == Order::Less by {
        assert(entries[p].0@ < nodes.len() && entries[p].1@ < nodes.len());
        assert(entries[q].0@ < nodes.len() && entries[q].1@ < nodes.len());
        lemma_entry_laws(nodes, x, entries[p], entries[q]);
        lemma_entry_laws(nodes, entries[p], x, entries[q]);
        if q > p {
            assert(entry_order(nodes, entries[p], entries[q]) != Order::Greater);
        } else {
            lemma_entry_laws(nodes, entries[p], entries[p], entries[p]);
        }
    }
}

proof fn lemma_entry_insert_sorted(
    nodes: Seq<crate::input::InputNode>,
    before: Seq<(InputId, InputId)>,
    x: (InputId, InputId),
    p: int,
)
    requires
        0 <= p <= before.len(),
        x.0@ < nodes.len() && x.1@ < nodes.len(),
        entries_in_arena(nodes, before),
        sorted_entries(nodes, before),
        forall|q: int| 0 <= q < p ==> entry_order(nodes, before[q], x) != Order::Greater,
        forall|q: int| p <= q < before.len() ==> entry_order(nodes, x, #[trigger] before[q]) == Order::Less,
    ensures
        sorted_entries(nodes, before.insert(p, x)),
        entries_in_arena(nodes, before.insert(p, x)),
{
    let out = before.insert(p, x);
    assert forall|a: int, b: int| 0 <= a < b < out.len() implies entry_order(nodes, out[a], out[b]) != Order::Greater by {
        if a < p && b == p {
        } else if a == p && b > p {
            assert(out[b] == before[b - 1]);
        } else if a < p && b > p {
            assert(out[b] == before[b - 1]);
        } else if b < p {
        } else {
            assert(out[a] == before[a - 1]);
            assert(out[b] == before[b - 1]);
        }
    }
    assert forall|k: int| 0 <= k < out.len() implies (#[trigger] out[k]).0@ < nodes.len() && out[k].1@ < nodes.len() by {
        if k > p {
            assert(out[k] == before[k - 1]);
        }
    }
}

/// Where insertion puts an entry among sorted entries: before the first
/// entry greater than it, after every entry that is not.
pub open spec fn entry_insertion_point(
    nodes: Seq<crate::input::InputNode>,
    entries: Seq<(InputId, InputId)>,
    x: (InputId, InputId),
) -> int
    decreases entries.len(),
{
    if entries.len() == 0 {
        0
    } else if entry_order(nodes, entries[0], x) == Order::Greater {
        0
    } else {
        1 + entry_insertion_point(nodes, entries.drop_first(), x)
    }
}

/// The entries sorted by inserting each in turn at its insertion point: the
/// stable sort of the entries by key and then by value.
pub open spec fn stable_sorted_entries(nodes: Seq<crate::input::InputNode>, entries: Seq<(InputId, InputId)>) -> Seq<
    (InputId, InputId),
>
    decreases entries.len(),
{
    if entries.len() == 0 {
        Seq::empty()
    } else {
        let s = stable_sorted_entries(nodes, entries.drop_last());
        s.insert(entry_insertion_point(nodes, s, entries.last()), entries.last())
    }
}

proof fn lemma_entry_insertion_point(
    nodes: Seq<crate::input::InputNode>,
    entries: Seq<(InputId, InputId)>,
    x: (InputId, InputId),
    p: int,
)
    requires
        0 <= p <= entries.len(),
        forall|q: int| 0 <= q < p ==> entry_order(nodes, entries[q], x) != Order::Greater,
        p < entries.len() ==> entry_order(nodes, entries[p], x) == Order::Greater,
    ensures
        entry_insertion_point(nodes, entries, x) == p,
    decreases p,
{
    if p > 0 {
        let rest = entries.drop_first();
        assert forall|q: int| 0 <= q < p - 1 implies entry_order(nodes, rest[q], x) != Order::Greater by {
            assert(rest[q] == entries[q + 1]);
        }
        if p - 1 < rest.len() {
            assert(rest[p - 1] == entries[p]);
        }
        lemma_entry_insertion_point(nodes, rest, x, p - 1);
    }
}

fn entry_order_of(values: &Arena<InputValue>, a: (InputId, InputId), b: (InputId, InputId)) -> (r: Order)
    requires
        refers_backwards(arena_nodes(values)),
    ensures
        r == entry_order(arena_nodes(values), a, b),
{
    reveal(entry_order);
    match order_input_ids(values, a.0, b.0) {
        Order::Equal => order_input_ids(values, a.1, b.1),
        other => other,
    }
}

/// Sorts the entries of a mapping input into the canonical input order, by
/// key and then by value, so that validation meets them, and reports their
/// errors, in an order that does not depend on how the caller's mapping was
/// laid out. Entries that compare equal keep their order.
pub fn sort_mapping_entries(values: &Arena<InputValue>, entries: Vec<(InputId, InputId)>) -> (r: Vec<(InputId, InputId)>)
    requires
        refers_backwards(arena_nodes(values)),
        entries_in_arena(arena_nodes(values), entries@),
    ensures
        r@ == stable_sorted_entries(arena_nodes(values), entries@),
        r@.to_multiset() == entries@.to_multiset(),
        sorted_entries(arena_nodes(values), r@),
        entries_in_arena(arena_nodes(values), r@),
{
    let ghost nodes = arena_nodes(values);
    let mut out: Vec<(InputId, InputId)> = Vec::new();
    let mut i: usize = 0;
    proof {
        assert(entries@.subrange(0, 0) =~= out@);
    }
    while i < entries.len()
        invariant
            i <= entries@.len(),
            nodes == arena_nodes(values),
            refers_backwards(nodes),
            entries_in_arena(nodes, entries@),
            entries_in_arena(nodes, out@),
            sorted_entries(nodes, out@),
            out@.to_multiset() == entries@.subrange(0, i as int).to_multiset(),
            out@ == stable_sorted_entries(nodes, entries@.subrange(0, i as int)),
        decreases entries@.len() - i,
    {
        let x = entries[i];
        let mut p: usize = 0;
        while p < out.len() && !(entry_order_of(values, out[p], x) == Order::Greater)
            invariant
                p <= out@.len(),
                nodes == arena_nodes(values),
                refers_backwards(nodes),
                forall|q: int| 0 <= q < p ==> entry_order(nodes, out@[q], x) != Order::Greater,
            decreases out@.len() - p,
        {
            p = p + 1;
        }
        let ghost before = out@;
        proof {
            assert(x == entries@[i as int]);
            if p < before.len() {
                lemma_entry_after_greater(nodes, before, x, p as int);
            }
        }
        out.insert(p, x);
        proof {
            lemma_entry_insertion_point(nodes, before, x, p as int);
            assert(entries@.subrange(0, i + 1).drop_last() =~= entries@.subrange(0, i as int));
            lemma_entry_insert_sorted(nodes, before, x, p as int);
            assert(entries@.subrange(0, i + 1) =~= entries@.subrange(0, i as int).push(x));
            vstd::seq_lib::to_multiset_insert(before, p as int, x);
            vstd::seq_lib::to_multiset_build(entries@.subrange(0, i as int), x);
        }
        i = i + 1;
    }
    proof {
        assert(entries@.subrange(0, entries@.len() as int) =~= entries@);
    }
    out
}

} // verus!
