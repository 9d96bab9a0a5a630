use vstd::prelude::*;

use crate::error::{plain_error, type_error, DetailView, ValidationError, ValidationLimits};
use crate::input::{refers_backwards, refs_below, InputArena, InputId, InputNode, InputValue};
use crate::text::utf8_bytes;

verus! {

// ---------------------------------------------------------------------------
// The walk over an input arena
// ---------------------------------------------------------------------------

/// `n` capped at `usize::MAX`, as a chain of `saturating_add` leaves a sum.
pub open spec fn saturate(n: nat) -> nat {
    if n > usize::MAX {
        usize::MAX as nat
    } else {
        n
    }
}

/// The UTF-8 bytes of an object's keys.
pub open spec fn key_bytes(entries: Seq<(Seq<char>, nat)>) -> nat
    decreases entries.len(),
{
    if entries.len() == 0 {
        0
    } else {
        key_bytes(entries.drop_last()) + utf8_bytes(entries.last().0).len()
    }
}

/// The string bytes that one visit of a node counts: its text or bytes,
/// both parts of a fraction, or the keys of an object.
pub open spec fn own_bytes(node: InputNode) -> nat {
    match node {
        InputNode::Integer(s) => utf8_bytes(s).len(),
        InputNode::Decimal(s) => utf8_bytes(s).len(),
        InputNode::String(s) => utf8_bytes(s).len(),
        InputNode::Date(s) => utf8_bytes(s).len(),
        InputNode::Time(s) => utf8_bytes(s).len(),
        InputNode::DateTime(s) => utf8_bytes(s).len(),
        InputNode::Duration(s) => utf8_bytes(s).len(),
        InputNode::Uuid(s) => utf8_bytes(s).len(),
        InputNode::Url(s) => utf8_bytes(s).len(),
        InputNode::Pattern { source, .. } => utf8_bytes(source).len(),
        InputNode::Bytes(b) => b.len(),
        InputNode::Fraction { numerator, denominator } => utf8_bytes(numerator).len() + utf8_bytes(
            denominator,
        ).len(),
        InputNode::Object { entries, .. } => key_bytes(entries),
        _ => 0,
    }
}

/// A mapping's keys and values, each key before its value.
pub open spec fn pair_ids(entries: Seq<(nat, nat)>) -> Seq<nat>
    decreases entries.len(),
{
    if entries.len() == 0 {
        Seq::empty()
    } else {
        pair_ids(entries.drop_last()) + seq![entries.last().0, entries.last().1]
    }
}

/// The positions a node refers to, in the order the walk stacks them.
pub open spec fn children(node: InputNode) -> Seq<nat> {
    match node {
        InputNode::Sequence { items, .. } => items,
        InputNode::Object { entries, .. } => entries.map_values(|e: (Seq<char>, nat)| e.1),
        InputNode::Mapping(entries) => pair_ids(entries),
        _ => Seq::empty(),
    }
}

/// How many items or entries a collection node holds; zero for a scalar.
pub open spec fn collection_len(node: InputNode) -> nat {
    match node {
        InputNode::Sequence { items, .. } => items.len(),
        InputNode::Object { entries, .. } => entries.len(),
        InputNode::Mapping(entries) => entries.len(),
        _ => 0,
    }
}

/// The visits, as position and depth, of a depth-first walk from `id` at
/// `depth`: the node itself, then its children from the last to the first.
/// A position outside the arena is visited and has no children.
pub open spec fn visits(nodes: Seq<InputNode>, id: nat, depth: nat) -> Seq<(nat, nat)>
    decreases id, 1nat, 0nat,
{
    if id >= nodes.len() {
        seq![(id, depth)]
    } else {
        seq![(id, depth)] + visits_below(nodes, children(nodes[id as int]), depth + 1, id)
    }
}

/// The walks from `ids` at `depth`, the last first; positions at or above
/// `bound` are skipped.
pub open spec fn visits_below(nodes: Seq<InputNode>, ids: Seq<nat>, depth: nat, bound: nat) -> Seq<(nat, nat)>
    decreases bound, 0nat, ids.len(),
{
    if ids.len() == 0 {
        Seq::empty()
    } else {
        (if ids.last() < bound {
            visits(nodes, ids.last(), depth)
        } else {
            Seq::empty()
        }) + visits_below(nodes, ids.drop_last(), depth, bound)
    }
}

/// The walks still owed for a stack of pending positions, top first.
pub open spec fn stack_visits(nodes: Seq<InputNode>, pending: Seq<(nat, nat)>) -> Seq<(nat, nat)>
    decreases pending.len(),
{
    if pending.len() == 0 {
        Seq::empty()
    } else {
        visits(nodes, pending.last().0, pending.last().1) + stack_visits(nodes, pending.drop_last())
    }
}

/// Why an input was refused by the limit walk.
#[derive(Clone, Copy, Debug, PartialEq, Eq, Structural)]
pub enum LimitFault {
    Depth,
    MissingNode,
    Collection,
    StringBytes,
}

/// The first visit that breaks a limit, checking each visit in turn: its
/// depth, that its position exists, its collection size, then the string
/// bytes counted so far with its own.
pub open spec fn first_fault(nodes: Seq<InputNode>, walk: Seq<(nat, nat)>, bytes: nat, limits: ValidationLimits) -> Option<
    LimitFault,
>
    decreases walk.len(),
{
    if walk.len() == 0 {
        None
    } else {
        let (id, depth) = walk[0];
        if depth > limits.max_depth {
            Some(LimitFault::Depth)
        } else if id >= nodes.len() {
            Some(LimitFault::MissingNode)
        } else if collection_len(nodes[id as int]) > limits.max_collection_items {
            Some(LimitFault::Collection)
        } else if saturate(bytes + own_bytes(nodes[id as int])) > limits.max_string_bytes {
            Some(LimitFault::StringBytes)
        } else {
            first_fault(nodes, walk.drop_first(), saturate(bytes + own_bytes(nodes[id as int])), limits)
        }
    }
}

/// The error that reports a limit fault.
pub open spec fn fault_error(fault: LimitFault) -> (Seq<DetailView>, bool) {
    match fault {
        LimitFault::Depth => plain_error(
            "recursion_limit"@,
            "Validation recursion limit exceeded"@,
            "bounded input"@,
        ),
        LimitFault::MissingNode => plain_error(
            "internal_input"@,
            "Input arena index is invalid"@,
            "valid input arena"@,
        ),
        LimitFault::Collection => plain_error(
            "resource_limit"@,
            "Validation collection item limit exceeded"@,
            "bounded input"@,
        ),
        LimitFault::StringBytes => plain_error(
            "resource_limit"@,
            "Validation string byte limit exceeded"@,
            "bounded input"@,
        ),
    }
}

// ---------------------------------------------------------------------------
// Lemmas on the walk
// ---------------------------------------------------------------------------

proof fn lemma_stack_append(nodes: Seq<InputNode>, a: Seq<(nat, nat)>, b: Seq<(nat, nat)>)
    ensures
        stack_visits(nodes, a + b) == stack_visits(nodes, b) + stack_visits(nodes, a),
    decreases b.len(),
{
    if b.len() == 0 {
        assert(a + b =~= a);
        assert(stack_visits(nodes, b) + stack_visits(nodes, a) =~= stack_visits(nodes, a));
    } else {
        assert((a + b).drop_last() =~= a + b.drop_last());
        assert((a + b).last() == b.last());
        lemma_stack_append(nodes, a, b.drop_last());
        let v = visits(nodes, b.last().0, b.last().1);
        assert(v + (stack_visits(nodes, b.drop_last()) + stack_visits(nodes, a)) =~= (v + stack_visits(
            nodes,
            b.drop_last(),
        )) + stack_visits(nodes, a));
    }
}

/// Stacking `ids` at one depth owes the walks of `visits_below`.
proof fn lemma_children_stack(nodes: Seq<InputNode>, ids: Seq<nat>, depth: nat, bound: nat)
    requires
        forall|k: int| 0 <= k < ids.len() ==> #[trigger] ids[k] < bound,
    ensures
        stack_visits(nodes, ids.map_values(|c: nat| (c, depth))) == visits_below(nodes, ids, depth, bound),
    decreases ids.len(),
{
    let stacked = ids.map_values(|c: nat| (c, depth));
    if ids.len() > 0 {
        assert(stacked.drop_last() =~= ids.drop_last().map_values(|c: nat| (c, depth)));
        assert(ids.last() == ids[ids.len() - 1]);
        lemma_children_stack(nodes, ids.drop_last(), depth, bound);
    } else {
        assert(stacked =~= Seq::<(nat, nat)>::empty());
    }
}

proof fn lemma_pair_ids(entries: Seq<(nat, nat)>, bound: nat)
    requires
        forall|i: int| 0 <= i < entries.len() ==> (#[trigger] entries[i]).0 < bound && entries[i].1 < bound,
    ensures
        pair_ids(entries).len() == 2 * entries.len(),
        forall|k: int| 0 <= k < pair_ids(entries).len() ==> #[trigger] pair_ids(entries)[k] < bound,
    decreases entries.len(),
{
    if entries.len() > 0 {
        let rest = entries.drop_last();
        assert forall|i: int| 0 <= i < rest.len() implies (#[trigger] rest[i]).0 < bound && rest[i].1 < bound by {
            assert(rest[i] == entries[i]);
        }
        lemma_pair_ids(rest, bound);
        assert(entries.last() == entries[entries.len() - 1]);
    }
}

/// Every child of a node of a backwards-referring arena lies below it.
proof fn lemma_children_below(node: InputNode, id: nat)
    requires
        refs_below(node, id),
    ensures
        forall|k: int| 0 <= k < children(node).len() ==> #[trigger] children(node)[k] < id,
{
    match node {
        InputNode::Mapping(entries) => {
            lemma_pair_ids(entries, id);
        },
        InputNode::Object { entries, .. } => {
            assert forall|k: int| 0 <= k < children(node).len() implies #[trigger] children(node)[k] < id by {
                assert(children(node)[k] == entries[k].1);
            }
        },
        _ => {},
    }
}

/// Popping the top of the stack visits it and stacks its children one
/// level deeper.
proof fn lemma_pop(nodes: Seq<InputNode>, pending: Seq<(nat, nat)>)
    requires
        refers_backwards(nodes),
        pending.len() > 0,
        pending.last().0 < nodes.len(),
    ensures
        stack_visits(nodes, pending) == seq![pending.last()] + stack_visits(
            nodes,
            pending.drop_last() + children(nodes[pending.last().0 as int]).map_values(
                |c: nat| (c, pending.last().1 + 1),
            ),
        ),
{
    let (id, depth) = pending.last();
    let node = nodes[id as int];
    let cs = children(node);
    let stacked = cs.map_values(|c: nat| (c, depth + 1));
    assert(refs_below(nodes[id as int], id));
    lemma_children_below(node, id);
    lemma_children_stack(nodes, cs, depth + 1, id);
    lemma_stack_append(nodes, pending.drop_last(), stacked);
    assert(seq![(id, depth)] + visits_below(nodes, cs, depth + 1, id) + stack_visits(nodes, pending.drop_last())
        =~= seq![(id, depth)] + (visits_below(nodes, cs, depth + 1, id) + stack_visits(
        nodes,
        pending.drop_last(),
    )));
}

proof fn lemma_visits_start(nodes: Seq<InputNode>, pending: Seq<(nat, nat)>)
    requires
        pending.len() > 0,
    ensures
        stack_visits(nodes, pending).len() > 0,
        stack_visits(nodes, pending)[0] == pending.last(),
{
    let (id, depth) = pending.last();
    assert(visits(nodes, id, depth)[0] == (id, depth));
}

// ---------------------------------------------------------------------------
// What the limit walk accepts
// ---------------------------------------------------------------------------

/// A visit at a permitted depth, of a position in the arena, of a
/// collection within the item limit.
pub open spec fn visit_within(nodes: Seq<InputNode>, visit: (nat, nat), limits: ValidationLimits) -> bool {
    &&& visit.1 <= limits.max_depth
    &&& visit.0 < nodes.len()
    &&& collection_len(nodes[visit.0 as int]) <= limits.max_collection_items
}

/// The string bytes of a walk, over all its visits.
pub open spec fn walk_bytes(nodes: Seq<InputNode>, walk: Seq<(nat, nat)>) -> nat
    decreases walk.len(),
{
    if walk.len() == 0 {
        0
    } else {
        own_bytes(nodes[walk[0].0 as int]) + walk_bytes(nodes, walk.drop_first())
    }
}

proof fn lemma_first_fault(nodes: Seq<InputNode>, walk: Seq<(nat, nat)>, bytes: nat, limits: ValidationLimits)
    requires
        bytes <= limits.max_string_bytes,
    ensures
        first_fault(nodes, walk, bytes, limits) is None <==> (forall|k: int|
            0 <= k < walk.len() ==> visit_within(nodes, #[trigger] walk[k], limits)) && saturate(
            bytes + walk_bytes(nodes, walk),
        ) <= limits.max_string_bytes,
    decreases walk.len(),
{
    if walk.len() > 0 {
        let v = walk[0];
        let rest = walk.drop_first();
        assert(walk_bytes(nodes, walk) == own_bytes(nodes[v.0 as int]) + walk_bytes(nodes, rest));
        if !visit_within(nodes, v, limits) {
            assert(!visit_within(nodes, walk[0], limits));
        } else if saturate(bytes + own_bytes(nodes[v.0 as int])) > limits.max_string_bytes {
            assert(saturate(bytes + walk_bytes(nodes, walk)) >= saturate(bytes + own_bytes(nodes[v.0 as int])));
        } else {
            let b2 = saturate(bytes + own_bytes(nodes[v.0 as int]));
            lemma_first_fault(nodes, rest, b2, limits);
            assert(saturate(b2 + walk_bytes(nodes, rest)) == saturate(bytes + walk_bytes(nodes, walk)));
            if forall|k: int| 0 <= k < rest.len() ==> visit_within(nodes, #[trigger] rest[k], limits) {
                assert forall|k: int| 0 <= k < walk.len() implies visit_within(nodes, #[trigger] walk[k], limits) by {
                    if k > 0 {
                        assert(walk[k] == rest[k - 1]);
                    }
                }
            } else {
                let k = choose|k: int| 0 <= k < rest.len() && !visit_within(nodes, #[trigger] rest[k], limits);
                assert(walk[k + 1] == rest[k]);
            }
        }
    }
}

/// The limit walk accepts exactly the inputs where every visit stays at a
/// permitted depth, in the arena and within the collection limit, and the
/// string bytes of all visits together stay within the byte limit: which
/// visit is checked first decides only which error is reported.
pub proof fn law_limit_walk_accepts_bounded_inputs(
    nodes: Seq<InputNode>,
    root: nat,
    start_depth: nat,
    limits: ValidationLimits,
)
    ensures
        first_fault(nodes, visits(nodes, root, start_depth), 0, limits) is None <==> (forall|k: int|
            0 <= k < visits(nodes, root, start_depth).len() ==> visit_within(
                nodes,
                #[trigger] visits(nodes, root, start_depth)[k],
                limits,
            )) && saturate(walk_bytes(nodes, visits(nodes, root, start_depth))) <= limits.max_string_bytes,
{
    lemma_first_fault(nodes, visits(nodes, root, start_depth), 0, limits);
}

// ---------------------------------------------------------------------------
// The checks
// ---------------------------------------------------------------------------

/// Refuses a collection with more items than the limit.
pub fn check_collection_limit(length: usize, limits: ValidationLimits) -> (r: Result<(), ValidationError>)
    ensures
        r is Ok <==> length <= limits.max_collection_items,
        r matches Err(e) ==> e@ == fault_error(LimitFault::Collection),
{
    if length > limits.max_collection_items {
        Err(type_error("resource_limit", "Validation collection item limit exceeded", "bounded input"))
    } else {
        Ok(())
    }
}

/// The positions of pending visits, as plain values.
pub open spec fn pending_view(pending: Seq<(InputId, usize)>) -> Seq<(nat, nat)> {
    pending.map_values(|p: (InputId, usize)| (p.0@, p.1 as nat))
}

/// Walks the input below `root` depth first and refuses it at the first
/// visit that breaks a limit: a depth past the maximum, a position outside
/// the arena, a collection with too many items, or more string bytes, over
/// every visit so far, than allowed.
pub fn check_input_limits(input: &InputArena, root: InputId, start_depth: usize, limits: ValidationLimits) -> (r:
    Result<(), ValidationError>)
    requires
        limits.max_depth < usize::MAX,
    ensures
        match first_fault(input.spec_nodes(), visits(input.spec_nodes(), root@, start_depth as nat), 0, limits) {
            None => r is Ok,
            Some(fault) => r matches Err(e) && e@ == fault_error(fault),
        },
{
    let ghost nodes = input.spec_nodes();
    let ghost expected = first_fault(nodes, visits(nodes, root@, start_depth as nat), 0, limits);
    let mut pending: Vec<(InputId, usize)> = Vec::new();
    pending.push((root, start_depth));
    let mut string_bytes: usize = 0;
    let _ = input.root();
    proof {
        let p = pending_view(pending@);
        assert(p.len() == 1);
        assert(p.last() == (root@, start_depth as nat));
        assert(p.drop_last() =~= Seq::<(nat, nat)>::empty());
        assert(stack_visits(nodes, p.drop_last()) =~= Seq::<(nat, nat)>::empty());
        assert(stack_visits(nodes, p) =~= visits(nodes, root@, start_depth as nat));
    }
    while pending.len() > 0
        invariant
            nodes == input.spec_nodes(),
            refers_backwards(nodes),
            limits.max_depth < usize::MAX,
            expected == first_fault(nodes, visits(nodes, root@, start_depth as nat), 0, limits),
            expected == first_fault(nodes, stack_visits(nodes, pending_view(pending@)), string_bytes as nat, limits),
        decreases stack_visits(nodes, pending_view(pending@)).len(),
    {
        let ghost before = pending_view(pending@);
        let ghost bytes0 = string_bytes as nat;
        proof {
            lemma_visits_start(nodes, before);
        }
        let (id, depth) = match pending.pop() {
            Some(top) => top,
            None => return Ok(()),
        };
        assert(pending_view(pending@) =~= before.drop_last());
        assert(before.last() == (id@, depth as nat));
        if depth > limits.max_depth {
            return Err(type_error("recursion_limit", "Validation recursion limit exceeded", "bounded input"));
        }
        let value = match input.get(id) {
            Some(value) => value,
            None => {
                return Err(type_error("internal_input", "Input arena index is invalid", "valid input arena"));
            },
        };
        let ghost node = nodes[id@ as int];
        assert(value@ == node);
        proof {
            lemma_pop(nodes, before);
        }
        let ghost owed = children(node).map_values(|c: nat| (c, depth as nat + 1));
        let byte_count: usize = match value {
            InputValue::Integer(s) => s.as_str().as_bytes().len(),
            InputValue::Decimal(s) => s.as_str().as_bytes().len(),
            InputValue::String(s) => s.as_str().as_bytes().len(),
            InputValue::Date(s) => s.as_str().as_bytes().len(),
            InputValue::Time(s) => s.as_str().as_bytes().len(),
            InputValue::DateTime(s) => s.as_str().as_bytes().len(),
            InputValue::Duration(s) => s.as_str().as_bytes().len(),
            InputValue::Uuid(s) => s.as_str().as_bytes().len(),
            InputValue::Url(s) => s.as_str().as_bytes().len(),
            InputValue::Pattern { source, .. } => source.as_str().as_bytes().len(),
            InputValue::Bytes(b) => b.len(),
            InputValue::Fraction { numerator, denominator } => numerator.as_str().as_bytes().len().saturating_add(
                denominator.as_str().as_bytes().len(),
            ),
            InputValue::Sequence { items, .. } => {
                if let Err(e) = check_collection_limit(items.len(), limits) {
                    return Err(e);
                }
                let mut k: usize = 0;
                while k < items.len()
                    invariant
                        k <= items@.len(),
                        children(node) == items@.map_values(|x: InputId| x@),
                        pending_view(pending@) == before.drop_last() + children(node).take(k as int).map_values(
                            |c: nat| (c, depth as nat + 1),
                        ),
                        depth < usize::MAX,
                    decreases items@.len() - k,
                {
                    let ghost was = pending_view(pending@);
                    pending.push((items[k], depth + 1));
                    proof {
                        assert(children(node).take(k + 1) =~= children(node).take(k as int).push(items@[k as int]@));
                        assert(pending_view(pending@) =~= was.push((items@[k as int]@, depth as nat + 1)));
                        assert(children(node).take(k + 1).map_values(|c: nat| (c, depth as nat + 1))
                            =~= children(node).take(k as int).map_values(|c: nat| (c, depth as nat + 1)).push(
                            (items@[k as int]@, depth as nat + 1),
                        ));
                    }
                    k = k + 1;
                }
                assert(children(node).take(items@.len() as int) =~= children(node));
                0
            },
            InputValue::Object { entries, .. } => {
                if let Err(e) = check_collection_limit(entries.len(), limits) {
                    return Err(e);
                }
                let mut k: usize = 0;
                while k < entries.len()
                    invariant
                        k <= entries@.len(),
                        children(node) == entries@.map_values(|e: (String, InputId)| e.1@),
                        own_bytes(node) == key_bytes(entries@.map_values(|e: (String, InputId)| (e.0@, e.1@))),
                        pending_view(pending@) == before.drop_last() + children(node).take(k as int).map_values(
                            |c: nat| (c, depth as nat + 1),
                        ),
                        string_bytes as nat == saturate(
                            bytes0 + key_bytes(entries@.take(k as int).map_values(|e: (String, InputId)| (e.0@, e.1@))),
                        ),
                        depth < usize::MAX,
                    decreases entries@.len() - k,
                {
                    let ghost was = pending_view(pending@);
                    let ghost es = entries@.map_values(|e: (String, InputId)| (e.0@, e.1@));
                    string_bytes = string_bytes.saturating_add(entries[k].0.as_str().as_bytes().len());
                    pending.push((entries[k].1, depth + 1));
                    proof {
                        assert(es.take(k + 1).drop_last() =~= es.take(k as int));
                        assert(entries@.take(k + 1).map_values(|e: (String, InputId)| (e.0@, e.1@)) =~= es.take(
                            k + 1,
                        ));
                        assert(entries@.take(k as int).map_values(|e: (String, InputId)| (e.0@, e.1@)) =~= es.take(
                            k as int,
                        ));
                        assert(children(node).take(k + 1) =~= children(node).take(k as int).push(entries@[k as int].1@));
                        assert(pending_view(pending@) =~= was.push((entries@[k as int].1@, depth as nat + 1)));
                        assert(children(node).take(k + 1).map_values(|c: nat| (c, depth as nat + 1))
                            =~= children(node).take(k as int).map_values(|c: nat| (c, depth as nat + 1)).push(
                            (entries@[k as int].1@, depth as nat + 1),
                        ));
                    }
                    k = k + 1;
                }
                assert(children(node).take(entries@.len() as int) =~= children(node));
                assert(entries@.take(entries@.len() as int) =~= entries@);
                0
            },
            InputValue::Mapping(entries) => {
                if let Err(e) = check_collection_limit(entries.len(), limits) {
                    return Err(e);
                }
                let mut k: usize = 0;
                while k < entries.len()
                    invariant
                        k <= entries@.len(),
                        children(node) == pair_ids(entries@.map_values(|e: (InputId, InputId)| (e.0@, e.1@))),
                        pending_view(pending@) == before.drop_last() + pair_ids(
                            entries@.take(k as int).map_values(|e: (InputId, InputId)| (e.0@, e.1@)),
                        ).map_values(|c: nat| (c, depth as nat + 1)),
                        depth < usize::MAX,
                    decreases entries@.len() - k,
                {
                    let ghost was = pending_view(pending@);
                    let ghost es = entries@.map_values(|e: (InputId, InputId)| (e.0@, e.1@));
                    pending.push((entries[k].0, depth + 1));
                    pending.push((entries[k].1, depth + 1));
                    proof {
                        assert(es.take(k + 1).drop_last() =~= es.take(k as int));
                        assert(entries@.take(k + 1).map_values(|e: (InputId, InputId)| (e.0@, e.1@)) =~= es.take(
                            k + 1,
                        ));
                        assert(entries@.take(k as int).map_values(|e: (InputId, InputId)| (e.0@, e.1@)) =~= es.take(
                            k as int,
                        ));
                        let pk = pair_ids(es.take(k as int));
                        assert(pair_ids(es.take(k + 1)) == pk + seq![es[k as int].0, es[k as int].1]);
                        assert(pair_ids(es.take(k + 1)).map_values(|c: nat| (c, depth as nat + 1)) =~= pk.map_values(
                            |c: nat| (c, depth as nat + 1),
                        ).push((es[k as int].0, depth as nat + 1)).push((es[k as int].1, depth as nat + 1)));
                        assert(pending_view(pending@) =~= was.push((entries@[k as int].0@, depth as nat + 1)).push(
                            (entries@[k as int].1@, depth as nat + 1),
                        ));
                    }
                    k = k + 1;
                }
                assert(entries@.take(entries@.len() as int) =~= entries@);
                0
            },
            InputValue::Null => 0,
            InputValue::Bool(_) => 0,
            InputValue::Float(_) => 0,
            InputValue::Complex { .. } => 0,
        };
        assert(pending_view(pending@) =~= before.drop_last() + owed);
        string_bytes = string_bytes.saturating_add(byte_count);
        assert(string_bytes as nat == saturate(bytes0 + own_bytes(node)));
        if string_bytes > limits.max_string_bytes {
            return Err(type_error("resource_limit", "Validation string byte limit exceeded", "bounded input"));
        }
        proof {
            let walk = stack_visits(nodes, before);
            let next = stack_visits(nodes, pending_view(pending@));
            assert(owed =~= children(node).map_values(|c: nat| (c, before.last().1 + 1)));
            assert(walk == seq![(id@, depth as nat)] + next);
            assert(walk.drop_first() =~= next);
            assert(walk[0] == (id@, depth as nat));
        }
    }
    proof {
        assert(stack_visits(nodes, pending_view(pending@)) =~= Seq::<(nat, nat)>::empty());
    }
    Ok(())
}

// ---------------------------------------------------------------------------
// The strings profile
// ---------------------------------------------------------------------------

/// Why an input was refused by the strings profile.
#[derive(Clone, Copy, Debug, PartialEq, Eq, Structural)]
pub enum StringsFault {
    NotString,
    MissingNode,
}

/// A node that the strings profile admits: a string, or a collection whose
/// members are checked in turn.
pub open spec fn strings_node(node: InputNode) -> bool {
    node is String || node is Sequence || node is Object || node is Mapping
}

/// The first visit of a walk that the strings profile refuses.
pub open spec fn strings_fault(nodes: Seq<InputNode>, walk: Seq<(nat, nat)>) -> Option<StringsFault>
    decreases walk.len(),
{
    if walk.len() == 0 {
        None
    } else if walk[0].0 >= nodes.len() {
        Some(StringsFault::MissingNode)
    } else if strings_node(nodes[walk[0].0 as int]) {
        strings_fault(nodes, walk.drop_first())
    } else {
        Some(StringsFault::NotString)
    }
}

/// The error that reports a strings-profile fault.
pub open spec fn strings_fault_error(fault: StringsFault) -> (Seq<DetailView>, bool) {
    match fault {
        StringsFault::NotString => plain_error(
            "strings_type"@,
            "Strings profile requires string scalar leaves"@,
            "structural strings"@,
        ),
        StringsFault::MissingNode => plain_error(
            "internal_input"@,
            "Input arena index is invalid"@,
            "valid input arena"@,
        ),
    }
}

/// Pending positions paired with the depths they were stacked at.
pub open spec fn with_depths(pending: Seq<InputId>, depths: Seq<nat>) -> Seq<(nat, nat)> {
    Seq::new(pending.len(), |i: int| (pending[i]@, depths[i]))
}

/// Walks the input below `root` depth first and refuses it at the first
/// visit that is neither a string nor a collection, or that lies outside
/// the arena.
pub fn check_strings_profile(input: &InputArena, root: InputId) -> (r: Result<(), ValidationError>)
    ensures
        match strings_fault(input.spec_nodes(), visits(input.spec_nodes(), root@, 0)) {
            None => r is Ok,
            Some(fault) => r matches Err(e) && e@ == strings_fault_error(fault),
        },
{
    let ghost nodes = input.spec_nodes();
    let ghost expected = strings_fault(nodes, visits(nodes, root@, 0));
    let _ = input.root();
    let mut pending: Vec<InputId> = Vec::new();
    pending.push(root);
    let ghost mut depths: Seq<nat> = seq![0nat];
    proof {
        let p = with_depths(pending@, depths);
        assert(p.len() == 1);
        assert(p.last() == (root@, 0nat));
        assert(p.drop_last() =~= Seq::<(nat, nat)>::empty());
        assert(stack_visits(nodes, p.drop_last()) =~= Seq::<(nat, nat)>::empty());
        assert(stack_visits(nodes, p) =~= visits(nodes, root@, 0));
    }
    while pending.len() > 0
        invariant
            nodes == input.spec_nodes(),
            refers_backwards(nodes),
            depths.len() == pending@.len(),
            expected == strings_fault(nodes, visits(nodes, root@, 0)),
            expected == strings_fault(nodes, stack_visits(nodes, with_depths(pending@, depths))),
        decreases stack_visits(nodes, with_depths(pending@, depths)).len(),
    {
        let ghost before = with_depths(pending@, depths);
        let ghost depth = depths.last();
        proof {
            lemma_visits_start(nodes, before);
        }
        let id = match pending.pop() {
            Some(top) => top,
            None => return Ok(()),
        };
        proof {
            depths = depths.drop_last();
            assert(with_depths(pending@, depths) =~= before.drop_last());
            assert(before.last() == (id@, depth));
        }
        let value = match input.get(id) {
            Some(value) => value,
            None => {
                return Err(type_error("internal_input", "Input arena index is invalid", "valid input arena"));
            },
        };
        let ghost node = nodes[id@ as int];
        assert(value@ == node);
        proof {
            lemma_pop(nodes, before);
        }
        let ghost owed = children(node).map_values(|c: nat| (c, depth + 1));
        match value {
            InputValue::String(_) => {},
            InputValue::Sequence { items, .. } => {
                let mut k: usize = 0;
                while k < items.len()
                    invariant
                        k <= items@.len(),
                        children(node) == items@.map_values(|x: InputId| x@),
                        depths.len() == pending@.len(),
                        with_depths(pending@, depths) == before.drop_last() + children(node).take(k as int).map_values(
                            |c: nat| (c, depth + 1),
                        ),
                    decreases items@.len() - k,
                {
                    let ghost was = with_depths(pending@, depths);
                    pending.push(items[k]);
                    proof {
                        depths = depths.push(depth + 1);
                        assert(children(node).take(k + 1) =~= children(node).take(k as int).push(items@[k as int]@));
                        assert(with_depths(pending@, depths) =~= was.push((items@[k as int]@, depth + 1)));
                        assert(children(node).take(k + 1).map_values(|c: nat| (c, depth + 1))
                            =~= children(node).take(k as int).map_values(|c: nat| (c, depth + 1)).push(
                            (items@[k as int]@, depth + 1),
                        ));
                    }
                    k = k + 1;
                }
                assert(children(node).take(items@.len() as int) =~= children(node));
            },
            InputValue::Object { entries, .. } => {
                let mut k: usize = 0;
                while k < entries.len()
                    invariant
                        k <= entries@.len(),
                        children(node) == entries@.map_values(|e: (String, InputId)| e.1@),
                        depths.len() == pending@.len(),
                        with_depths(pending@, depths) == before.drop_last() + children(node).take(k as int).map_values(
                            |c: nat| (c, depth + 1),
                        ),
                    decreases entries@.len() - k,
                {
                    let ghost was = with_depths(pending@, depths);
                    pending.push(entries[k].1);
                    proof {
                        depths = depths.push(depth + 1);
                        assert(children(node).take(k + 1) =~= children(node).take(k as int).push(entries@[k as int].1@));
                        assert(with_depths(pending@, depths) =~= was.push((entries@[k as int].1@, depth + 1)));
                        assert(children(node).take(k + 1).map_values(|c: nat| (c, depth + 1))
                            =~= children(node).take(k as int).map_values(|c: nat| (c, depth + 1)).push(
                            (entries@[k as int].1@, depth + 1),
                        ));
                    }
                    k = k + 1;
                }
                assert(children(node).take(entries@.len() as int) =~= children(node));
            },
            InputValue::Mapping(entries) => {
                let mut k: usize = 0;
                while k < entries.len()
                    invariant
                        k <= entries@.len(),
                        children(node) == pair_ids(entries@.map_values(|e: (InputId, InputId)| (e.0@, e.1@))),
                        depths.len() == pending@.len(),
                        with_depths(pending@, depths) == before.drop_last() + pair_ids(
                            entries@.take(k as int).map_values(|e: (InputId, InputId)| (e.0@, e.1@)),
                        ).map_values(|c: nat| (c, depth + 1)),
                    decreases entries@.len() - k,
                {
                    let ghost was = with_depths(pending@, depths);
                    let ghost es = entries@.map_values(|e: (InputId, InputId)| (e.0@, e.1@));
                    pending.push(entries[k].0);
                    pending.push(entries[k].1);
                    proof {
                        depths = depths.push(depth + 1).push(depth + 1);
                        assert(es.take(k + 1).drop_last() =~= es.take(k as int));
                        assert(entries@.take(k + 1).map_values(|e: (InputId, InputId)| (e.0@, e.1@)) =~= es.take(
                            k + 1,
                        ));
                        assert(entries@.take(k as int).map_values(|e: (InputId, InputId)| (e.0@, e.1@)) =~= es.take(
                            k as int,
                        ));
                        let pk = pair_ids(es.take(k as int));
                        assert(pair_ids(es.take(k + 1)) == pk + seq![es[k as int].0, es[k as int].1]);
                        assert(pair_ids(es.take(k + 1)).map_values(|c: nat| (c, depth + 1)) =~= pk.map_values(
                            |c: nat| (c, depth + 1),
                        ).push((es[k as int].0, depth + 1)).push((es[k as int].1, depth + 1)));
                        assert(with_depths(pending@, depths) =~= was.push((entries@[k as int].0@, depth + 1)).push(
                            (entries@[k as int].1@, depth + 1),
                        ));
                    }
                    k = k + 1;
                }
                assert(entries@.take(entries@.len() as int) =~= entries@);
            },
            _ => {
                return Err(type_error(
                    "strings_type",
                    "Strings profile requires string scalar leaves",
                    "structural strings",
                ));
            },
        }
        proof {
            let walk = stack_visits(nodes, before);
            let next = stack_visits(nodes, with_depths(pending@, depths));
            assert(with_depths(pending@, depths) =~= before.drop_last() + owed);
            assert(owed =~= children(node).map_values(|c: nat| (c, before.last().1 + 1)));
            assert(walk == seq![(id@, depth)] + next);
            assert(walk.drop_first() =~= next);
            assert(walk[0] == (id@, depth));
        }
    }
    proof {
        assert(stack_visits(nodes, with_depths(pending@, depths)) =~= Seq::<(nat, nat)>::empty());
    }
    Ok(())
}

/// A visit of a position in the arena whose node is a string or a
/// collection.
pub open spec fn strings_visit(nodes: Seq<InputNode>, visit: (nat, nat)) -> bool {
    visit.0 < nodes.len() && strings_node(nodes[visit.0 as int])
}

proof fn lemma_strings_fault(nodes: Seq<InputNode>, walk: Seq<(nat, nat)>)
    ensures
        strings_fault(nodes, walk) is None <==> forall|k: int|
            0 <= k < walk.len() ==> strings_visit(nodes, #[trigger] walk[k]),
    decreases walk.len(),
{
    if walk.len() > 0 {
        let rest = walk.drop_first();
        lemma_strings_fault(nodes, rest);
        if strings_visit(nodes, walk[0]) {
            if forall|k: int| 0 <= k < rest.len() ==> strings_visit(nodes, #[trigger] rest[k]) {
                assert forall|k: int| 0 <= k < walk.len() implies strings_visit(nodes, #[trigger] walk[k]) by {
                    if k > 0 {
                        assert(walk[k] == rest[k - 1]);
                    }
                }
            } else {
                let k = choose|k: int| 0 <= k < rest.len() && !strings_visit(nodes, #[trigger] rest[k]);
                assert(walk[k + 1] == rest[k]);
            }
        }
    }
}

/// The strings profile accepts exactly the inputs in which every node that
/// the walk reaches exists and is a string or a collection: only strings
/// stand at the leaves.
pub proof fn law_strings_profile_admits_string_leaves(nodes: Seq<InputNode>, root: nat)
    ensures
        strings_fault(nodes, visits(nodes, root, 0)) is None <==> forall|k: int|
            0 <= k < visits(nodes, root, 0).len() ==> strings_visit(nodes, #[trigger] visits(nodes, root, 0)[k]),
{
    lemma_strings_fault(nodes, visits(nodes, root, 0));
}

} // verus!
