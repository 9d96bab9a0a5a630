use core::cmp::Ordering;

use vstd::prelude::*;

use crate::arena::Arena;
use crate::input::{
    input_rank, object_rank, refers_backwards, refs_below, sequence_rank, spec_input_rank, InputId, InputNode,
    InputValue, ObjectKind, SequenceKind,
};
use crate::text::utf8_bytes;

verus! {

/// The outcome of comparing two values.
#[derive(Clone, Copy, Debug, PartialEq, Eq, Structural)]
pub enum Order {
    Less,
    Equal,
    Greater,
}

/// Two numbers in their natural order.
pub open spec fn compare_int(a: int, b: int) -> Order {
    if a < b {
        Order::Less
    } else if a == b {
        Order::Equal
    } else {
        Order::Greater
    }
}

/// The first comparison, or the second when the first finds no difference.
pub open spec fn then_order(first: Order, second: Order) -> Order {
    if first == Order::Equal {
        second
    } else {
        first
    }
}

/// The same comparison made the other way round.
pub open spec fn reverse(o: Order) -> Order {
    match o {
        Order::Less => Order::Greater,
        Order::Equal => Order::Equal,
        Order::Greater => Order::Less,
    }
}

/// Byte strings in lexicographic order: the first differing byte decides,
/// then the length.
pub open spec fn compare_bytes(a: Seq<u8>, b: Seq<u8>) -> Order
    decreases a.len(),
{
    if a.len() == 0 || b.len() == 0 {
        compare_int(a.len() as int, b.len() as int)
    } else {
        then_order(compare_int(a[0] as int, b[0] as int), compare_bytes(a.drop_first(), b.drop_first()))
    }
}

/// The place of an IEEE 754 bit pattern in the total order of the standard:
/// negative values below positive ones, larger magnitudes further out.
pub open spec fn float_key(bits: u64) -> int {
    if bits < 0x8000_0000_0000_0000 {
        bits as int
    } else {
        -1 - (bits - 0x8000_0000_0000_0000)
    }
}

pub open spec fn seq_rank(kind: SequenceKind) -> int {
    match kind {
        SequenceKind::JsonArray => 0,
        SequenceKind::List => 1,
        SequenceKind::Tuple => 2,
        SequenceKind::MutableSet => 3,
        SequenceKind::FrozenSet => 4,
    }
}

pub open spec fn obj_rank(kind: ObjectKind) -> int {
    match kind {
        ObjectKind::JsonObject => 0,
        ObjectKind::Object => 1,
    }
}

/// The canonical order of two input values of an arena: positions outside
/// the arena by position, else by kind rank, then by content: booleans
/// false first, integers and strings by their UTF-8 bytes, floats in the
/// total order, bytes lexicographically, collections by kind and then item
/// by item. Values of the remaining kinds are not told apart.
pub open spec fn input_order(nodes: Seq<InputNode>, l: nat, r: nat) -> Order
    decreases l + r, 1nat, 0nat,
{
    if l >= nodes.len() || r >= nodes.len() {
        compare_int(l as int, r as int)
    } else {
        then_order(
            compare_int(spec_input_rank(nodes[l as int]) as int, spec_input_rank(nodes[r as int]) as int),
            match (nodes[l as int], nodes[r as int]) {
                (InputNode::Bool(a), InputNode::Bool(b)) => compare_int(
                    if a { 1 } else { 0 },
                    if b { 1 } else { 0 },
                ),
                (InputNode::Integer(a), InputNode::Integer(b)) => compare_bytes(utf8_bytes(a), utf8_bytes(b)),
                (InputNode::String(a), InputNode::String(b)) => compare_bytes(utf8_bytes(a), utf8_bytes(b)),
                (InputNode::Float(a), InputNode::Float(b)) => compare_int(float_key(a), float_key(b)),
                (InputNode::Bytes(a), InputNode::Bytes(b)) => compare_bytes(a, b),
                (InputNode::Sequence { kind: ka, items: ia }, InputNode::Sequence { kind: kb, items: ib }) => then_order(
                    compare_int(seq_rank(ka), seq_rank(kb)),
                    ids_order(nodes, ia, ib, l, r),
                ),
                (InputNode::Object { kind: ka, entries: ea }, InputNode::Object { kind: kb, entries: eb }) => then_order(
                    compare_int(obj_rank(ka), obj_rank(kb)),
                    entries_order(nodes, ea, eb, l, r),
                ),
                (InputNode::Mapping(pa), InputNode::Mapping(pb)) => pairs_order(nodes, pa, pb, l, r),
                _ => Order::Equal,
            },
        )
    }
}

/// Two children, compared as values when they lie below their parents.
pub open spec fn child_order(nodes: Seq<InputNode>, a: nat, b: nat, lb: nat, rb: nat) -> Order
    decreases lb + rb, 0nat, 1nat,
{
    if a < lb && b < rb {
        input_order(nodes, a, b)
    } else {
        compare_int(a as int, b as int)
    }
}

/// Item lists, item by item, then by length.
pub open spec fn ids_order(nodes: Seq<InputNode>, a: Seq<nat>, b: Seq<nat>, lb: nat, rb: nat) -> Order
    decreases lb + rb, 0nat, 2 + a.len(),
{
    if a.len() == 0 || b.len() == 0 {
        compare_int(a.len() as int, b.len() as int)
    } else {
        then_order(child_order(nodes, a[0], b[0], lb, rb), ids_order(nodes, a.drop_first(), b.drop_first(), lb, rb))
    }
}

/// Object entries, each by name and then value, then by length.
pub open spec fn entries_order(
    nodes: Seq<InputNode>,
    a: Seq<(Seq<char>, nat)>,
    b: Seq<(Seq<char>, nat)>,
    lb: nat,
    rb: nat,
) -> Order
    decreases lb + rb, 0nat, 2 + a.len(),
{
    if a.len() == 0 || b.len() == 0 {
        compare_int(a.len() as int, b.len() as int)
    } else {
        then_order(
            compare_bytes(utf8_bytes(a[0].0), utf8_bytes(b[0].0)),
            then_order(
                child_order(nodes, a[0].1, b[0].1, lb, rb),
                entries_order(nodes, a.drop_first(), b.drop_first(), lb, rb),
            ),
        )
    }
}

/// Mapping pairs, each by key and then value, then by length.
pub open spec fn pairs_order(nodes: Seq<InputNode>, a: Seq<(nat, nat)>, b: Seq<(nat, nat)>, lb: nat, rb: nat) -> Order
    decreases lb + rb, 0nat, 2 + a.len(),
{
    if a.len() == 0 || b.len() == 0 {
        compare_int(a.len() as int, b.len() as int)
    } else {
        then_order(
            child_order(nodes, a[0].0, b[0].0, lb, rb),
            then_order(
                child_order(nodes, a[0].1, b[0].1, lb, rb),
                pairs_order(nodes, a.drop_first(), b.drop_first(), lb, rb),
            ),
        )
    }
}

/// The nodes of an arena of input values.
pub open spec fn arena_nodes(values: &Arena<InputValue>) -> Seq<InputNode> {
    values@.map_values(|v: InputValue| v@)
}

/// The std ordering that an outcome stands for.
pub open spec fn std_ordering(o: Order) -> Ordering {
    match o {
        Order::Less => Ordering::Less,
        Order::Equal => Ordering::Equal,
        Order::Greater => Ordering::Greater,
    }
}

// ---------------------------------------------------------------------------
// Stepping through lists
// ---------------------------------------------------------------------------

proof fn lemma_bytes_step(a: Seq<u8>, b: Seq<u8>, i: int)
    requires
        0 <= i <= a.len(),
        i <= b.len(),
    ensures
        i < a.len() && i < b.len() ==> compare_bytes(a.skip(i), b.skip(i)) == then_order(
            compare_int(a[i] as int, b[i] as int),
            compare_bytes(a.skip(i + 1), b.skip(i + 1)),
        ),
        i == a.len() || i == b.len() ==> compare_bytes(a.skip(i), b.skip(i)) == compare_int(
            a.len() as int,
            b.len() as int,
        ),
        a.skip(0) == a,
{
    assert(a.skip(0) =~= a);
    if i < a.len() && i < b.len() {
        assert(a.skip(i).drop_first() =~= a.skip(i + 1));
        assert(b.skip(i).drop_first() =~= b.skip(i + 1));
    }
}

proof fn lemma_ids_step(nodes: Seq<InputNode>, a: Seq<nat>, b: Seq<nat>, lb: nat, rb: nat, i: int)
    requires
        0 <= i <= a.len(),
        i <= b.len(),
    ensures
        i < a.len() && i < b.len() ==> ids_order(nodes, a.skip(i), b.skip(i), lb, rb) == then_order(
            child_order(nodes, a[i], b[i], lb, rb),
            ids_order(nodes, a.skip(i + 1), b.skip(i + 1), lb, rb),
        ),
        i == a.len() || i == b.len() ==> ids_order(nodes, a.skip(i), b.skip(i), lb, rb) == compare_int(
            a.len() as int,
            b.len() as int,
        ),
        a.skip(0) == a,
        b.skip(0) == b,
{
    assert(a.skip(0) =~= a);
    assert(b.skip(0) =~= b);
    if i < a.len() && i < b.len() {
        assert(a.skip(i).drop_first() =~= a.skip(i + 1));
        assert(b.skip(i).drop_first() =~= b.skip(i + 1));
    }
}

proof fn lemma_entries_step(
    nodes: Seq<InputNode>,
    a: Seq<(Seq<char>, nat)>,
    b: Seq<(Seq<char>, nat)>,
    lb: nat,
    rb: nat,
    i: int,
)
    requires
        0 <= i <= a.len(),
        i <= b.len(),
    ensures
        i < a.len() && i < b.len() ==> entries_order(nodes, a.skip(i), b.skip(i), lb, rb) == then_order(
            compare_bytes(utf8_bytes(a[i].0), utf8_bytes(b[i].0)),
            then_order(
                child_order(nodes, a[i].1, b[i].1, lb, rb),
                entries_order(nodes, a.skip(i + 1), b.skip(i + 1), lb, rb),
            ),
        ),
        i == a.len() || i == b.len() ==> entries_order(nodes, a.skip(i), b.skip(i), lb, rb) == compare_int(
            a.len() as int,
            b.len() as int,
        ),
        a.skip(0) == a,
        b.skip(0) == b,
{
    assert(a.skip(0) =~= a);
    assert(b.skip(0) =~= b);
    if i < a.len() && i < b.len() {
        assert(a.skip(i).drop_first() =~= a.skip(i + 1));
        assert(b.skip(i).drop_first() =~= b.skip(i + 1));
    }
}

proof fn lemma_pairs_step(nodes: Seq<InputNode>, a: Seq<(nat, nat)>, b: Seq<(nat, nat)>, lb: nat, rb: nat, i: int)
    requires
        0 <= i <= a.len(),
        i <= b.len(),
    ensures
        i < a.len() && i < b.len() ==> pairs_order(nodes, a.skip(i), b.skip(i), lb, rb) == then_order(
            child_order(nodes, a[i].0, b[i].0, lb, rb),
            then_order(
                child_order(nodes, a[i].1, b[i].1, lb, rb),
                pairs_order(nodes, a.skip(i + 1), b.skip(i + 1), lb, rb),
            ),
        ),
        i == a.len() || i == b.len() ==> pairs_order(nodes, a.skip(i), b.skip(i), lb, rb) == compare_int(
            a.len() as int,
            b.len() as int,
        ),
        a.skip(0) == a,
        b.skip(0) == b,
{
    assert(a.skip(0) =~= a);
    assert(b.skip(0) =~= b);
    if i < a.len() && i < b.len() {
        assert(a.skip(i).drop_first() =~= a.skip(i + 1));
        assert(b.skip(i).drop_first() =~= b.skip(i + 1));
    }
}

// ---------------------------------------------------------------------------
// Comparison
// ---------------------------------------------------------------------------

fn order_u64(a: u64, b: u64) -> (r: Order)
    ensures
        r == compare_int(a as int, b as int),
{
    if a < b {
        Order::Less
    } else if a == b {
        Order::Equal
    } else {
        Order::Greater
    }
}

fn order_usize(a: usize, b: usize) -> (r: Order)
    ensures
        r == compare_int(a as int, b as int),
{
    if a < b {
        Order::Less
    } else if a == b {
        Order::Equal
    } else {
        Order::Greater
    }
}

/// Floating-point bit patterns in the total order of IEEE 754.
fn order_float_bits(a: u64, b: u64) -> (r: Order)
    ensures
        r == compare_int(float_key(a), float_key(b)),
{
    let sign: u64 = 0x8000_0000_0000_0000;
    if a < sign && b < sign {
        order_u64(a, b)
    } else if a >= sign && b >= sign {
        order_u64(b, a)
    } else if a < sign {
        Order::Greater
    } else {
        Order::Less
    }
}

/// Byte strings in lexicographic order.
fn order_bytes(a: &[u8], b: &[u8]) -> (r: Order)
    ensures
        r == compare_bytes(a@, b@),
{
    let n: usize = if a.len() < b.len() { a.len() } else { b.len() };
    let mut i: usize = 0;
    proof {
        lemma_bytes_step(a@, b@, 0);
        assert(b@.skip(0) =~= b@);
    }
    while i < n
        invariant
            i <= n,
            n <= a.len(),
            n <= b.len(),
            n == a.len() || n == b.len(),
            compare_bytes(a@, b@) == compare_bytes(a@.skip(i as int), b@.skip(i as int)),
        decreases n - i,
    {
        proof {
            lemma_bytes_step(a@, b@, i as int);
        }
        if a[i] != b[i] {
            return if a[i] < b[i] {
                Order::Less
            } else {
                Order::Greater
            };
        }
        i = i + 1;
    }
    proof {
        lemma_bytes_step(a@, b@, i as int);
    }
    order_usize(a.len(), b.len())
}

/// The canonical order of two values of an arena whose aggregates refer
/// only to earlier values.
pub(crate) fn order_input_ids(values: &Arena<InputValue>, left: InputId, right: InputId) -> (r: Order)
    requires
        refers_backwards(arena_nodes(values)),
    ensures
        r == input_order(arena_nodes(values), left@, right@),
    decreases left@ + right@, 1nat, 0nat,
{
    let ghost nodes = arena_nodes(values);
    let lv = values.get(left);
    let rv = values.get(right);
    if lv.is_none() || rv.is_none() {
        return order_u64(left.raw() as u64, right.raw() as u64);
    }
    let l = lv.unwrap();
    let r = rv.unwrap();
    assert(nodes[left@ as int] == l@);
    assert(nodes[right@ as int] == r@);
    assert(refs_below(nodes[left@ as int], left@));
    assert(refs_below(nodes[right@ as int], right@));
    let lr = input_rank(l);
    let rr = input_rank(r);
    if lr != rr {
        return order_u64(lr as u64, rr as u64);
    }
    match l {
        InputValue::Bool(a) => match r {
            InputValue::Bool(b) => {
                if *a == *b {
                    Order::Equal
                } else if !*a {
                    Order::Less
                } else {
                    Order::Greater
                }
            },
            _ => Order::Equal,
        },
        InputValue::Integer(a) => match r {
            InputValue::Integer(b) => order_bytes(a.as_str().as_bytes(), b.as_str().as_bytes()),
            _ => Order::Equal,
        },
        InputValue::String(a) => match r {
            InputValue::String(b) => order_bytes(a.as_str().as_bytes(), b.as_str().as_bytes()),
            _ => Order::Equal,
        },
        InputValue::Float(a) => match r {
            InputValue::Float(b) => order_float_bits(*a, *b),
            _ => Order::Equal,
        },
        InputValue::Bytes(a) => match r {
            InputValue::Bytes(b) => order_bytes(a.as_slice(), b.as_slice()),
            _ => Order::Equal,
        },
        InputValue::Sequence { kind: ka, items: ia } => match r {
            InputValue::Sequence { kind: kb, items: ib } => {
                let first = order_u64(sequence_rank(*ka) as u64, sequence_rank(*kb) as u64);
                if first != Order::Equal {
                    first
                } else {
                    proof {
                        assert forall|k: int| 0 <= k < ia.len() implies (#[trigger] ia@[k])@ < left@ by {
                            assert(ia@.map_values(|id: InputId| id@)[k] == ia@[k]@);
                        }
                        assert forall|k: int| 0 <= k < ib.len() implies (#[trigger] ib@[k])@ < right@ by {
                            assert(ib@.map_values(|id: InputId| id@)[k] == ib@[k]@);
                        }
                    }
                    order_id_lists(values, ia, ib, Ghost(left@), Ghost(right@))
                }
            },
            _ => Order::Equal,
        },
        InputValue::Object { kind: ka, entries: ea } => match r {
            InputValue::Object { kind: kb, entries: eb } => {
                let first = order_u64(object_rank(*ka) as u64, object_rank(*kb) as u64);
                if first != Order::Equal {
                    first
                } else {
                    proof {
                        assert forall|k: int| 0 <= k < ea.len() implies (#[trigger] ea@[k]).1@ < left@ by {
                            assert(ea@.map_values(|e: (String, InputId)| (e.0@, e.1@))[k].1 == ea@[k].1@);
                        }
                        assert forall|k: int| 0 <= k < eb.len() implies (#[trigger] eb@[k]).1@ < right@ by {
                            assert(eb@.map_values(|e: (String, InputId)| (e.0@, e.1@))[k].1 == eb@[k].1@);
                        }
                    }
                    order_object_entries(values, ea, eb, Ghost(left@), Ghost(right@))
                }
            },
            _ => Order::Equal,
        },
        InputValue::Mapping(pa) => match r {
            InputValue::Mapping(pb) => {
                proof {
                    assert forall|k: int| 0 <= k < pa.len() implies (#[trigger] pa@[k]).0@ < left@ && pa@[k].1@
                        < left@ by {
                        assert(pa@.map_values(|e: (InputId, InputId)| (e.0@, e.1@))[k] == (pa@[k].0@, pa@[k].1@));
                    }
                    assert forall|k: int| 0 <= k < pb.len() implies (#[trigger] pb@[k]).0@ < right@ && pb@[k].1@
                        < right@ by {
                        assert(pb@.map_values(|e: (InputId, InputId)| (e.0@, e.1@))[k] == (pb@[k].0@, pb@[k].1@));
                    }
                }
                order_mapping_entries(values, pa, pb, Ghost(left@), Ghost(right@))
            },
            _ => Order::Equal,
        },
        _ => Order::Equal,
    }
}

/// Item lists, item by item, then by length.
fn order_id_lists(
    values: &Arena<InputValue>,
    a: &Vec<InputId>,
    b: &Vec<InputId>,
    Ghost(lb): Ghost<nat>,
    Ghost(rb): Ghost<nat>,
) -> (r: Order)
    requires
        refers_backwards(arena_nodes(values)),
        forall|i: int| 0 <= i < a.len() ==> (#[trigger] a@[i])@ < lb,
        forall|i: int| 0 <= i < b.len() ==> (#[trigger] b@[i])@ < rb,
    ensures
        r == ids_order(
            arena_nodes(values),
            a@.map_values(|id: InputId| id@),
            b@.map_values(|id: InputId| id@),
            lb,
            rb,
        ),
    decreases lb + rb, 0nat, 0nat,
{
    let ghost nodes = arena_nodes(values);
    let ghost ma = a@.map_values(|id: InputId| id@);
    let ghost mb = b@.map_values(|id: InputId| id@);
    let n: usize = if a.len() < b.len() { a.len() } else { b.len() };
    let mut i: usize = 0;
    proof {
        lemma_ids_step(nodes, ma, mb, lb, rb, 0);
    }
    while i < n
        invariant
            i <= n,
            n <= a.len(),
            n <= b.len(),
            n == a.len() || n == b.len(),
            nodes == arena_nodes(values),
            refers_backwards(nodes),
            ma == a@.map_values(|id: InputId| id@),
            mb == b@.map_values(|id: InputId| id@),
            forall|k: int| 0 <= k < a.len() ==> (#[trigger] a@[k])@ < lb,
            forall|k: int| 0 <= k < b.len() ==> (#[trigger] b@[k])@ < rb,
            ids_order(nodes, ma, mb, lb, rb) == ids_order(nodes, ma.skip(i as int), mb.skip(i as int), lb, rb),
        decreases n - i,
    {
        proof {
            lemma_ids_step(nodes, ma, mb, lb, rb, i as int);
            assert(ma[i as int] == a@[i as int]@);
            assert(mb[i as int] == b@[i as int]@);
            assert(a@[i as int]@ < lb);
            assert(b@[i as int]@ < rb);
        }
        let o = order_input_ids(values, a[i], b[i]);
        if o != Order::Equal {
            return o;
        }
        i = i + 1;
    }
    proof {
        lemma_ids_step(nodes, ma, mb, lb, rb, i as int);
    }
    order_usize(a.len(), b.len())
}

/// Object entries, each by name and then value, then by length.
fn order_object_entries(
    values: &Arena<InputValue>,
    a: &Vec<(String, InputId)>,
    b: &Vec<(String, InputId)>,
    Ghost(lb): Ghost<nat>,
    Ghost(rb): Ghost<nat>,
) -> (r: Order)
    requires
        refers_backwards(arena_nodes(values)),
        forall|i: int| 0 <= i < a.len() ==> (#[trigger] a@[i]).1@ < lb,
        forall|i: int| 0 <= i < b.len() ==> (#[trigger] b@[i]).1@ < rb,
    ensures
        r == entries_order(
            arena_nodes(values),
            a@.map_values(|e: (String, InputId)| (e.0@, e.1@)),
            b@.map_values(|e: (String, InputId)| (e.0@, e.1@)),
            lb,
            rb,
        ),
    decreases lb + rb, 0nat, 0nat,
{
    let ghost nodes = arena_nodes(values);
    let ghost ma = a@.map_values(|e: (String, InputId)| (e.0@, e.1@));
    let ghost mb = b@.map_values(|e: (String, InputId)| (e.0@, e.1@));
    let n: usize = if a.len() < b.len() { a.len() } else { b.len() };
    let mut i: usize = 0;
    proof {
        lemma_entries_step(nodes, ma, mb, lb, rb, 0);
    }
    while i < n
        invariant
            i <= n,
            n <= a.len(),
            n <= b.len(),
            n == a.len() || n == b.len(),
            nodes == arena_nodes(values),
            refers_backwards(nodes),
            ma == a@.map_values(|e: (String, InputId)| (e.0@, e.1@)),
            mb == b@.map_values(|e: (String, InputId)| (e.0@, e.1@)),
            forall|k: int| 0 <= k < a.len() ==> (#[trigger] a@[k]).1@ < lb,
            forall|k: int| 0 <= k < b.len() ==> (#[trigger] b@[k]).1@ < rb,
            entries_order(nodes, ma, mb, lb, rb) == entries_order(
                nodes,
                ma.skip(i as int),
                mb.skip(i as int),
                lb,
                rb,
            ),
        decreases n - i,
    {
        proof {
            lemma_entries_step(nodes, ma, mb, lb, rb, i as int);
            assert(ma[i as int] == (a@[i as int].0@, a@[i as int].1@));
            assert(mb[i as int] == (b@[i as int].0@, b@[i as int].1@));
            assert(a@[i as int].1@ < lb);
            assert(b@[i as int].1@ < rb);
        }
        let names = order_bytes(a[i].0.as_str().as_bytes(), b[i].0.as_str().as_bytes());
        if names != Order::Equal {
            return names;
        }
        let o = order_input_ids(values, a[i].1, b[i].1);
        if o != Order::Equal {
            return o;
        }
        i = i + 1;
    }
    proof {
        lemma_entries_step(nodes, ma, mb, lb, rb, i as int);
    }
    order_usize(a.len(), b.len())
}

/// Mapping pairs, each by key and then value, then by length.
fn order_mapping_entries(
    values: &Arena<InputValue>,
    a: &Vec<(InputId, InputId)>,
    b: &Vec<(InputId, InputId)>,
    Ghost(lb): Ghost<nat>,
    Ghost(rb): Ghost<nat>,
) -> (r: Order)
    requires
        refers_backwards(arena_nodes(values)),
        forall|i: int| 0 <= i < a.len() ==> (#[trigger] a@[i]).0@ < lb && a@[i].1@ < lb,
        forall|i: int| 0 <= i < b.len() ==> (#[trigger] b@[i]).0@ < rb && b@[i].1@ < rb,
    ensures
        r == pairs_order(
            arena_nodes(values),
            a@.map_values(|e: (InputId, InputId)| (e.0@, e.1@)),
            b@.map_values(|e: (InputId, InputId)| (e.0@, e.1@)),
            lb,
            rb,
        ),
    decreases lb + rb, 0nat, 0nat,
{
    let ghost nodes = arena_nodes(values);
    let ghost ma = a@.map_values(|e: (InputId, InputId)| (e.0@, e.1@));
    let ghost mb = b@.map_values(|e: (InputId, InputId)| (e.0@, e.1@));
    let n: usize = if a.len() < b.len() { a.len() } else { b.len() };
    let mut i: usize = 0;
    proof {
        lemma_pairs_step(nodes, ma, mb, lb, rb, 0);
    }
    while i < n
        invariant
            i <= n,
            n <= a.len(),
            n <= b.len(),
            n == a.len() || n == b.len(),
            nodes == arena_nodes(values),
            refers_backwards(nodes),
            ma == a@.map_values(|e: (InputId, InputId)| (e.0@, e.1@)),
            mb == b@.map_values(|e: (InputId, InputId)| (e.0@, e.1@)),
            forall|k: int| 0 <= k < a.len() ==> (#[trigger] a@[k]).0@ < lb && a@[k].1@ < lb,
            forall|k: int| 0 <= k < b.len() ==> (#[trigger] b@[k]).0@ < rb && b@[k].1@ < rb,
            pairs_order(nodes, ma, mb, lb, rb) == pairs_order(nodes, ma.skip(i as int), mb.skip(i as int), lb, rb),
        decreases n - i,
    {
        proof {
            lemma_pairs_step(nodes, ma, mb, lb, rb, i as int);
            assert(ma[i as int] == (a@[i as int].0@, a@[i as int].1@));
            assert(mb[i as int] == (b@[i as int].0@, b@[i as int].1@));
            assert(a@[i as int].0@ < lb && a@[i as int].1@ < lb);
            assert(b@[i as int].0@ < rb && b@[i as int].1@ < rb);
        }
        let keys = order_input_ids(values, a[i].0, b[i].0);
        if keys != Order::Equal {
            return keys;
        }
        let o = order_input_ids(values, a[i].1, b[i].1);
        if o != Order::Equal {
            return o;
        }
        i = i + 1;
    }
    proof {
        lemma_pairs_step(nodes, ma, mb, lb, rb, i as int);
    }
    order_usize(a.len(), b.len())
}

/// Compares two values of an arena in the canonical input order that sets
/// and mappings are sorted by. The arena's aggregates must refer only to
/// values stored before them, as every arena that input building makes does.
pub fn compare_input_ids(values: &Arena<InputValue>, left: InputId, right: InputId) -> (r: Ordering)
    requires
        refers_backwards(arena_nodes(values)),
    ensures
        r == std_ordering(input_order(arena_nodes(values), left@, right@)),
{
    match order_input_ids(values, left, right) {
        Order::Less => Ordering::Less,
        Order::Equal => Ordering::Equal,
        Order::Greater => Ordering::Greater,
    }
}

// ---------------------------------------------------------------------------
// Laws of the canonical order
// ---------------------------------------------------------------------------

proof fn lemma_bytes_refl(a: Seq<u8>)
    ensures
        compare_bytes(a, a) == Order::Equal,
    decreases a.len(),
{
    if a.len() > 0 {
        lemma_bytes_refl(a.drop_first());
    }
}

proof fn lemma_bytes_antisym(a: Seq<u8>, b: Seq<u8>)
    ensures
        compare_bytes(a, b) == reverse(compare_bytes(b, a)),
    decreases a.len(),
{
    if a.len() > 0 && b.len() > 0 {
        lemma_bytes_antisym(a.drop_first(), b.drop_first());
    }
}

proof fn lemma_order_refl(nodes: Seq<InputNode>, i: nat)
    ensures
        input_order(nodes, i, i) == Order::Equal,
    decreases i + i, 1nat, 0nat,
{
    if i < nodes.len() {
        match nodes[i as int] {
            InputNode::Integer(a) => lemma_bytes_refl(utf8_bytes(a)),
            InputNode::String(a) => lemma_bytes_refl(utf8_bytes(a)),
            InputNode::Bytes(a) => lemma_bytes_refl(a),
            InputNode::Sequence { items, .. } => lemma_ids_refl(nodes, items, i),
            InputNode::Object { entries, .. } => lemma_entries_refl(nodes, entries, i),
            InputNode::Mapping(pairs) => lemma_pairs_refl(nodes, pairs, i),
            _ => {},
        }
    }
}

proof fn lemma_child_refl(nodes: Seq<InputNode>, a: nat, bound: nat)
    ensures
        child_order(nodes, a, a, bound, bound) == Order::Equal,
    decreases bound + bound, 0nat, 1nat,
{
    if a < bound {
        lemma_order_refl(nodes, a);
    }
}

proof fn lemma_ids_refl(nodes: Seq<InputNode>, a: Seq<nat>, bound: nat)
    ensures
        ids_order(nodes, a, a, bound, bound) == Order::Equal,
    decreases bound + bound, 0nat, 2 + a.len(),
{
    if a.len() > 0 {
        lemma_child_refl(nodes, a[0], bound);
        lemma_ids_refl(nodes, a.drop_first(), bound);
    }
}

proof fn lemma_entries_refl(nodes: Seq<InputNode>, a: Seq<(Seq<char>, nat)>, bound: nat)
    ensures
        entries_order(nodes, a, a, bound, bound) == Order::Equal,
    decreases bound + bound, 0nat, 2 + a.len(),
{
    if a.len() > 0 {
        lemma_bytes_refl(utf8_bytes(a[0].0));
        lemma_child_refl(nodes, a[0].1, bound);
        lemma_entries_refl(nodes, a.drop_first(), bound);
    }
}

proof fn lemma_pairs_refl(nodes: Seq<InputNode>, a: Seq<(nat, nat)>, bound: nat)
    ensures
        pairs_order(nodes, a, a, bound, bound) == Order::Equal,
    decreases bound + bound, 0nat, 2 + a.len(),
{
    if a.len() > 0 {
        lemma_child_refl(nodes, a[0].0, bound);
        lemma_child_refl(nodes, a[0].1, bound);
        lemma_pairs_refl(nodes, a.drop_first(), bound);
    }
}

proof fn lemma_order_antisym(nodes: Seq<InputNode>, l: nat, r: nat)
    ensures
        input_order(nodes, l, r) == reverse(input_order(nodes, r, l)),
    decreases l + r, 1nat, 0nat,
{
    if l < nodes.len() && r < nodes.len() {
        match (nodes[l as int], nodes[r as int]) {
            (InputNode::Integer(a), InputNode::Integer(b)) => lemma_bytes_antisym(utf8_bytes(a), utf8_bytes(b)),
            (InputNode::String(a), InputNode::String(b)) => lemma_bytes_antisym(utf8_bytes(a), utf8_bytes(b)),
            (InputNode::Bytes(a), InputNode::Bytes(b)) => lemma_bytes_antisym(a, b),
            (InputNode::Sequence { items: ia, .. }, InputNode::Sequence { items: ib, .. }) => {
                lemma_ids_antisym(nodes, ia, ib, l, r);
            },
            (InputNode::Object { entries: ea, .. }, InputNode::Object { entries: eb, .. }) => {
                lemma_entries_antisym(nodes, ea, eb, l, r);
            },
            (InputNode::Mapping(pa), InputNode::Mapping(pb)) => {
                lemma_pairs_antisym(nodes, pa, pb, l, r);
            },
            _ => {},
        }
    }
}

proof fn lemma_child_antisym(nodes: Seq<InputNode>, a: nat, b: nat, lb: nat, rb: nat)
    ensures
        child_order(nodes, a, b, lb, rb) == reverse(child_order(nodes, b, a, rb, lb)),
    decreases lb + rb, 0nat, 1nat,
{
    if a < lb && b < rb {
        lemma_order_antisym(nodes, a, b);
    }
}

proof fn lemma_ids_antisym(nodes: Seq<InputNode>, a: Seq<nat>, b: Seq<nat>, lb: nat, rb: nat)
    ensures
        ids_order(nodes, a, b, lb, rb) == reverse(ids_order(nodes, b, a, rb, lb)),
    decreases lb + rb, 0nat, 2 + a.len(),
{
    if a.len() > 0 && b.len() > 0 {
        lemma_child_antisym(nodes, a[0], b[0], lb, rb);
        lemma_ids_antisym(nodes, a.drop_first(), b.drop_first(), lb, rb);
    }
}

proof fn lemma_entries_antisym(
    nodes: Seq<InputNode>,
    a: Seq<(Seq<char>, nat)>,
    b: Seq<(Seq<char>, nat)>,
    lb: nat,
    rb: nat,
)
    ensures
        entries_order(nodes, a, b, lb, rb) == reverse(entries_order(nodes, b, a, rb, lb)),
    decreases lb + rb, 0nat, 2 + a.len(),
{
    if a.len() > 0 && b.len() > 0 {
        lemma_bytes_antisym(utf8_bytes(a[0].0), utf8_bytes(b[0].0));
        lemma_child_antisym(nodes, a[0].1, b[0].1, lb, rb);
        lemma_entries_antisym(nodes, a.drop_first(), b.drop_first(), lb, rb);
    }
}

proof fn lemma_pairs_antisym(nodes: Seq<InputNode>, a: Seq<(nat, nat)>, b: Seq<(nat, nat)>, lb: nat, rb: nat)
    ensures
        pairs_order(nodes, a, b, lb, rb) == reverse(pairs_order(nodes, b, a, rb, lb)),
    decreases lb + rb, 0nat, 2 + a.len(),
{
    if a.len() > 0 && b.len() > 0 {
        lemma_child_antisym(nodes, a[0].0, b[0].0, lb, rb);
        lemma_child_antisym(nodes, a[0].1, b[0].1, lb, rb);
        lemma_pairs_antisym(nodes, a.drop_first(), b.drop_first(), lb, rb);
    }
}

/// Every value of an arena compares equal to itself.
pub proof fn law_order_is_reflexive(nodes: Seq<InputNode>, i: nat)
    ensures
        input_order(nodes, i, i) == Order::Equal,
{
    lemma_order_refl(nodes, i);
}

/// Comparing two values the other way round gives the reverse outcome, so
/// sorting by this order does not depend on which side a value is on.
pub proof fn law_order_is_antisymmetric(nodes: Seq<InputNode>, l: nat, r: nat)
    ensures
        input_order(nodes, l, r) == reverse(input_order(nodes, r, l)),
{
    lemma_order_antisym(nodes, l, r);
}

/// Three outcomes as transitivity allows them: comparing `a` with `c`
/// gives what comparing `a` with `b` and `b` with `c` agree on, and an
/// equality on either side passes the other outcome through.
pub open spec fn chains(ab: Order, bc: Order, ac: Order) -> bool {
    &&& ab == Order::Equal ==> ac == bc
    &&& bc == Order::Equal ==> ac == ab
    &&& ab == bc ==> ac == ab
}

proof fn lemma_then_chains(p1: Order, p2: Order, p3: Order, q1: Order, q2: Order, q3: Order)
    requires
        chains(p1, p2, p3),
        p1 == Order::Equal && p2 == Order::Equal ==> chains(q1, q2, q3),
    ensures
        chains(then_order(p1, q1), then_order(p2, q2), then_order(p3, q3)),
{
}

proof fn lemma_bytes_chains(a: Seq<u8>, b: Seq<u8>, c: Seq<u8>)
    ensures
        chains(compare_bytes(a, b), compare_bytes(b, c), compare_bytes(a, c)),
    decreases a.len(),
{
    if a.len() > 0 && b.len() > 0 && c.len() > 0 {
        lemma_bytes_chains(a.drop_first(), b.drop_first(), c.drop_first());
        lemma_then_chains(
            compare_int(a[0] as int, b[0] as int),
            compare_int(b[0] as int, c[0] as int),
            compare_int(a[0] as int, c[0] as int),
            compare_bytes(a.drop_first(), b.drop_first()),
            compare_bytes(b.drop_first(), c.drop_first()),
            compare_bytes(a.drop_first(), c.drop_first()),
        );
    }
}

#[verifier::spinoff_prover]
#[verifier::rlimit(40)]
proof fn lemma_order_chains(nodes: Seq<InputNode>, x: nat, y: nat, z: nat)
    requires
        refers_backwards(nodes),
        x < nodes.len(),
        y < nodes.len(),
        z < nodes.len(),
    ensures
        chains(input_order(nodes, x, y), input_order(nodes, y, z), input_order(nodes, x, z)),
    decreases x + y + z, 1nat, 0nat,
{
    let nx = nodes[x as int];
    let ny = nodes[y as int];
    let nz = nodes[z as int];
    assert(refs_below(nx, x));
    assert(refs_below(ny, y));
    assert(refs_below(nz, z));
    if spec_input_rank(nx) == spec_input_rank(ny) && spec_input_rank(ny) == spec_input_rank(nz) {
        match (nx, ny, nz) {
            (InputNode::Integer(a), InputNode::Integer(b), InputNode::Integer(c)) => {
                lemma_bytes_chains(utf8_bytes(a), utf8_bytes(b), utf8_bytes(c));
            },
            (InputNode::String(a), InputNode::String(b), InputNode::String(c)) => {
                lemma_bytes_chains(utf8_bytes(a), utf8_bytes(b), utf8_bytes(c));
            },
            (InputNode::Bytes(a), InputNode::Bytes(b), InputNode::Bytes(c)) => {
                lemma_bytes_chains(a, b, c);
            },
            (
                InputNode::Sequence { kind: ka, items: ia },
                InputNode::Sequence { kind: kb, items: ib },
                InputNode::Sequence { kind: kc, items: ic },
            ) => {
                lemma_ids_chains(nodes, ia, ib, ic, x, y, z);
                lemma_then_chains(
                    compare_int(seq_rank(ka), seq_rank(kb)),
                    compare_int(seq_rank(kb), seq_rank(kc)),
                    compare_int(seq_rank(ka), seq_rank(kc)),
                    ids_order(nodes, ia, ib, x, y),
                    ids_order(nodes, ib, ic, y, z),
                    ids_order(nodes, ia, ic, x, z),
                );
            },
            (
                InputNode::Object { kind: ka, entries: ea },
                InputNode::Object { kind: kb, entries: eb },
                InputNode::Object { kind: kc, entries: ec },
            ) => {
                lemma_entries_chains(nodes, ea, eb, ec, x, y, z);
                lemma_then_chains(
                    compare_int(obj_rank(ka), obj_rank(kb)),
                    compare_int(obj_rank(kb), obj_rank(kc)),
                    compare_int(obj_rank(ka), obj_rank(kc)),
                    entries_order(nodes, ea, eb, x, y),
                    entries_order(nodes, eb, ec, y, z),
                    entries_order(nodes, ea, ec, x, z),
                );
            },
            (InputNode::Mapping(pa), InputNode::Mapping(pb), InputNode::Mapping(pc)) => {
                lemma_pairs_chains(nodes, pa, pb, pc, x, y, z);
            },
            _ => {},
        }
    }
}

proof fn lemma_child_chains(nodes: Seq<InputNode>, a: nat, b: nat, c: nat, la: nat, lb: nat, lc: nat)
    requires
        refers_backwards(nodes),
        a < la < nodes.len(),
        b < lb < nodes.len(),
        c < lc < nodes.len(),
    ensures
        chains(child_order(nodes, a, b, la, lb), child_order(nodes, b, c, lb, lc), child_order(nodes, a, c, la, lc)),
    decreases la + lb + lc, 0nat, 1nat,
{
    lemma_order_chains(nodes, a, b, c);
}

proof fn lemma_ids_chains(nodes: Seq<InputNode>, a: Seq<nat>, b: Seq<nat>, c: Seq<nat>, la: nat, lb: nat, lc: nat)
    requires
        refers_backwards(nodes),
        la < nodes.len(),
        lb < nodes.len(),
        lc < nodes.len(),
        forall|i: int| 0 <= i < a.len() ==> #[trigger] a[i] < la,
        forall|i: int| 0 <= i < b.len() ==> #[trigger] b[i] < lb,
        forall|i: int| 0 <= i < c.len() ==> #[trigger] c[i] < lc,
    ensures
        chains(ids_order(nodes, a, b, la, lb), ids_order(nodes, b, c, lb, lc), ids_order(nodes, a, c, la, lc)),
    decreases la + lb + lc, 0nat, 2 + a.len(),
{
    if a.len() > 0 && b.len() > 0 && c.len() > 0 {
        assert(a[0] < la && b[0] < lb && c[0] < lc);
        lemma_child_chains(nodes, a[0], b[0], c[0], la, lb, lc);
        assert forall|i: int| 0 <= i < a.drop_first().len() implies #[trigger] a.drop_first()[i] < la by {
            assert(a.drop_first()[i] == a[i + 1]);
        }
        assert forall|i: int| 0 <= i < b.drop_first().len() implies #[trigger] b.drop_first()[i] < lb by {
            assert(b.drop_first()[i] == b[i + 1]);
        }
        assert forall|i: int| 0 <= i < c.drop_first().len() implies #[trigger] c.drop_first()[i] < lc by {
            assert(c.drop_first()[i] == c[i + 1]);
        }
        lemma_ids_chains(nodes, a.drop_first(), b.drop_first(), c.drop_first(), la, lb, lc);
        lemma_then_chains(
            child_order(nodes, a[0], b[0], la, lb),
            child_order(nodes, b[0], c[0], lb, lc),
            child_order(nodes, a[0], c[0], la, lc),
            ids_order(nodes, a.drop_first(), b.drop_first(), la, lb),
            ids_order(nodes, b.drop_first(), c.drop_first(), lb, lc),
            ids_order(nodes, a.drop_first(), c.drop_first(), la, lc),
        );
    }
}

proof fn lemma_entries_chains(
    nodes: Seq<InputNode>,
    a: Seq<(Seq<char>, nat)>,
    b: Seq<(Seq<char>, nat)>,
    c: Seq<(Seq<char>, nat)>,
    la: nat,
    lb: nat,
    lc: nat,
)
    requires
        refers_backwards(nodes),
        la < nodes.len(),
        lb < nodes.len(),
        lc < nodes.len(),
        forall|i: int| 0 <= i < a.len() ==> (#[trigger] a[i]).1 < la,
        forall|i: int| 0 <= i < b.len() ==> (#[trigger] b[i]).1 < lb,
        forall|i: int| 0 <= i < c.len() ==> (#[trigger] c[i]).1 < lc,
    ensures
        chains(
            entries_order(nodes, a, b, la, lb),
            entries_order(nodes, b, c, lb, lc),
            entries_order(nodes, a, c, la, lc),
        ),
    decreases la + lb + lc, 0nat, 2 + a.len(),
{
    if a.len() > 0 && b.len() > 0 && c.len() > 0 {
        assert(a[0].1 < la && b[0].1 < lb && c[0].1 < lc);
        lemma_bytes_chains(utf8_bytes(a[0].0), utf8_bytes(b[0].0), utf8_bytes(c[0].0));
        lemma_child_chains(nodes, a[0].1, b[0].1, c[0].1, la, lb, lc);
        assert forall|i: int| 0 <= i < a.drop_first().len() implies (#[trigger] a.drop_first()[i]).1 < la by {
            assert(a.drop_first()[i] == a[i + 1]);
        }
        assert forall|i: int| 0 <= i < b.drop_first().len() implies (#[trigger] b.drop_first()[i]).1 < lb by {
            assert(b.drop_first()[i] == b[i + 1]);
        }
        assert forall|i: int| 0 <= i < c.drop_first().len() implies (#[trigger] c.drop_first()[i]).1 < lc by {
            assert(c.drop_first()[i] == c[i + 1]);
        }
        lemma_entries_chains(nodes, a.drop_first(), b.drop_first(), c.drop_first(), la, lb, lc);
        lemma_then_chains(
            child_order(nodes, a[0].1, b[0].1, la, lb),
            child_order(nodes, b[0].1, c[0].1, lb, lc),
            child_order(nodes, a[0].1, c[0].1, la, lc),
            entries_order(nodes, a.drop_first(), b.drop_first(), la, lb),
            entries_order(nodes, b.drop_first(), c.drop_first(), lb, lc),
            entries_order(nodes, a.drop_first(), c.drop_first(), la, lc),
        );
        lemma_then_chains(
            compare_bytes(utf8_bytes(a[0].0), utf8_bytes(b[0].0)),
            compare_bytes(utf8_bytes(b[0].0), utf8_bytes(c[0].0)),
            compare_bytes(utf8_bytes(a[0].0), utf8_bytes(c[0].0)),
            then_order(
                child_order(nodes, a[0].1, b[0].1, la, lb),
                entries_order(nodes, a.drop_first(), b.drop_first(), la, lb),
            ),
            then_order(
                child_order(nodes, b[0].1, c[0].1, lb, lc),
                entries_order(nodes, b.drop_first(), c.drop_first(), lb, lc),
            ),
            then_order(
                child_order(nodes, a[0].1, c[0].1, la, lc),
                entries_order(nodes, a.drop_first(), c.drop_first(), la, lc),
            ),
        );
    }
}

proof fn lemma_pairs_chains(
    nodes: Seq<InputNode>,
    a: Seq<(nat, nat)>,
    b: Seq<(nat, nat)>,
    c: Seq<(nat, nat)>,
    la: nat,
    lb: nat,
    lc: nat,
)
    requires
        refers_backwards(nodes),
        la < nodes.len(),
        lb < nodes.len(),
        lc < nodes.len(),
        forall|i: int| 0 <= i < a.len() ==> (#[trigger] a[i]).0 < la && a[i].1 < la,
        forall|i: int| 0 <= i < b.len() ==> (#[trigger] b[i]).0 < lb && b[i].1 < lb,
        forall|i: int| 0 <= i < c.len() ==> (#[trigger] c[i]).0 < lc && c[i].1 < lc,
    ensures
        chains(
            pairs_order(nodes, a, b, la, lb),
            pairs_order(nodes, b, c, lb, lc),
            pairs_order(nodes, a, c, la, lc),
        ),
    decreases la + lb + lc, 0nat, 2 + a.len(),
{
    if a.len() > 0 && b.len() > 0 && c.len() > 0 {
        assert(a[0].0 < la && b[0].0 < lb && c[0].0 < lc);
        assert(a[0].1 < la && b[0].1 < lb && c[0].1 < lc);
        lemma_child_chains(nodes, a[0].0, b[0].0, c[0].0, la, lb, lc);
        lemma_child_chains(nodes, a[0].1, b[0].1, c[0].1, la, lb, lc);
        assert forall|i: int| 0 <= i < a.drop_first().len() implies (#[trigger] a.drop_first()[i]).0 < la
            && a.drop_first()[i].1 < la by {
            assert(a.drop_first()[i] == a[i + 1]);
        }
        assert forall|i: int| 0 <= i < b.drop_first().len() implies (#[trigger] b.drop_first()[i]).0 < lb
            && b.drop_first()[i].1 < lb by {
            assert(b.drop_first()[i] == b[i + 1]);
        }
        assert forall|i: int| 0 <= i < c.drop_first().len() implies (#[trigger] c.drop_first()[i]).0 < lc
            && c.drop_first()[i].1 < lc by {
            assert(c.drop_first()[i] == c[i + 1]);
        }
        lemma_pairs_chains(nodes, a.drop_first(), b.drop_first(), c.drop_first(), la, lb, lc);
        lemma_then_chains(
            child_order(nodes, a[0].1, b[0].1, la, lb),
            child_order(nodes, b[0].1, c[0].1, lb, lc),
            child_order(nodes, a[0].1, c[0].1, la, lc),
            pairs_order(nodes, a.drop_first(), b.drop_first(), la, lb),
            pairs_order(nodes, b.drop_first(), c.drop_first(), lb, lc),
            pairs_order(nodes, a.drop_first(), c.drop_first(), la, lc),
        );
        lemma_then_chains(
            child_order(nodes, a[0].0, b[0].0, la, lb),
            child_order(nodes, b[0].0, c[0].0, lb, lc),
            child_order(nodes, a[0].0, c[0].0, la, lc),
            then_order(
                child_order(nodes, a[0].1, b[0].1, la, lb),
                pairs_order(nodes, a.drop_first(), b.drop_first(), la, lb),
            ),
            then_order(
                child_order(nodes, b[0].1, c[0].1, lb, lc),
                pairs_order(nodes, b.drop_first(), c.drop_first(), lb, lc),
            ),
            then_order(
                child_order(nodes, a[0].1, c[0].1, la, lc),
                pairs_order(nodes, a.drop_first(), c.drop_first(), la, lc),
            ),
        );
    }
}

/// The canonical order is transitive on the values of an arena whose
/// aggregates refer only to earlier values: sorting by it is well defined.
pub proof fn law_order_is_transitive(nodes: Seq<InputNode>, x: nat, y: nat, z: nat)
    requires
        refers_backwards(nodes),
        x < nodes.len(),
        y < nodes.len(),
        z < nodes.len(),
    ensures
        chains(input_order(nodes, x, y), input_order(nodes, y, z), input_order(nodes, x, z)),
{
    lemma_order_chains(nodes, x, y, z);
}

} // verus!
