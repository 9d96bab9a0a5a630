use std::collections::BTreeMap;

use vstd::prelude::*;
use vstd::set_lib::{lemma_int_range, lemma_len_subset, set_int_range};

use crate::arena::{Arena, ArenaError};
use crate::chain::{children_below, model_entries, refers_to_earlier, wrapped};
use crate::values::{
    DateTimeValue, DateValue, DurationValue, ModelValue, TimeValue, ValidatedArena, ValidatedValue, ValueId,
};

verus! {

broadcast use vstd::std_specs::btree::group_btree_axioms, vstd::laws_cmp::group_laws_cmp;

// ---------------------------------------------------------------------------
// Values that agree up to their ids
// ---------------------------------------------------------------------------

/// Each id of `b` stands, by `rel`, for the id at the same place of `a`.
pub open spec fn ids_related(a: Seq<ValueId>, b: Seq<ValueId>, rel: spec_fn(nat, nat) -> bool) -> bool {
    a.len() == b.len() && forall|i: int| 0 <= i < a.len() ==> #[trigger] rel(a[i]@, b[i]@)
}

/// Each key and value id of `b` stands, by `rel`, for the one at the same
/// place of `a`.
pub open spec fn pairs_related(
    a: Seq<(ValueId, ValueId)>,
    b: Seq<(ValueId, ValueId)>,
    rel: spec_fn(nat, nat) -> bool,
) -> bool {
    a.len() == b.len() && forall|i: int|
        #![trigger rel(a[i].0@, b[i].0@)]
        0 <= i < a.len() ==> rel(a[i].0@, b[i].0@) && rel(a[i].1@, b[i].1@)
}

/// The same field names in the same order, each id of `b` standing, by
/// `rel`, for the id at the same place of `a`.
pub open spec fn fields_related(
    a: Seq<(&'static str, ValueId)>,
    b: Seq<(&'static str, ValueId)>,
    rel: spec_fn(nat, nat) -> bool,
) -> bool {
    a.len() == b.len() && forall|i: int| 0 <= i < a.len() ==> #[trigger] rel(a[i].1@, b[i].1@) && a[i].0 == b[i].0
}

/// The same extra names in the same order, each id of `b` standing, by
/// `rel`, for the id at the same place of `a`.
pub open spec fn extras_related(
    a: Seq<(String, ValueId)>,
    b: Seq<(String, ValueId)>,
    rel: spec_fn(nat, nat) -> bool,
) -> bool {
    a.len() == b.len() && forall|i: int| 0 <= i < a.len() ==> #[trigger] rel(a[i].1@, b[i].1@) && a[i].0@ == b[i].0@
}

/// `b` is `a` with each id it refers to replaced by one that `rel` relates
/// to it: the same variant, the same scalars and texts, the same names.
pub open spec fn relabeled(a: ValidatedValue, b: ValidatedValue, rel: spec_fn(nat, nat) -> bool) -> bool {
    match a {
        ValidatedValue::Null => b is Null,
        ValidatedValue::Bool(x) => b matches ValidatedValue::Bool(y) && x == y,
        ValidatedValue::ExactInt(x) => b matches ValidatedValue::ExactInt(y) && x@ == y@,
        ValidatedValue::FixedInt { kind, value } => b matches ValidatedValue::FixedInt { kind: k, value: v } && kind
            == k && value@ == v@,
        ValidatedValue::Float(x) => b matches ValidatedValue::Float(y) && x == y,
        ValidatedValue::Decimal(x) => b matches ValidatedValue::Decimal(y) && x@ == y@,
        ValidatedValue::Fraction { numerator, denominator } => b matches ValidatedValue::Fraction {
            numerator: n,
            denominator: d,
        } && numerator@ == n@ && denominator@ == d@,
        ValidatedValue::Complex { real: re1, imaginary: im1 } => b matches ValidatedValue::Complex {
            real: re2,
            imaginary: im2,
        } && re1 == re2 && im1 == im2,
        ValidatedValue::String(x) => b matches ValidatedValue::String(y) && x@ == y@,
        ValidatedValue::Bytes(x) => b matches ValidatedValue::Bytes(y) && x@ == y@,
        ValidatedValue::Date(x) => b matches ValidatedValue::Date(y) && x == y,
        ValidatedValue::Time(x) => b matches ValidatedValue::Time(y) && x == y,
        ValidatedValue::DateTime(x) => b matches ValidatedValue::DateTime(y) && x == y,
        ValidatedValue::Duration(x) => b matches ValidatedValue::Duration(y) && x == y,
        ValidatedValue::Uuid(x) => b matches ValidatedValue::Uuid(y) && x@ == y@,
        ValidatedValue::Url(x) => b matches ValidatedValue::Url(y) && x@ == y@,
        ValidatedValue::MultiHostUrl(x) => b matches ValidatedValue::MultiHostUrl(y) && x@ == y@,
        ValidatedValue::Pattern { source, flags } => b matches ValidatedValue::Pattern { source: s, flags: f }
            && source@ == s@ && flags == f,
        ValidatedValue::Enum(x) => b matches ValidatedValue::Enum(y) && x.spec_name() == y.spec_name()
            && x.spec_variant() == y.spec_variant() && x.spec_index() == y.spec_index() && rel(
            x.spec_discriminant()@,
            y.spec_discriminant()@,
        ),
        ValidatedValue::Union(x) => b matches ValidatedValue::Union(y) && x.spec_index() == y.spec_index() && rel(
            x.spec_value()@,
            y.spec_value()@,
        ),
        ValidatedValue::Nullable(None) => b matches ValidatedValue::Nullable(None),
        ValidatedValue::Nullable(Some(x)) => b matches ValidatedValue::Nullable(Some(y)) && rel(x@, y@),
        ValidatedValue::Model(x) => b matches ValidatedValue::Model(y) && x.spec_name() == y.spec_name()
            && x.spec_validated_field_count() == y.spec_validated_field_count() && fields_related(
            x.spec_fields(),
            y.spec_fields(),
            rel,
        ) && extras_related(x.spec_extras(), y.spec_extras(), rel),
        ValidatedValue::Sequence(x) => b matches ValidatedValue::Sequence(y) && ids_related(x@, y@, rel),
        ValidatedValue::Tuple(x) => b matches ValidatedValue::Tuple(y) && ids_related(x@, y@, rel),
        ValidatedValue::Mapping(x) => b matches ValidatedValue::Mapping(y) && pairs_related(x@, y@, rel),
        ValidatedValue::MutableSet(x) => b matches ValidatedValue::MutableSet(y) && ids_related(x@, y@, rel),
        ValidatedValue::FrozenSet(x) => b matches ValidatedValue::FrozenSet(y) && ids_related(x@, y@, rel),
    }
}

/// Ids related to themselves.
pub open spec fn same_id() -> spec_fn(nat, nat) -> bool {
    |x: nat, y: nat| x == y
}

/// A relabeling stays one under any relation that holds wherever the
/// first does.
pub proof fn lemma_relabeled_weaken(
    a: ValidatedValue,
    b: ValidatedValue,
    r1: spec_fn(nat, nat) -> bool,
    r2: spec_fn(nat, nat) -> bool,
)
    requires
        relabeled(a, b, r1),
        forall|x: nat, y: nat| #[trigger] r1(x, y) ==> r2(x, y),
    ensures
        relabeled(a, b, r2),
{
    match a {
        ValidatedValue::Sequence(x) => {
            let y = b->Sequence_0;
            assert forall|i: int| 0 <= i < x@.len() implies #[trigger] r2(x@[i]@, y@[i]@) by {
                assert(r1(x@[i]@, y@[i]@));
            }
        },
        ValidatedValue::Tuple(x) => {
            let y = b->Tuple_0;
            assert forall|i: int| 0 <= i < x@.len() implies #[trigger] r2(x@[i]@, y@[i]@) by {
                assert(r1(x@[i]@, y@[i]@));
            }
        },
        ValidatedValue::MutableSet(x) => {
            let y = b->MutableSet_0;
            assert forall|i: int| 0 <= i < x@.len() implies #[trigger] r2(x@[i]@, y@[i]@) by {
                assert(r1(x@[i]@, y@[i]@));
            }
        },
        ValidatedValue::FrozenSet(x) => {
            let y = b->FrozenSet_0;
            assert forall|i: int| 0 <= i < x@.len() implies #[trigger] r2(x@[i]@, y@[i]@) by {
                assert(r1(x@[i]@, y@[i]@));
            }
        },
        ValidatedValue::Mapping(x) => {
            let y = b->Mapping_0;
            assert forall|i: int|
                #![trigger r2(x@[i].0@, y@[i].0@)]
                0 <= i < x@.len() implies r2(x@[i].0@, y@[i].0@) && r2(x@[i].1@, y@[i].1@) by {
                assert(r1(x@[i].0@, y@[i].0@));
                assert(r1(x@[i].1@, y@[i].1@));
            }
        },
        ValidatedValue::Model(x) => {
            let y = b->Model_0;
            assert forall|i: int| 0 <= i < x.spec_fields().len() implies #[trigger] r2(
                x.spec_fields()[i].1@,
                y.spec_fields()[i].1@,
            ) && x.spec_fields()[i].0 == y.spec_fields()[i].0 by {
                assert(r1(x.spec_fields()[i].1@, y.spec_fields()[i].1@));
            }
            assert forall|i: int| 0 <= i < x.spec_extras().len() implies #[trigger] r2(
                x.spec_extras()[i].1@,
                y.spec_extras()[i].1@,
            ) && x.spec_extras()[i].0@ == y.spec_extras()[i].0@ by {
                assert(r1(x.spec_extras()[i].1@, y.spec_extras()[i].1@));
            }
        },
        _ => {},
    }
}

// ---------------------------------------------------------------------------
// Copies
// ---------------------------------------------------------------------------

fn copy_ids(ids: &Vec<ValueId>) -> (r: Vec<ValueId>)
    ensures
        r@ == ids@,
{
    let mut out: Vec<ValueId> = Vec::new();
    let mut i: usize = 0;
    while i < ids.len()
        invariant
            i <= ids.len(),
            out@ == ids@.subrange(0, i as int),
        decreases ids.len() - i,
    {
        out.push(ids[i]);
        i += 1;
    }
    proof {
        assert(out@ =~= ids@);
    }
    out
}

fn copy_pairs(pairs: &Vec<(ValueId, ValueId)>) -> (r: Vec<(ValueId, ValueId)>)
    ensures
        r@ == pairs@,
{
    let mut out: Vec<(ValueId, ValueId)> = Vec::new();
    let mut i: usize = 0;
    while i < pairs.len()
        invariant
            i <= pairs.len(),
            out@ == pairs@.subrange(0, i as int),
        decreases pairs.len() - i,
    {
        out.push(pairs[i]);
        i += 1;
    }
    proof {
        assert(out@ =~= pairs@);
    }
    out
}

fn copy_fields(fields: &[(&'static str, ValueId)]) -> (r: Vec<(&'static str, ValueId)>)
    ensures
        r@ == fields@,
{
    let mut out: Vec<(&'static str, ValueId)> = Vec::new();
    let mut i: usize = 0;
    while i < fields.len()
        invariant
            i <= fields.len(),
            out@ == fields@.subrange(0, i as int),
        decreases fields.len() - i,
    {
        out.push(fields[i]);
        i += 1;
    }
    proof {
        assert(out@ =~= fields@);
    }
    out
}

fn copy_extras(extras: &[(String, ValueId)]) -> (r: Vec<(String, ValueId)>)
    ensures
        extras_related(extras@, r@, same_id()),
{
    let mut out: Vec<(String, ValueId)> = Vec::new();
    let mut i: usize = 0;
    while i < extras.len()
        invariant
            i <= extras.len(),
            out@.len() == i,
            forall|j: int| 0 <= j < i ==> #[trigger] out@[j].1 == extras@[j].1 && out@[j].0@ == extras@[j].0@,
        decreases extras.len() - i,
    {
        let name = extras[i].0.clone();
        out.push((name, extras[i].1));
        i += 1;
    }
    out
}

fn copy_bytes_of(bytes: &Vec<u8>) -> (r: Vec<u8>)
    ensures
        r@ == bytes@,
{
    let mut out: Vec<u8> = Vec::new();
    let mut i: usize = 0;
    while i < bytes.len()
        invariant
            i <= bytes.len(),
            out@ == bytes@.subrange(0, i as int),
        decreases bytes.len() - i,
    {
        out.push(bytes[i]);
        i += 1;
    }
    proof {
        assert(out@ =~= bytes@);
    }
    out
}

fn copy_time(t: &TimeValue) -> (r: TimeValue)
    ensures
        r == *t,
{
    TimeValue {
        hour: t.hour,
        minute: t.minute,
        second: t.second,
        microsecond: t.microsecond,
        offset_seconds: t.offset_seconds,
    }
}

fn copy_date(d: &DateValue) -> (r: DateValue)
    ensures
        r == *d,
{
    DateValue { year: d.year, month: d.month, day: d.day }
}

/// A copy of a value that refers to the same ids.
pub fn copy_value(value: &ValidatedValue) -> (r: ValidatedValue)
    ensures
        relabeled(*value, r, same_id()),
{
    match value {
        ValidatedValue::Null => ValidatedValue::Null,
        ValidatedValue::Bool(x) => ValidatedValue::Bool(*x),
        ValidatedValue::ExactInt(x) => ValidatedValue::ExactInt(x.clone()),
        ValidatedValue::FixedInt { kind, value } => ValidatedValue::FixedInt { kind: *kind, value: value.clone() },
        ValidatedValue::Float(x) => ValidatedValue::Float(*x),
        ValidatedValue::Decimal(x) => ValidatedValue::Decimal(x.clone()),
        ValidatedValue::Fraction { numerator, denominator } => ValidatedValue::Fraction {
            numerator: numerator.clone(),
            denominator: denominator.clone(),
        },
        ValidatedValue::Complex { real: re, imaginary: im } => ValidatedValue::Complex { real: *re, imaginary: *im },
        ValidatedValue::String(x) => ValidatedValue::String(x.clone()),
        ValidatedValue::Bytes(x) => ValidatedValue::Bytes(copy_bytes_of(x)),
        ValidatedValue::Date(x) => ValidatedValue::Date(copy_date(x)),
        ValidatedValue::Time(x) => ValidatedValue::Time(copy_time(x)),
        ValidatedValue::DateTime(x) => ValidatedValue::DateTime(
            DateTimeValue { date: copy_date(&x.date), time: copy_time(&x.time) },
        ),
        ValidatedValue::Duration(x) => ValidatedValue::Duration(
            DurationValue { positive: x.positive, days: x.days, seconds: x.seconds, microseconds: x.microseconds },
        ),
        ValidatedValue::Uuid(x) => ValidatedValue::Uuid(*x),
        ValidatedValue::Url(x) => ValidatedValue::Url(x.clone()),
        ValidatedValue::MultiHostUrl(x) => ValidatedValue::MultiHostUrl(x.clone()),
        ValidatedValue::Pattern { source, flags } => ValidatedValue::Pattern { source: source.clone(), flags: *flags },
        ValidatedValue::Enum(x) => ValidatedValue::Enum(x.with_discriminant(x.discriminant())),
        ValidatedValue::Union(x) => ValidatedValue::Union(x.with_value(x.value())),
        ValidatedValue::Nullable(x) => ValidatedValue::Nullable(*x),
        ValidatedValue::Model(x) => {
            let fields = copy_fields(x.fields());
            let extras = copy_extras(x.extras());
            let m = ModelValue::new(x.static_name(), fields, extras, x.validated_field_count());
            proof {
                assert forall|i: int| 0 <= i < x.spec_fields().len() implies #[trigger] same_id()(
                    x.spec_fields()[i].1@,
                    m.spec_fields()[i].1@,
                ) && x.spec_fields()[i].0 == m.spec_fields()[i].0 by {}
            }
            ValidatedValue::Model(m)
        },
        ValidatedValue::Sequence(x) => ValidatedValue::Sequence(copy_ids(x)),
        ValidatedValue::Tuple(x) => ValidatedValue::Tuple(copy_ids(x)),
        ValidatedValue::Mapping(x) => ValidatedValue::Mapping(copy_pairs(x)),
        ValidatedValue::MutableSet(x) => ValidatedValue::MutableSet(copy_ids(x)),
        ValidatedValue::FrozenSet(x) => ValidatedValue::FrozenSet(copy_ids(x)),
    }
}

// ---------------------------------------------------------------------------
// Copying the values reachable from one value
// ---------------------------------------------------------------------------

/// Whether a list holds the id `c`.
pub open spec fn lists(items: Seq<ValueId>, c: nat) -> bool {
    exists|j: int| 0 <= j < items.len() && (#[trigger] items[j])@ == c
}

/// Whether a value refers to the value at `c`.
pub open spec fn refers_to(v: ValidatedValue, c: nat) -> bool {
    match v {
        ValidatedValue::Enum(x) => x.spec_discriminant()@ == c,
        ValidatedValue::Union(x) => x.spec_value()@ == c,
        ValidatedValue::Nullable(Some(x)) => x@ == c,
        ValidatedValue::Model(x) => (exists|i: int| 0 <= i < x.spec_fields().len() && (#[trigger] x.spec_fields()[i]).1@ == c)
            || (exists|i: int| 0 <= i < x.spec_extras().len() && (#[trigger] x.spec_extras()[i]).1@ == c),
        ValidatedValue::Sequence(x) => exists|i: int| 0 <= i < x@.len() && (#[trigger] x@[i])@ == c,
        ValidatedValue::Tuple(x) => exists|i: int| 0 <= i < x@.len() && (#[trigger] x@[i])@ == c,
        ValidatedValue::MutableSet(x) => exists|i: int| 0 <= i < x@.len() && (#[trigger] x@[i])@ == c,
        ValidatedValue::FrozenSet(x) => exists|i: int| 0 <= i < x@.len() && (#[trigger] x@[i])@ == c,
        ValidatedValue::Mapping(x) => exists|i: int| 0 <= i < x@.len() && ((#[trigger] x@[i]).0@ == c || x@[i].1@ == c),
        _ => false,
    }
}

/// The value at `y` is the copy of the one at `x`: the copies stand from
/// `start` on, in the order of `origin`, which names what each copies.
pub open spec fn copy_at(origin: Seq<nat>, start: nat, x: nat, y: nat) -> bool {
    start <= y < start + origin.len() && origin[y - start] == x
}

/// Ids related as a value and its copy stored before `bound`.
pub open spec fn copy_rel(origin: Seq<nat>, start: nat, bound: nat) -> spec_fn(nat, nat) -> bool {
    |x: nat, y: nat| copy_at(origin, start, x, y) && y < bound
}

/// `out` starts with a copy of `src`, followed by one copy of each value of
/// `origin`, whose values are `item` and values that the copied values
/// refer to; each copy refers to copies stored before it.
pub open spec fn copies_subtree(src: Seq<ValidatedValue>, out: Seq<ValidatedValue>, origin: Seq<nat>, item: nat) -> bool {
    let n = src.len();
    &&& out.len() >= n + origin.len()
    &&& forall|i: int| 0 <= i < n ==> relabeled(#[trigger] src[i], out[i], same_id())
    &&& origin.no_duplicates()
    &&& origin.contains(item)
    &&& forall|k: int|
        0 <= k < origin.len() ==> #[trigger] origin[k] < n && relabeled(
            src[origin[k] as int],
            out[n + k],
            copy_rel(origin, n, (n + k) as nat),
        )
    &&& forall|k: int|
        0 <= k < origin.len() ==> #[trigger] origin[k] == item || exists|k2: int|
            0 <= k2 < origin.len() && refers_to(src[origin[k2] as int], origin[k])
}

/// `out` holds the values of `src`, then a copy of each value reachable
/// from `item`, then at `root` a tuple of `first` and the copy of `item`.
pub open spec fn tuple_of_copy(
    src: Seq<ValidatedValue>,
    out: Seq<ValidatedValue>,
    root: ValueId,
    first: nat,
    item: nat,
) -> bool {
    exists|origin: Seq<nat>|
        #![trigger copies_subtree(src, out, origin, item)]
        {
            &&& copies_subtree(src, out, origin, item)
            &&& out.len() == src.len() + origin.len() + 1
            &&& root@ == src.len() + origin.len()
            &&& out[root@ as int] matches ValidatedValue::Tuple(ids) && ids@.len() == 2 && ids@[0]@ == first
                && copy_at(origin, src.len(), item, ids@[1]@)
        }
}

proof fn lemma_origin_room(origin: Seq<nat>, n: nat, id: nat)
    requires
        origin.no_duplicates(),
        forall|k: int| 0 <= k < origin.len() ==> #[trigger] origin[k] < n,
        id < n,
        !origin.contains(id),
    ensures
        origin.len() + 1 <= n,
{
    let oi = origin.map_values(|x: nat| x as int);
    assert(oi.no_duplicates()) by {
        assert forall|i: int, j: int| 0 <= i < oi.len() && 0 <= j < oi.len() && i != j implies oi[i] != oi[j] by {
            assert(origin[i] != origin[j]);
        }
    }
    oi.unique_seq_to_set();
    let range = set_int_range(0, n as int);
    lemma_int_range(0, n as int);
    let rest = range.remove(id as int);
    assert(oi.to_set().subset_of(rest)) by {
        assert forall|v: int| oi.to_set().contains(v) implies rest.contains(v) by {
            let k = choose|k: int| 0 <= k < oi.len() && oi[k] == v;
            assert(origin[k] < n);
            if v == id as int {
                assert(origin[k] == id);
                assert(origin.contains(id));
            }
        }
    }
    lemma_len_subset(oi.to_set(), rest);
}

proof fn lemma_origin_fits(origin: Seq<nat>, n: nat)
    requires
        origin.no_duplicates(),
        forall|k: int| 0 <= k < origin.len() ==> #[trigger] origin[k] < n,
    ensures
        origin.len() <= n,
{
    if origin.len() > 0 {
        let last = origin.last();
        let rest = origin.drop_last();
        assert(!rest.contains(last)) by {
            if rest.contains(last) {
                let k = choose|k: int| 0 <= k < rest.len() && rest[k] == last;
                assert(origin[k] == origin[origin.len() - 1]);
            }
        }
        assert(rest.no_duplicates()) by {
            assert forall|i: int, j: int| 0 <= i < rest.len() && 0 <= j < rest.len() && i != j implies rest[i]
                != rest[j] by {
                assert(origin[i] != origin[j]);
            }
        }
        assert forall|k: int| 0 <= k < rest.len() implies #[trigger] rest[k] < n by {
            assert(rest[k] == origin[k]);
        }
        assert(last < n) by {
            assert(origin[origin.len() - 1] < n);
        }
        lemma_origin_room(rest, n, last);
    }
}

/// Copies values of `source` into `dest`, which holds a copy of `source`
/// followed by the copies made so far, at most one per value.
struct SubtreeCopier<'a> {
    source: &'a Arena<ValidatedValue>,
    dest: Arena<ValidatedValue>,
    copies: BTreeMap<u32, ValueId>,
    origin: Ghost<Seq<nat>>,
    start: Ghost<nat>,
}

impl<'a> SubtreeCopier<'a> {
    spec fn src(&self) -> Seq<ValidatedValue> {
        self.source@
    }

    spec fn inv(&self) -> bool {
        let src = self.source@;
        let out = self.dest@;
        let n = self.start@;
        let o = self.origin@;
        &&& refers_to_earlier(src)
        &&& n == src.len()
        &&& out.len() == n + o.len()
        &&& forall|i: int| 0 <= i < n ==> relabeled(#[trigger] src[i], out[i], same_id())
        &&& o.no_duplicates()
        &&& forall|k: int|
            0 <= k < o.len() ==> #[trigger] o[k] < n && relabeled(src[o[k] as int], out[n + k], copy_rel(o, n, (n + k) as nat))
        &&& forall|key: u32| #[trigger] self.copies@.contains_key(key) <==> o.contains(key as nat)
        &&& forall|key: u32| #[trigger] self.copies@.contains_key(key) ==> copy_at(o, n, key as nat, self.copies@[key]@)
    }

    /// The state of `after` extends the state of `before`: the same source,
    /// and the copies of `before` kept in place.
    spec fn grows(before: &Self, after: &Self) -> bool {
        &&& after.source == before.source
        &&& after.start == before.start
        &&& before.origin@.len() <= after.origin@.len()
        &&& after.origin@.subrange(0, before.origin@.len() as int) == before.origin@
    }

    /// Whether the copies that `after` added are of values below `bound`.
    spec fn added_under(before: &Self, after: &Self, bound: nat) -> bool {
        let o = after.origin@;
        forall|k: int| before.origin@.len() <= k < o.len() ==> #[trigger] o[k] < bound
    }

    /// Whether the copies that `after` added are of values that `refs` holds
    /// of, or that added copies refer to.
    spec fn added_from(before: &Self, after: &Self, refs: spec_fn(nat) -> bool) -> bool {
        let o = after.origin@;
        let src = after.source@;
        forall|k: int|
            before.origin@.len() <= k < o.len() ==> refs(#[trigger] o[k]) || exists|k2: int|
                before.origin@.len() <= k2 < o.len() && refers_to(src[o[k2] as int], o[k])
    }

    /// Whether the capacity surely suffices: the copies cannot outgrow the
    /// compact range.
    spec fn roomy(&self) -> bool {
        2 * self.start@ <= u32::MAX
    }
}

proof fn lemma_copy_kept(o: Seq<nat>, o2: Seq<nat>, n: nat, x: nat, y: nat)
    requires
        o.len() <= o2.len(),
        o2.subrange(0, o.len() as int) == o,
        copy_at(o, n, x, y),
    ensures
        copy_at(o2, n, x, y),
{
    assert(o2[y - n] == o2.subrange(0, o.len() as int)[y - n]);
}

proof fn lemma_rel_kept(o: Seq<nat>, o2: Seq<nat>, n: nat, bound: nat, bound2: nat)
    requires
        o.len() <= o2.len(),
        o2.subrange(0, o.len() as int) == o,
        bound <= bound2,
    ensures
        forall|x: nat, y: nat| #[trigger] copy_rel(o, n, bound)(x, y) ==> copy_rel(o2, n, bound2)(x, y),
{
    assert forall|x: nat, y: nat| #[trigger] copy_rel(o, n, bound)(x, y) implies copy_rel(o2, n, bound2)(x, y) by {
        lemma_copy_kept(o, o2, n, x, y);
    }
}


impl<'a> SubtreeCopier<'a> {
    /// The copy of the value at `id`: the one made before, or a new one
    /// whose ids refer to copies of what the value refers to.
    fn copy(&mut self, id: ValueId) -> (r: Result<ValueId, ArenaError>)
        requires
            old(self).inv(),
            id@ < old(self).start@,
        ensures
            final(self).inv(),
            SubtreeCopier::grows(old(self), final(self)),
            SubtreeCopier::added_under(old(self), final(self), id@ + 1),
            r is Ok ==> SubtreeCopier::added_from(old(self), final(self), |c: nat| c == id@),
            r matches Ok(c) ==> copy_at(final(self).origin@, final(self).start@, id@, c@),
            r matches Err(e) ==> e == ArenaError::CapacityExceeded,
            old(self).roomy() ==> r is Ok,
        decreases id@, 2nat,
    {
        proof {
            assert(self.origin@.subrange(0, self.origin@.len() as int) =~= self.origin@);
        }
        let key = id.raw();
        match self.copies.get(&key) {
            Some(found) => {
                return Ok(*found);
            },
            None => {},
        }
        let source = self.source;
        let value = match source.get(id) {
            Some(value) => value,
            None => return Err(ArenaError::CapacityExceeded),
        };
        let ghost before = *self;
        let copied = match self.copy_value_of(value, Ghost(id)) {
            Ok(w) => w,
            Err(e) => return Err(e),
        };
        let ghost mid = *self;
        let ghost o = self.origin@;
        let ghost n = self.start@;
        proof {
            assert(!before.origin@.contains(id@)) by {
                assert(!before.copies@.contains_key(key));
            }
            assert(!o.contains(id@)) by {
                if o.contains(id@) {
                    let k = choose|k: int| 0 <= k < o.len() && o[k] == id@;
                    if k < before.origin@.len() {
                        assert(o[k] == o.subrange(0, before.origin@.len() as int)[k]);
                        assert(before.origin@.contains(id@));
                    } else {
                        assert(o[k] < id@);
                    }
                }
            }
            if before.roomy() {
                lemma_origin_room(o, n, id@);
            }
        }
        let c = match self.dest.push(copied) {
            Ok(c) => c,
            Err(e) => return Err(e),
        };
        proof {
            let o2 = o.push(id@);
            self.origin = Ghost(o2);
            let out = self.dest@;
            let src = self.src();
            assert(o2.subrange(0, o.len() as int) =~= o);
            assert(o2.no_duplicates()) by {
                assert forall|i: int, j: int| 0 <= i < o2.len() && 0 <= j < o2.len() && i != j implies o2[i]
                    != o2[j] by {
                    if i < o.len() && j < o.len() {
                        assert(o[i] != o[j]);
                    } else if i < o.len() {
                        assert(o.contains(o[i]));
                    } else if j < o.len() {
                        assert(o.contains(o[j]));
                    }
                }
            }
            assert forall|i: int| 0 <= i < n implies relabeled(#[trigger] src[i], out[i], same_id()) by {
                assert(out[i] == mid.dest@[i]);
            }
            assert forall|k: int| 0 <= k < o2.len() implies #[trigger] o2[k] < n && relabeled(
                src[o2[k] as int],
                out[n + k],
                copy_rel(o2, n, (n + k) as nat),
            ) by {
                if k < o.len() {
                    assert(o2[k] == o[k]);
                    assert(out[n + k] == mid.dest@[n + k]);
                    lemma_rel_kept(o, o2, n, (n + k) as nat, (n + k) as nat);
                    lemma_relabeled_weaken(
                        src[o[k] as int],
                        out[n + k],
                        copy_rel(o, n, (n + k) as nat),
                        copy_rel(o2, n, (n + k) as nat),
                    );
                } else {
                    lemma_rel_kept(o, o2, n, (n + o.len()) as nat, (n + k) as nat);
                    lemma_relabeled_weaken(
                        *value,
                        copied,
                        copy_rel(o, n, (n + o.len()) as nat),
                        copy_rel(o2, n, (n + k) as nat),
                    );
                }
            }
        }
        self.copies.insert(key, c);
        proof {
            let o2 = self.origin@;
            let src = self.src();
            let m = o.len() as int;
            assert forall|k2: u32| #[trigger] self.copies@.contains_key(k2) <==> o2.contains(k2 as nat) by {
                if k2 == key {
                    assert(o2[m] == id@);
                } else if o2.contains(k2 as nat) {
                    let k = choose|k: int| 0 <= k < o2.len() && o2[k] == k2 as nat;
                    assert(k != m);
                    assert(o.contains(k2 as nat));
                } else {
                    assert(!o.contains(k2 as nat)) by {
                        if o.contains(k2 as nat) {
                            let k = choose|k: int| 0 <= k < o.len() && o[k] == k2 as nat;
                            assert(o2[k] == o[k]);
                        }
                    }
                }
            }
            assert forall|k2: u32| #[trigger] self.copies@.contains_key(k2) implies copy_at(
                o2,
                n,
                k2 as nat,
                self.copies@[k2]@,
            ) by {
                if k2 != key {
                    lemma_copy_kept(o, o2, n, k2 as nat, self.copies@[k2]@);
                }
            }
            assert forall|k: int| old(self).origin@.len() <= k < o2.len() implies #[trigger] o2[k] < id@ + 1 by {
                if k < m {
                    assert(o2[k] == o[k]);
                }
            }
            assert forall|k: int| old(self).origin@.len() <= k < o2.len() implies (|c: nat| c == id@)(#[trigger] o2[k])
                || exists|k2: int| old(self).origin@.len() <= k2 < o2.len() && refers_to(src[o2[k2] as int], o2[k]) by {
                if k < m {
                    assert(o2[k] == o[k]);
                    if refers_to(*value, o[k]) {
                        assert(refers_to(src[o2[m] as int], o2[k]));
                    } else {
                        let k2 = choose|k2: int| old(self).origin@.len() <= k2 < m && refers_to(src[o[k2] as int], o[k]);
                        assert(o2[k2] == o[k2]);
                    }
                }
            }
            assert(o2.subrange(0, old(self).origin@.len() as int) =~= old(self).origin@) by {
                assert(o.subrange(0, old(self).origin@.len() as int) == old(self).origin@);
            }
        }
        Ok(c)
    }

    /// A copy of the value at `id` whose ids refer to copies of what the
    /// value refers to.
    fn copy_value_of(&mut self, value: &ValidatedValue, Ghost(id): Ghost<ValueId>) -> (r: Result<
        ValidatedValue,
        ArenaError,
    >)
        requires
            old(self).inv(),
            id@ < old(self).start@,
            *value == old(self).src()[id@ as int],
        ensures
            final(self).inv(),
            SubtreeCopier::grows(old(self), final(self)),
            SubtreeCopier::added_under(old(self), final(self), id@),
            r is Ok ==> SubtreeCopier::added_from(old(self), final(self), |c: nat| refers_to(*value, c)),
            r matches Ok(w) ==> relabeled(
                *value,
                w,
                copy_rel(final(self).origin@, final(self).start@, final(self).start@ + final(self).origin@.len()),
            ),
            r matches Err(e) ==> e == ArenaError::CapacityExceeded,
            old(self).roomy() ==> r is Ok,
        decreases id@, 1nat,
    {
        let ghost src = self.src();
        let ghost n = self.start@;
        proof {
            assert(children_below(src[id@ as int], id@));
            assert(self.origin@.subrange(0, self.origin@.len() as int) =~= self.origin@);
        }
        match value {
            ValidatedValue::Enum(x) => {
                let d = self.copy(x.discriminant())?;
                let w = ValidatedValue::Enum(x.with_discriminant(d));
                proof {
                    assert(copy_rel(self.origin@, n, n + self.origin@.len())(x.spec_discriminant()@, d@));
                }
                Ok(w)
            },
            ValidatedValue::Union(x) => {
                let v = self.copy(x.value())?;
                let w = ValidatedValue::Union(x.with_value(v));
                proof {
                    assert(copy_rel(self.origin@, n, n + self.origin@.len())(x.spec_value()@, v@));
                }
                Ok(w)
            },
            ValidatedValue::Nullable(Some(child)) => {
                let v = self.copy(*child)?;
                proof {
                    assert(copy_rel(self.origin@, n, n + self.origin@.len())(child@, v@));
                }
                Ok(ValidatedValue::Nullable(Some(v)))
            },
            ValidatedValue::Sequence(items) => {
                let copied = self.copy_list(items, Ghost(id))?;
                proof {
                    lemma_lists_refer(self, old(self), items@, *value);
                }
                Ok(ValidatedValue::Sequence(copied))
            },
            ValidatedValue::Tuple(items) => {
                let copied = self.copy_list(items, Ghost(id))?;
                proof {
                    lemma_lists_refer(self, old(self), items@, *value);
                }
                Ok(ValidatedValue::Tuple(copied))
            },
            ValidatedValue::MutableSet(items) => {
                let copied = self.copy_list(items, Ghost(id))?;
                proof {
                    lemma_lists_refer(self, old(self), items@, *value);
                }
                Ok(ValidatedValue::MutableSet(copied))
            },
            ValidatedValue::FrozenSet(items) => {
                let copied = self.copy_list(items, Ghost(id))?;
                proof {
                    lemma_lists_refer(self, old(self), items@, *value);
                }
                Ok(ValidatedValue::FrozenSet(copied))
            },
            ValidatedValue::Mapping(pairs) => {
                let mut flat: Vec<ValueId> = Vec::new();
                let mut i: usize = 0;
                while i < pairs.len()
                    invariant
                        i <= pairs.len(),
                        flat@.len() == 2 * i,
                        forall|j: int|
                            0 <= j < i ==> flat@[2 * j] == (#[trigger] pairs@[j]).0 && flat@[2 * j + 1] == pairs@[j].1,
                    decreases pairs.len() - i,
                {
                    flat.push(pairs[i].0);
                    flat.push(pairs[i].1);
                    i += 1;
                }
                proof {
                    assert forall|j: int| 0 <= j < flat@.len() implies (#[trigger] flat@[j])@ < id@ && refers_to(
                        *value,
                        flat@[j]@,
                    ) by {
                        let p = j / 2;
                        assert(flat@[2 * p] == pairs@[p].0 && flat@[2 * p + 1] == pairs@[p].1);
                        assert(j == 2 * p || j == 2 * p + 1);
                    }
                }
                let ghost before = *self;
                let copied = self.copy_list(&flat, Ghost(id))?;
                let ghost o = self.origin@;
                let ghost bound = n + o.len();
                let mut out: Vec<(ValueId, ValueId)> = Vec::new();
                let mut i: usize = 0;
                while i < pairs.len()
                    invariant
                        i <= pairs.len(),
                        flat@.len() == 2 * pairs@.len(),
                        copied@.len() == flat@.len(),
                        forall|j: int|
                            0 <= j < pairs@.len() ==> flat@[2 * j] == (#[trigger] pairs@[j]).0 && flat@[2 * j + 1]
                                == pairs@[j].1,
                        ids_related(flat@, copied@, copy_rel(o, n, bound)),
                        out@.len() == i,
                        forall|j: int|
                            0 <= j < i ==> (#[trigger] out@[j]).0 == copied@[2 * j] && out@[j].1 == copied@[2 * j + 1],
                    decreases pairs.len() - i,
                {
                    assert(2 * i + 1 < copied.len());
                    out.push((copied[2 * i], copied[2 * i + 1]));
                    i += 1;
                }
                proof {
                    assert forall|j: int|
                        #![trigger copy_rel(o, n, bound)(pairs@[j].0@, out@[j].0@)]
                        0 <= j < pairs@.len() implies copy_rel(o, n, bound)(pairs@[j].0@, out@[j].0@) && copy_rel(
                        o,
                        n,
                        bound,
                    )(pairs@[j].1@, out@[j].1@) by {
                        assert(flat@[2 * j] == pairs@[j].0);
                        assert(copy_rel(o, n, bound)(flat@[2 * j]@, copied@[2 * j]@));
                        assert(copy_rel(o, n, bound)(flat@[2 * j + 1]@, copied@[2 * j + 1]@));
                    }
                    lemma_flat_refer(self, &before, flat@, *value);
                }
                Ok(ValidatedValue::Mapping(out))
            },
            ValidatedValue::Model(m) => {
                let fields = m.fields();
                let extras = m.extras();
                let mut flat: Vec<ValueId> = Vec::new();
                let mut i: usize = 0;
                while i < fields.len()
                    invariant
                        i <= fields.len(),
                        flat@.len() == i,
                        forall|j: int| 0 <= j < i ==> flat@[j] == (#[trigger] fields@[j]).1,
                    decreases fields.len() - i,
                {
                    flat.push(fields[i].1);
                    i += 1;
                }
                let mut i: usize = 0;
                while i < extras.len()
                    invariant
                        i <= extras.len(),
                        flat@.len() == fields@.len() + i,
                        forall|j: int| 0 <= j < fields@.len() ==> flat@[j] == (#[trigger] fields@[j]).1,
                        forall|j: int| 0 <= j < i ==> flat@[fields@.len() + j] == (#[trigger] extras@[j]).1,
                    decreases extras.len() - i,
                {
                    flat.push(extras[i].1);
                    i += 1;
                }
                proof {
                    let entries = model_entries(*value);
                    assert forall|j: int| 0 <= j < flat@.len() implies (#[trigger] flat@[j])@ < id@ && refers_to(
                        *value,
                        flat@[j]@,
                    ) by {
                        if j < fields@.len() {
                            assert(flat@[j] == fields@[j].1);
                            assert(entries[j].1 == fields@[j].1);
                        } else {
                            let e = j - fields@.len();
                            assert(flat@[fields@.len() + e] == extras@[e].1);
                            assert(entries[j].1 == extras@[e].1);
                        }
                    }
                }
                let ghost before = *self;
                let copied = self.copy_list(&flat, Ghost(id))?;
                let ghost o = self.origin@;
                let ghost bound = n + o.len();
                let mut new_fields: Vec<(&'static str, ValueId)> = Vec::new();
                let mut i: usize = 0;
                while i < fields.len()
                    invariant
                        i <= fields.len(),
                        flat@.len() == fields@.len() + extras@.len(),
                        copied@.len() == flat@.len(),
                        new_fields@.len() == i,
                        forall|j: int|
                            0 <= j < i ==> (#[trigger] new_fields@[j]).0 == fields@[j].0 && new_fields@[j].1
                                == copied@[j],
                    decreases fields.len() - i,
                {
                    new_fields.push((fields[i].0, copied[i]));
                    i += 1;
                }
                let mut new_extras: Vec<(String, ValueId)> = Vec::new();
                let mut i: usize = 0;
                while i < extras.len()
                    invariant
                        i <= extras.len(),
                        flat@.len() == fields@.len() + extras@.len(),
                        copied@.len() == flat@.len(),
                        new_extras@.len() == i,
                        forall|j: int|
                            0 <= j < i ==> (#[trigger] new_extras@[j]).0@ == extras@[j].0@ && new_extras@[j].1
                                == copied@[fields@.len() + j],
                    decreases extras.len() - i,
                {
                    assert(fields.len() + i < copied.len());
                    new_extras.push((extras[i].0.clone(), copied[fields.len() + i]));
                    i += 1;
                }
                let w = ModelValue::new(m.static_name(), new_fields, new_extras, m.validated_field_count());
                proof {
                    assert forall|j: int| 0 <= j < fields@.len() implies #[trigger] copy_rel(o, n, bound)(
                        fields@[j].1@,
                        w.spec_fields()[j].1@,
                    ) && fields@[j].0 == w.spec_fields()[j].0 by {
                        assert(flat@[j] == fields@[j].1);
                        assert(copy_rel(o, n, bound)(flat@[j]@, copied@[j]@));
                    }
                    assert forall|j: int| 0 <= j < extras@.len() implies #[trigger] copy_rel(o, n, bound)(
                        extras@[j].1@,
                        w.spec_extras()[j].1@,
                    ) && extras@[j].0@ == w.spec_extras()[j].0@ by {
                        assert(flat@[fields@.len() + j] == extras@[j].1);
                        assert(copy_rel(o, n, bound)(flat@[fields@.len() + j]@, copied@[fields@.len() + j]@));
                    }
                    lemma_flat_refer(self, &before, flat@, *value);
                }
                Ok(ValidatedValue::Model(w))
            },
            _ => {
                let w = copy_value(value);
                Ok(w)
            },
        }
    }

    /// Copies of the values at a list of ids below `id`, in order.
    fn copy_list(&mut self, items: &Vec<ValueId>, Ghost(id): Ghost<ValueId>) -> (r: Result<Vec<ValueId>, ArenaError>)
        requires
            old(self).inv(),
            id@ < old(self).start@,
            forall|j: int| 0 <= j < items@.len() ==> (#[trigger] items@[j])@ < id@,
        ensures
            final(self).inv(),
            SubtreeCopier::grows(old(self), final(self)),
            SubtreeCopier::added_under(old(self), final(self), id@),
            r is Ok ==> SubtreeCopier::added_from(old(self), final(self), |c: nat| lists(items@, c)),
            r matches Ok(out) ==> ids_related(
                items@,
                out@,
                copy_rel(final(self).origin@, final(self).start@, final(self).start@ + final(self).origin@.len()),
            ),
            r matches Err(e) ==> e == ArenaError::CapacityExceeded,
            old(self).roomy() ==> r is Ok,
        decreases id@, 0nat,
    {
        let ghost start = *self;
        let mut out: Vec<ValueId> = Vec::new();
        let mut i: usize = 0;
        proof {
            assert(self.origin@.subrange(0, self.origin@.len() as int) =~= self.origin@);
        }
        while i < items.len()
            invariant
                self.inv(),
                start == *old(self),
                SubtreeCopier::grows(&start, self),
                SubtreeCopier::added_under(&start, self, id@),
                SubtreeCopier::added_from(&start, self, |c: nat| lists(items@, c)),
                id@ < start.start@,
                forall|j: int| 0 <= j < items@.len() ==> (#[trigger] items@[j])@ < id@,
                i <= items.len(),
                out@.len() == i,
                forall|j: int| 0 <= j < i ==> copy_at(self.origin@, self.start@, (#[trigger] items@[j])@, out@[j]@),
                start.roomy() ==> self.roomy(),
            decreases items.len() - i,
        {
            let ghost prev = *self;
            let res = self.copy(items[i]);
            proof {
                let o = self.origin@;
                let m = prev.origin@.len() as int;
                lemma_prefix_trans(start.origin@, prev.origin@, o);
                assert forall|k: int| start.origin@.len() <= k < o.len() implies #[trigger] o[k] < id@ by {
                    if k < m {
                        assert(o[k] == o.subrange(0, m)[k]);
                        assert(prev.origin@[k] < id@);
                    }
                }
            }
            let c = match res {
                Ok(c) => c,
                Err(e) => return Err(e),
            };
            proof {
                let o = self.origin@;
                let src = self.src();
                let m = prev.origin@.len() as int;
                assert forall|j: int| 0 <= j < i implies copy_at(o, self.start@, (#[trigger] items@[j])@, out@[j]@) by {
                    lemma_copy_kept(prev.origin@, o, self.start@, items@[j]@, out@[j]@);
                }
                assert forall|k: int| start.origin@.len() <= k < o.len() implies (|c: nat| lists(items@, c))(
                    #[trigger] o[k],
                ) || exists|k2: int| start.origin@.len() <= k2 < o.len() && refers_to(src[o[k2] as int], o[k]) by {
                    if k < m {
                        assert(o[k] == o.subrange(0, m)[k]);
                        assert(o[k] == prev.origin@[k]);
                        if !lists(items@, o[k]) {
                            let k2 = choose|k2: int|
                                start.origin@.len() <= k2 < m && refers_to(src[prev.origin@[k2] as int], prev.origin@[k]);
                            assert(o[k2] == o.subrange(0, m)[k2]);
                        }
                    } else if o[k] == items@[i as int]@ {
                        assert(lists(items@, items@[i as int]@));
                    } else {
                        let k2 = choose|k2: int| m <= k2 < o.len() && refers_to(src[o[k2] as int], o[k]);
                    }
                }
            }
            out.push(c);
            i += 1;
        }
        proof {
            let o = self.origin@;
            let n = self.start@;
            assert forall|j: int| 0 <= j < items@.len() implies #[trigger] copy_rel(o, n, n + o.len())(
                items@[j]@,
                out@[j]@,
            ) by {
                assert(copy_at(o, n, items@[j]@, out@[j]@));
            }
        }
        Ok(out)
    }
}

proof fn lemma_prefix_trans(a: Seq<nat>, b: Seq<nat>, c: Seq<nat>)
    requires
        a.len() <= b.len(),
        b.subrange(0, a.len() as int) == a,
        b.len() <= c.len(),
        c.subrange(0, b.len() as int) == b,
    ensures
        c.subrange(0, a.len() as int) == a,
{
    assert(c.subrange(0, a.len() as int) =~= a) by {
        assert forall|k: int| 0 <= k < a.len() implies c.subrange(0, a.len() as int)[k] == a[k] by {
            assert(c[k] == c.subrange(0, b.len() as int)[k]);
            assert(b[k] == b.subrange(0, a.len() as int)[k]);
        }
    }
}

/// What a copy of a list of ids added, it added for a value that refers to
/// each of them.
proof fn lemma_flat_refer(after: &SubtreeCopier, before: &SubtreeCopier, items: Seq<ValueId>, value: ValidatedValue)
    requires
        SubtreeCopier::added_from(before, after, |c: nat| lists(items, c)),
        forall|j: int| 0 <= j < items.len() ==> refers_to(value, (#[trigger] items[j])@),
    ensures
        SubtreeCopier::added_from(before, after, |c: nat| refers_to(value, c)),
{
    let o = after.origin@;
    let src = after.source@;
    assert forall|k: int| before.origin@.len() <= k < o.len() implies (|c: nat| refers_to(value, c))(#[trigger] o[k])
        || exists|k2: int| before.origin@.len() <= k2 < o.len() && refers_to(src[o[k2] as int], o[k]) by {
        if lists(items, o[k]) {
            let j = choose|j: int| 0 <= j < items.len() && (#[trigger] items[j])@ == o[k];
            assert(refers_to(value, items[j]@));
        }
    }
}

/// What a list copy added, it added for a list value holding those items.
proof fn lemma_lists_refer(after: &SubtreeCopier, before: &SubtreeCopier, items: Seq<ValueId>, value: ValidatedValue)
    requires
        SubtreeCopier::added_from(before, after, |c: nat| lists(items, c)),
        match value {
            ValidatedValue::Sequence(x) => x@ == items,
            ValidatedValue::Tuple(x) => x@ == items,
            ValidatedValue::MutableSet(x) => x@ == items,
            ValidatedValue::FrozenSet(x) => x@ == items,
            _ => false,
        },
    ensures
        SubtreeCopier::added_from(before, after, |c: nat| refers_to(value, c)),
{
    let o = after.origin@;
    let src = after.source@;
    assert forall|k: int| before.origin@.len() <= k < o.len() implies (|c: nat| refers_to(value, c))(#[trigger] o[k])
        || exists|k2: int| before.origin@.len() <= k2 < o.len() && refers_to(src[o[k2] as int], o[k]) by {
        if lists(items, o[k]) {
            let j = choose|j: int| 0 <= j < items.len() && (#[trigger] items[j])@ == o[k];
            assert(items[j]@ == o[k]);
        }
    }
}

/// A copy of every value of an arena, in order.
fn copy_arena(values: &Arena<ValidatedValue>) -> (r: Arena<ValidatedValue>)
    ensures
        r@.len() == values@.len(),
        forall|i: int| 0 <= i < values@.len() ==> relabeled(#[trigger] values@[i], r@[i], same_id()),
{
    let items = values.values();
    let mut out: Vec<ValidatedValue> = Vec::new();
    let mut i: usize = 0;
    while i < items.len()
        invariant
            items@ == values@,
            i <= items.len(),
            out@.len() == i,
            forall|j: int| 0 <= j < i ==> relabeled(#[trigger] items@[j], out@[j], same_id()),
        decreases items.len() - i,
    {
        out.push(copy_value(&items[i]));
        i += 1;
    }
    Arena::from_values(out)
}

impl ValidatedArena {
    /// The same values with another root, when that root is a value of the
    /// arena.
    pub fn selected(&self, root: ValueId) -> (r: Option<ValidatedArena>)
        ensures
            r is Some <==> root@ < self.spec_values().len(),
            r matches Some(a) ==> a.spec_root() == root && a.spec_values().len() == self.spec_values().len() && forall|
                i: int,
            |
                0 <= i < self.spec_values().len() ==> relabeled(
                    #[trigger] self.spec_values()[i],
                    a.spec_values()[i],
                    same_id(),
                ),
    {
        proof {
            self.lemma_parts();
        }
        match self.values.get(root) {
            Some(_) => {},
            None => return None,
        }
        Some(ValidatedArena::new(root, copy_arena(&self.values)))
    }

    /// The values of the arena, then a copy of each value reachable from
    /// `cloned_item`, then as root a tuple of `first` and that copy, so
    /// that the two items of the tuple share no storage. Ids outside the
    /// arena and an arena that outgrows the compact range are refused.
    pub fn tuple_root_with_cloned_item(&self, first: ValueId, cloned_item: ValueId) -> (r: Result<
        ValidatedArena,
        ArenaError,
    >)
        requires
            refers_to_earlier(self.spec_values()),
        ensures
            r matches Ok(out) ==> first@ < self.spec_values().len() && cloned_item@ < self.spec_values().len()
                && tuple_of_copy(self.spec_values(), out.spec_values(), out.spec_root(), first@, cloned_item@),
            first@ >= self.spec_values().len() || cloned_item@ >= self.spec_values().len() ==> r is Err,
            first@ < self.spec_values().len() && cloned_item@ < self.spec_values().len() && 2
                * self.spec_values().len() <= u32::MAX ==> r is Ok,
            r matches Err(e) ==> e == ArenaError::CapacityExceeded,
    {
        proof {
            self.lemma_parts();
        }
        match self.values.get(first) {
            Some(_) => {},
            None => return Err(ArenaError::CapacityExceeded),
        }
        match self.values.get(cloned_item) {
            Some(_) => {},
            None => return Err(ArenaError::CapacityExceeded),
        }
        let mut copier = SubtreeCopier {
            source: &self.values,
            dest: copy_arena(&self.values),
            copies: BTreeMap::new(),
            origin: Ghost(Seq::empty()),
            start: Ghost(self.values@.len()),
        };
        proof {
            assert(copier.copies@ =~= Map::<u32, ValueId>::empty());
        }
        let copy = copier.copy(cloned_item)?;
        let ghost o = copier.origin@;
        let ghost n = self.values@.len();
        let mut values = copier.dest;
        let ghost mid = values@;
        proof {
            lemma_origin_fits(o, n);
        }
        let root = values.push(ValidatedValue::Tuple(vec![first, copy]))?;
        proof {
            let src = self.values@;
            let out = values@;
            assert(o.subrange(0, 0) =~= Seq::<nat>::empty());
            assert(o.contains(cloned_item@)) by {
                assert(o[copy@ - n] == cloned_item@);
            }
            assert forall|i: int| 0 <= i < n implies relabeled(#[trigger] src[i], out[i], same_id()) by {
                assert(out[i] == mid[i]);
            }
            assert forall|k: int| 0 <= k < o.len() implies #[trigger] o[k] < n && relabeled(
                src[o[k] as int],
                out[n + k],
                copy_rel(o, n, (n + k) as nat),
            ) by {
                assert(out[n + k] == mid[n + k]);
            }
            assert(copies_subtree(src, out, o, cloned_item@));
            let ids = out[root@ as int]->Tuple_0;
            assert(ids@ =~= seq![first, copy]);
        }
        Ok(ValidatedArena::new(root, values))
    }
}

} // verus!
