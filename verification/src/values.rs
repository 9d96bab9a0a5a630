use vstd::prelude::*;

use crate::arena::{Arena, ArenaError, ArenaId};
use crate::text::{decimal, owned, u64_text};

verus! {

/// An index into an arena of validated values.
pub type ValueId = ArenaId;

/// A calendar date.
#[derive(Clone, Debug, PartialEq, Eq, Structural)]
pub struct DateValue {
    pub year: u16,
    pub month: u8,
    pub day: u8,
}

/// A time of day with an optional UTC offset in seconds.
#[derive(Clone, Debug, PartialEq, Eq, Structural)]
pub struct TimeValue {
    pub hour: u8,
    pub minute: u8,
    pub second: u8,
    pub microsecond: u32,
    pub offset_seconds: Option<i32>,
}

/// A date with a time of day.
#[derive(Clone, Debug, PartialEq, Eq, Structural)]
pub struct DateTimeValue {
    pub date: DateValue,
    pub time: TimeValue,
}

/// A signed span of days, seconds and microseconds.
#[derive(Clone, Debug, PartialEq, Eq, Structural)]
pub struct DurationValue {
    pub positive: bool,
    pub days: u32,
    pub seconds: u32,
    pub microseconds: u32,
}

/// A validated model: its name, its fields and extra entries, and how many
/// fields were validated.
#[derive(Clone, Debug, PartialEq)]
pub struct ModelValue {
    pub(crate) name: &'static str,
    fields: Vec<(&'static str, ValueId)>,
    extras: Vec<(String, ValueId)>,
    validated_field_count: usize,
}

impl ModelValue {
    pub fn new(
        name: &'static str,
        fields: Vec<(&'static str, ValueId)>,
        extras: Vec<(String, ValueId)>,
        validated_field_count: usize,
    ) -> (r: ModelValue)
        ensures
            r.spec_name() == name@,
            r.spec_fields() == fields@,
            r.spec_extras() == extras@,
            r.spec_validated_field_count() == validated_field_count,
    {
        ModelValue { name, fields, extras, validated_field_count }
    }

    pub closed spec fn spec_name(&self) -> Seq<char> {
        self.name@
    }

    pub closed spec fn spec_fields(&self) -> Seq<(&'static str, ValueId)> {
        self.fields@
    }

    pub closed spec fn spec_extras(&self) -> Seq<(String, ValueId)> {
        self.extras@
    }

    pub closed spec fn spec_validated_field_count(&self) -> usize {
        self.validated_field_count
    }

    pub fn name(&self) -> (r: &str)
        ensures
            r@ == self.spec_name(),
    {
        self.name
    }

    pub(crate) fn static_name(&self) -> (r: &'static str)
        ensures
            r@ == self.spec_name(),
    {
        self.name
    }

    pub fn fields(&self) -> (r: &[(&'static str, ValueId)])
        ensures
            r@ == self.spec_fields(),
    {
        self.fields.as_slice()
    }

    pub fn extras(&self) -> (r: &[(String, ValueId)])
        ensures
            r@ == self.spec_extras(),
    {
        self.extras.as_slice()
    }

    pub fn validated_field_count(&self) -> (r: usize)
        ensures
            r == self.spec_validated_field_count(),
    {
        self.validated_field_count
    }
}

/// A validated enum member: the enum's name, the variant's name and
/// position, and the validated discriminant value.
#[derive(Clone, Debug, PartialEq)]
pub struct EnumValue {
    pub(crate) name: &'static str,
    pub(crate) variant: &'static str,
    pub(crate) index: usize,
    pub(crate) discriminant: ValueId,
}

impl EnumValue {
    pub closed spec fn spec_name(&self) -> &'static str {
        self.name
    }

    pub closed spec fn spec_variant(&self) -> &'static str {
        self.variant
    }

    pub closed spec fn spec_index(&self) -> usize {
        self.index
    }

    /// The validated discriminant value.
    pub closed spec fn spec_discriminant(&self) -> ValueId {
        self.discriminant
    }

    pub fn name(&self) -> (r: &'static str)
        ensures
            r == self.spec_name(),
    {
        self.name
    }

    pub fn variant(&self) -> (r: &'static str)
        ensures
            r == self.spec_variant(),
    {
        self.variant
    }

    pub fn index(&self) -> (r: usize)
        ensures
            r == self.spec_index(),
    {
        self.index
    }

    pub(crate) fn discriminant(&self) -> (r: ValueId)
        ensures
            r == self.spec_discriminant(),
    {
        self.discriminant
    }

    /// The same member with another discriminant value.
    pub(crate) fn with_discriminant(&self, discriminant: ValueId) -> (r: EnumValue)
        ensures
            r.spec_name() == self.spec_name(),
            r.spec_variant() == self.spec_variant(),
            r.spec_index() == self.spec_index(),
            r.spec_discriminant() == discriminant,
    {
        EnumValue { name: self.name, variant: self.variant, index: self.index, discriminant }
    }
}

/// A value validated by one choice of a union, with that choice's position.
#[derive(Clone, Debug, PartialEq)]
pub struct UnionValue {
    pub(crate) index: usize,
    pub(crate) value: ValueId,
}

impl UnionValue {
    pub closed spec fn spec_index(&self) -> usize {
        self.index
    }

    pub closed spec fn spec_value(&self) -> ValueId {
        self.value
    }

    pub fn index(&self) -> (r: usize)
        ensures
            r == self.spec_index(),
    {
        self.index
    }

    pub fn value(&self) -> (r: ValueId)
        ensures
            r == self.spec_value(),
    {
        self.value
    }

    /// The same choice holding another value.
    pub(crate) fn with_value(&self, value: ValueId) -> (r: UnionValue)
        ensures
            r.spec_index() == self.spec_index(),
            r.spec_value() == value,
    {
        UnionValue { index: self.index, value }
    }
}

/// One validated value. Numbers that std cannot hold exactly are kept as
/// their canonical text, floating-point numbers as IEEE 754 bit patterns;
/// aggregates refer to other values of the same arena.
#[derive(Clone, Debug, PartialEq)]
pub enum ValidatedValue {
    Null,
    Bool(bool),
    ExactInt(String),
    FixedInt { kind: &'static str, value: String },
    Float(u64),
    Decimal(String),
    Fraction { numerator: String, denominator: String },
    Complex { real: u64, imaginary: u64 },
    String(String),
    Bytes(Vec<u8>),
    Date(DateValue),
    Time(TimeValue),
    DateTime(DateTimeValue),
    Duration(DurationValue),
    Uuid([u8; 16]),
    Url(String),
    MultiHostUrl(String),
    Pattern { source: String, flags: u8 },
    Enum(EnumValue),
    Union(UnionValue),
    Nullable(Option<ValueId>),
    Model(ModelValue),
    Sequence(Vec<ValueId>),
    Tuple(Vec<ValueId>),
    Mapping(Vec<(ValueId, ValueId)>),
    MutableSet(Vec<ValueId>),
    FrozenSet(Vec<ValueId>),
}

/// A validated value as plain values: texts as characters, bytes as byte
/// sequences, a model's field names and extra keys as characters.
pub enum ValueView {
    Null,
    Bool(bool),
    ExactInt(Seq<char>),
    FixedInt(Seq<char>, Seq<char>),
    Float(u64),
    Decimal(Seq<char>),
    Fraction(Seq<char>, Seq<char>),
    Complex(u64, u64),
    String(Seq<char>),
    Bytes(Seq<u8>),
    Date(DateValue),
    Time(TimeValue),
    DateTime(DateTimeValue),
    Duration(DurationValue),
    Uuid(Seq<u8>),
    Url(Seq<char>),
    MultiHostUrl(Seq<char>),
    Pattern(Seq<char>, u8),
    Enum(Seq<char>, Seq<char>, usize, ValueId),
    Union(usize, ValueId),
    Nullable(Option<ValueId>),
    Model(Seq<char>, Seq<(Seq<char>, ValueId)>, Seq<(Seq<char>, ValueId)>, usize),
    Sequence(Seq<ValueId>),
    Tuple(Seq<ValueId>),
    Mapping(Seq<(ValueId, ValueId)>),
    MutableSet(Seq<ValueId>),
    FrozenSet(Seq<ValueId>),
}

impl View for ValidatedValue {
    type V = ValueView;

    open spec fn view(&self) -> ValueView {
        match self {
            ValidatedValue::Null => ValueView::Null,
            ValidatedValue::Bool(b) => ValueView::Bool(*b),
            ValidatedValue::ExactInt(t) => ValueView::ExactInt(t@),
            ValidatedValue::FixedInt { kind, value } => ValueView::FixedInt(kind@, value@),
            ValidatedValue::Float(bits) => ValueView::Float(*bits),
            ValidatedValue::Decimal(t) => ValueView::Decimal(t@),
            ValidatedValue::Fraction { numerator, denominator } => ValueView::Fraction(numerator@, denominator@),
            ValidatedValue::Complex { real: re, imaginary: im } => ValueView::Complex(*re, *im),
            ValidatedValue::String(t) => ValueView::String(t@),
            ValidatedValue::Bytes(b) => ValueView::Bytes(b@),
            ValidatedValue::Date(d) => ValueView::Date(*d),
            ValidatedValue::Time(t) => ValueView::Time(*t),
            ValidatedValue::DateTime(d) => ValueView::DateTime(*d),
            ValidatedValue::Duration(d) => ValueView::Duration(*d),
            ValidatedValue::Uuid(b) => ValueView::Uuid(b@),
            ValidatedValue::Url(t) => ValueView::Url(t@),
            ValidatedValue::MultiHostUrl(t) => ValueView::MultiHostUrl(t@),
            ValidatedValue::Pattern { source, flags } => ValueView::Pattern(source@, *flags),
            ValidatedValue::Enum(e) => ValueView::Enum(
                e.spec_name()@,
                e.spec_variant()@,
                e.spec_index(),
                e.spec_discriminant(),
            ),
            ValidatedValue::Union(u) => ValueView::Union(u.spec_index(), u.spec_value()),
            ValidatedValue::Nullable(v) => ValueView::Nullable(*v),
            ValidatedValue::Model(m) => ValueView::Model(
                m.spec_name(),
                m.spec_fields().map_values(|f: (&'static str, ValueId)| (f.0@, f.1)),
                m.spec_extras().map_values(|e: (String, ValueId)| (e.0@, e.1)),
                m.spec_validated_field_count(),
            ),
            ValidatedValue::Sequence(ids) => ValueView::Sequence(ids@),
            ValidatedValue::Tuple(ids) => ValueView::Tuple(ids@),
            ValidatedValue::Mapping(pairs) => ValueView::Mapping(pairs@),
            ValidatedValue::MutableSet(ids) => ValueView::MutableSet(ids@),
            ValidatedValue::FrozenSet(ids) => ValueView::FrozenSet(ids@),
        }
    }
}

/// The validated values of one validation call, with the root of the
/// result.
#[derive(Clone, Debug, PartialEq)]
pub struct ValidatedArena {
    pub(crate) root: ValueId,
    pub(crate) values: Arena<ValidatedValue>,
}

impl ValidatedArena {
    pub closed spec fn spec_root(&self) -> ValueId {
        self.root
    }

    /// The values, in arena order.
    pub closed spec fn spec_values(&self) -> Seq<ValidatedValue> {
        self.values@
    }

    /// The views name the fields.
    pub(crate) proof fn lemma_parts(&self)
        ensures
            self.spec_values() == self.values@,
            self.spec_root() == self.root,
    {
    }

    pub fn new(root: ValueId, values: Arena<ValidatedValue>) -> (r: ValidatedArena)
        ensures
            r.spec_root() == root,
            r.spec_values() == values@,
    {
        ValidatedArena { root, values }
    }

    pub fn root(&self) -> (r: ValueId)
        ensures
            r == self.spec_root(),
    {
        self.root
    }

    pub fn get(&self, id: ValueId) -> (r: Option<&ValidatedValue>)
        ensures
            r matches Some(v) ==> id@ < self.spec_values().len() && *v == self.spec_values()[id@ as int],
            r is None <==> id@ >= self.spec_values().len(),
    {
        self.values.get(id)
    }

    pub fn len(&self) -> (r: usize)
        ensures
            r == self.spec_values().len(),
    {
        self.values.len()
    }

    pub fn is_empty(&self) -> (r: bool)
        ensures
            r == (self.spec_values().len() == 0),
    {
        self.values.is_empty()
    }
}

/// `to` is `from` moved `offset` places up, or left where it was when
/// `partial` allows it.
pub open spec fn moved_or_kept(from: ValueId, to: ValueId, offset: nat, partial: bool) -> bool {
    to@ == from@ + offset || (partial && to == from)
}

/// Each id of `after` relates to the id at the same place of `before` as
/// `moved_or_kept` says.
pub open spec fn list_remapped(before: Seq<ValueId>, after: Seq<ValueId>, offset: nat, partial: bool) -> bool {
    before.len() == after.len() && forall|i: int|
        0 <= i < before.len() ==> moved_or_kept(#[trigger] before[i], after[i], offset, partial)
}

/// Every id of `after` relates to the id at the same place of `before` as
/// `moved_or_kept` says, and everything else is unchanged.
pub open spec fn ids_remapped(before: ValidatedValue, after: ValidatedValue, offset: nat, partial: bool) -> bool {
    match (before, after) {
        (ValidatedValue::Sequence(a), ValidatedValue::Sequence(b)) => list_remapped(a@, b@, offset, partial),
        (ValidatedValue::Tuple(a), ValidatedValue::Tuple(b)) => list_remapped(a@, b@, offset, partial),
        (ValidatedValue::MutableSet(a), ValidatedValue::MutableSet(b)) => list_remapped(a@, b@, offset, partial),
        (ValidatedValue::FrozenSet(a), ValidatedValue::FrozenSet(b)) => list_remapped(a@, b@, offset, partial),
        (ValidatedValue::Mapping(a), ValidatedValue::Mapping(b)) => a@.len() == b@.len() && forall|i: int|
            0 <= i < a@.len() ==> moved_or_kept((#[trigger] a@[i]).0, b@[i].0, offset, partial) && moved_or_kept(
                a@[i].1,
                b@[i].1,
                offset,
                partial,
            ),
        (ValidatedValue::Nullable(Some(a)), ValidatedValue::Nullable(Some(b))) => moved_or_kept(a, b, offset, partial),
        (ValidatedValue::Enum(a), ValidatedValue::Enum(b)) => {
            &&& a.spec_name() == b.spec_name()
            &&& a.spec_variant() == b.spec_variant()
            &&& a.spec_index() == b.spec_index()
            &&& moved_or_kept(a.spec_discriminant(), b.spec_discriminant(), offset, partial)
        },
        (ValidatedValue::Union(a), ValidatedValue::Union(b)) => a.spec_index() == b.spec_index() && moved_or_kept(
            a.spec_value(),
            b.spec_value(),
            offset,
            partial,
        ),
        (ValidatedValue::Model(a), ValidatedValue::Model(b)) => {
            &&& a.spec_name() == b.spec_name()
            &&& a.spec_validated_field_count() == b.spec_validated_field_count()
            &&& a.spec_fields().len() == b.spec_fields().len()
            &&& a.spec_extras().len() == b.spec_extras().len()
            &&& forall|i: int|
                0 <= i < a.spec_fields().len() ==> (#[trigger] a.spec_fields()[i]).0 == b.spec_fields()[i].0
                    && moved_or_kept(a.spec_fields()[i].1, b.spec_fields()[i].1, offset, partial)
            &&& forall|i: int|
                0 <= i < a.spec_extras().len() ==> (#[trigger] a.spec_extras()[i]).0@ == b.spec_extras()[i].0@
                    && moved_or_kept(a.spec_extras()[i].1, b.spec_extras()[i].1, offset, partial)
        },
        _ => before == after,
    }
}

/// An id that can move `offset` places up and stay in the compact range.
pub open spec fn id_fits(id: ValueId, offset: nat) -> bool {
    id@ + offset <= u32::MAX
}

/// Every id of a list can move `offset` places up.
pub open spec fn list_fits(ids: Seq<ValueId>, offset: nat) -> bool {
    forall|i: int| 0 <= i < ids.len() ==> id_fits(#[trigger] ids[i], offset)
}

/// Every id that a value refers to can move `offset` places up.
pub open spec fn ids_fit(value: ValidatedValue, offset: nat) -> bool {
    match value {
        ValidatedValue::Sequence(a) => list_fits(a@, offset),
        ValidatedValue::Tuple(a) => list_fits(a@, offset),
        ValidatedValue::MutableSet(a) => list_fits(a@, offset),
        ValidatedValue::FrozenSet(a) => list_fits(a@, offset),
        ValidatedValue::Mapping(a) => forall|i: int|
            0 <= i < a@.len() ==> id_fits((#[trigger] a@[i]).0, offset) && id_fits(a@[i].1, offset),
        ValidatedValue::Nullable(Some(a)) => id_fits(a, offset),
        ValidatedValue::Enum(a) => id_fits(a.spec_discriminant(), offset),
        ValidatedValue::Union(a) => id_fits(a.spec_value(), offset),
        ValidatedValue::Model(a) => (forall|i: int|
            0 <= i < a.spec_fields().len() ==> id_fits((#[trigger] a.spec_fields()[i]).1, offset)) && (forall|i: int|
            0 <= i < a.spec_extras().len() ==> id_fits((#[trigger] a.spec_extras()[i]).1, offset)),
        _ => true,
    }
}

impl ValidatedValue {
    /// Moves every id that the value refers to `offset` places up, as when
    /// its arena is appended to another. When an id does not fit, the ids
    /// before it have moved and the rest are kept.
    pub fn remap_ids(&mut self, offset: usize) -> (r: Result<(), ArenaError>)
        ensures
            r is Ok <==> ids_fit(*old(self), offset as nat),
            r is Ok ==> ids_remapped(*old(self), *final(self), offset as nat, false),
            r is Err ==> ids_remapped(*old(self), *final(self), offset as nat, true),
            r matches Err(e) ==> e == ArenaError::CapacityExceeded,
    {
        match self {
            ValidatedValue::Sequence(ids) => remap_list(ids, offset),
            ValidatedValue::Tuple(ids) => remap_list(ids, offset),
            ValidatedValue::MutableSet(ids) => remap_list(ids, offset),
            ValidatedValue::FrozenSet(ids) => remap_list(ids, offset),
            ValidatedValue::Mapping(entries) => remap_pairs(entries, offset),
            ValidatedValue::Nullable(Some(id)) => {
                *id = remap_id(*id, offset)?;
                Ok(())
            },
            ValidatedValue::Enum(value) => {
                value.discriminant = remap_id(value.discriminant, offset)?;
                Ok(())
            },
            ValidatedValue::Union(value) => {
                value.value = remap_id(value.value, offset)?;
                Ok(())
            },
            ValidatedValue::Model(model) => {
                let ghost m0 = *model;
                assert(m0.spec_fields() == m0.fields@ && m0.spec_extras() == m0.extras@);
                match remap_named(&mut model.fields, offset) {
                    Ok(()) => {},
                    Err(e) => {
                        assert(!(forall|i: int|
                            0 <= i < m0.spec_fields().len() ==> id_fits(
                                (#[trigger] m0.spec_fields()[i]).1,
                                offset as nat,
                            )));
                        return Err(e);
                    },
                }
                let r = remap_named(&mut model.extras, offset);
                assert(r is Ok <==> forall|i: int|
                    0 <= i < m0.spec_extras().len() ==> id_fits((#[trigger] m0.spec_extras()[i]).1, offset as nat));
                r
            },
            _ => Ok(()),
        }
    }
}

/// Moves each id of a list in turn, stopping at the first that does not fit.
fn remap_list(ids: &mut Vec<ValueId>, offset: usize) -> (r: Result<(), ArenaError>)
    ensures
        r is Ok <==> list_fits(old(ids)@, offset as nat),
        list_remapped(old(ids)@, final(ids)@, offset as nat, r is Err),
        r matches Err(e) ==> e == ArenaError::CapacityExceeded,
{
    let ghost before = ids@;
    let mut i: usize = 0;
    while i < ids.len()
        invariant
            before == old(ids)@,
            i <= ids@.len(),
            ids@.len() == before.len(),
            forall|k: int| 0 <= k < i ==> before[k]@ + offset <= u32::MAX,
            forall|k: int| 0 <= k < i ==> (#[trigger] ids@[k])@ == before[k]@ + offset,
            forall|k: int| i <= k < ids@.len() ==> #[trigger] ids@[k] == before[k],
        decreases before.len() - i,
    {
        match remap_id(ids[i], offset) {
            Ok(moved) => ids.set(i, moved),
            Err(e) => {
                assert(forall|k: int| 0 <= k < before.len() ==> moved_or_kept(before[k], ids@[k], offset as nat, true));
                return Err(e);
            },
        }
        i = i + 1;
    }
    Ok(())
}

/// Moves each key and value of a mapping in turn, stopping at the first id
/// that does not fit.
fn remap_pairs(entries: &mut Vec<(ValueId, ValueId)>, offset: usize) -> (r: Result<(), ArenaError>)
    ensures
        final(entries)@.len() == old(entries)@.len(),
        r is Ok <==> forall|i: int|
            0 <= i < old(entries)@.len() ==> id_fits((#[trigger] old(entries)@[i]).0, offset as nat) && id_fits(
                old(entries)@[i].1,
                offset as nat,
            ),
        forall|i: int|
            0 <= i < old(entries)@.len() ==> moved_or_kept(
                (#[trigger] old(entries)@[i]).0,
                final(entries)@[i].0,
                offset as nat,
                r is Err,
            ) && moved_or_kept(old(entries)@[i].1, final(entries)@[i].1, offset as nat, r is Err),
        r matches Err(e) ==> e == ArenaError::CapacityExceeded,
{
    let ghost before = entries@;
    let mut i: usize = 0;
    while i < entries.len()
        invariant
            before == old(entries)@,
            i <= entries@.len(),
            entries@.len() == before.len(),
            forall|k: int| 0 <= k < i ==> before[k].0@ + offset <= u32::MAX && before[k].1@ + offset <= u32::MAX,
            forall|k: int|
                0 <= k < i ==> (#[trigger] entries@[k]).0@ == before[k].0@ + offset && entries@[k].1@ == before[k].1@
                    + offset,
            forall|k: int| i <= k < entries@.len() ==> #[trigger] entries@[k] == before[k],
        decreases before.len() - i,
    {
        let (key, value) = entries[i];
        let moved_key = match remap_id(key, offset) {
            Ok(moved) => moved,
            Err(e) => {
                return Err(e);
            },
        };
        let moved_value = match remap_id(value, offset) {
            Ok(moved) => moved,
            Err(e) => {
                entries.set(i, (moved_key, value));
                return Err(e);
            },
        };
        entries.set(i, (moved_key, moved_value));
        i = i + 1;
    }
    Ok(())
}

/// Moves the id of each named entry in turn, stopping at the first that
/// does not fit.
fn remap_named<K>(entries: &mut Vec<(K, ValueId)>, offset: usize) -> (r: Result<(), ArenaError>)
    ensures
        final(entries)@.len() == old(entries)@.len(),
        r is Ok <==> forall|i: int| 0 <= i < old(entries)@.len() ==> id_fits((#[trigger] old(entries)@[i]).1, offset as nat),
        forall|i: int|
            0 <= i < old(entries)@.len() ==> (#[trigger] old(entries)@[i]).0 == final(entries)@[i].0 && moved_or_kept(
                old(entries)@[i].1,
                final(entries)@[i].1,
                offset as nat,
                r is Err,
            ),
        r matches Err(e) ==> e == ArenaError::CapacityExceeded,
{
    let ghost before = entries@;
    let mut i: usize = 0;
    while i < entries.len()
        invariant
            before == old(entries)@,
            i <= entries@.len(),
            entries@.len() == before.len(),
            forall|k: int| 0 <= k < i ==> before[k].1@ + offset <= u32::MAX,
            forall|k: int| 0 <= k < i ==> (#[trigger] entries@[k]).0 == before[k].0 && entries@[k].1@ == before[k].1@ + offset,
            forall|k: int| i <= k < entries@.len() ==> #[trigger] entries@[k] == before[k],
        decreases before.len() - i,
    {
        let id = entries[i].1;
        let moved = remap_id(id, offset)?;
        entries[i].1 = moved;
        i = i + 1;
    }
    Ok(())
}

/// Moves an index `offset` places up, as when one arena is appended to
/// another; an index past the compact range is refused.
pub fn remap_id(id: ValueId, offset: usize) -> (r: Result<ValueId, ArenaError>)
    ensures
        r is Ok <==> id@ + offset <= u32::MAX,
        r matches Ok(moved) ==> moved@ == id@ + offset,
        r matches Err(e) ==> e == ArenaError::CapacityExceeded,
{
    let raw = id.raw() as usize;
    match raw.checked_add(offset) {
        None => Err(ArenaError::CapacityExceeded),
        Some(remapped) => ArenaId::from_usize(remapped),
    }
}

// ---------------------------------------------------------------------------
// Canonical text of times and durations
// ---------------------------------------------------------------------------

/// `n` zero characters.
pub open spec fn zeros(n: nat) -> Seq<char>
    decreases n,
{
    if n == 0 {
        Seq::empty()
    } else {
        zeros((n - 1) as nat).push('0')
    }
}

/// The decimal text of `n` with leading zeros up to `width` characters, as
/// `{:0width$}` writes it.
pub open spec fn padded(n: nat, width: nat) -> Seq<char> {
    if decimal(n).len() >= width {
        decimal(n)
    } else {
        zeros((width - decimal(n).len()) as nat) + decimal(n)
    }
}

fn decimal_width(n: u64) -> (r: u64)
    ensures
        r == decimal(n as nat).len(),
        1 <= r <= n + 1,
    decreases n,
{
    if n < 10 {
        1
    } else {
        decimal_width(n / 10) + 1
    }
}

/// The decimal text of `n` padded with zeros to `width` characters.
pub fn padded_text(n: u64, width: usize) -> (r: String)
    ensures
        r@ == padded(n as nat, width as nat),
{
    let digits = u64_text(n);
    let wide = decimal_width(n);
    if wide >= width as u64 {
        return digits;
    }
    let len = wide as usize;
    proof {
        reveal_strlit("0");
    }
    let mut out = String::new();
    let mut k: usize = 0;
    while k < width - len
        invariant
            k <= width - len,
            out@ == zeros(k as nat),
        decreases width - len - k,
    {
        proof {
            reveal_strlit("0");
        }
        out.append("0");
        k = k + 1;
    }
    out.append(digits.as_str());
    out
}

/// The magnitude of an offset in seconds.
pub open spec fn offset_magnitude(seconds: i32) -> nat {
    if seconds < 0 {
        (-seconds) as nat
    } else {
        seconds as nat
    }
}

/// `HH:MM:SS`.
pub open spec fn clock_text(hour: u8, minute: u8, second: u8) -> Seq<char> {
    padded(hour as nat, 2) + seq![':'] + padded(minute as nat, 2) + seq![':'] + padded(second as nat, 2)
}

/// `.ffffff`, or nothing when there are no microseconds.
pub open spec fn fraction_text(microsecond: u32) -> Seq<char> {
    if microsecond == 0 {
        Seq::empty()
    } else {
        seq!['.'] + padded(microsecond as nat, 6)
    }
}

/// `+HH:MM` or `-HH:MM`, or nothing when there is no offset.
pub open spec fn offset_text(offset_seconds: Option<i32>) -> Seq<char> {
    match offset_seconds {
        None => Seq::empty(),
        Some(seconds) => seq![if seconds < 0 { '-' } else { '+' }] + padded(offset_magnitude(seconds) / 3600, 2)
            + seq![':'] + padded(offset_magnitude(seconds) % 3600 / 60, 2),
    }
}

/// `HH:MM:SS`, then `.ffffff` when there are microseconds, then `+HH:MM`
/// or `-HH:MM` when there is an offset.
pub open spec fn spec_time_text(value: TimeValue) -> Seq<char> {
    clock_text(value.hour, value.minute, value.second) + fraction_text(value.microsecond) + offset_text(
        value.offset_seconds,
    )
}

fn clock_part(hour: u8, minute: u8, second: u8) -> (r: String)
    ensures
        r@ == clock_text(hour, minute, second),
{
    proof {
        reveal_strlit(":");
    }
    let mut out = padded_text(hour as u64, 2);
    out.append(":");
    out.append(padded_text(minute as u64, 2).as_str());
    out.append(":");
    out.append(padded_text(second as u64, 2).as_str());
    out
}

fn fraction_part(microsecond: u32) -> (r: String)
    ensures
        r@ == fraction_text(microsecond),
{
    proof {
        reveal_strlit(".");
    }
    if microsecond == 0 {
        String::new()
    } else {
        let mut out = owned(".");
        out.append(padded_text(microsecond as u64, 6).as_str());
        out
    }
}

fn offset_part(offset_seconds: Option<i32>) -> (r: String)
    ensures
        r@ == offset_text(offset_seconds),
{
    proof {
        reveal_strlit(":");
        reveal_strlit("-");
        reveal_strlit("+");
    }
    match offset_seconds {
        None => String::new(),
        Some(seconds) => {
            let magnitude: u64 = if seconds < 0 {
                (-(seconds as i64)) as u64
            } else {
                seconds as u64
            };
            let mut out = if seconds < 0 {
                owned("-")
            } else {
                owned("+")
            };
            out.append(padded_text(magnitude / 3600, 2).as_str());
            out.append(":");
            out.append(padded_text(magnitude % 3600 / 60, 2).as_str());
            out
        },
    }
}

/// The canonical text of a time of day.
pub fn time_text(value: &TimeValue) -> (r: String)
    ensures
        r@ == spec_time_text(*value),
{
    let mut out = clock_part(value.hour, value.minute, value.second);
    out.append(fraction_part(value.microsecond).as_str());
    out.append(offset_part(value.offset_seconds).as_str());
    out
}

/// `P{days}DT{seconds}S`, with `.ffffff` before the `S` when there are
/// microseconds, and a leading `-` for a negative span.
pub open spec fn spec_duration_text(value: DurationValue) -> Seq<char> {
    (if value.positive {
        Seq::empty()
    } else {
        seq!['-']
    }) + seq!['P'] + decimal(value.days as nat) + seq!['D', 'T'] + decimal(value.seconds as nat) + (
    if value.microseconds == 0 {
        Seq::empty()
    } else {
        seq!['.'] + padded(value.microseconds as nat, 6)
    }) + seq!['S']
}

/// The canonical ISO 8601 text of a duration.
pub fn duration_text(value: &DurationValue) -> (r: String)
    ensures
        r@ == spec_duration_text(*value),
{
    proof {
        reveal_strlit("-");
        reveal_strlit("P");
        reveal_strlit("DT");
        reveal_strlit(".");
        reveal_strlit("S");
    }
    let mut out = if value.positive {
        String::new()
    } else {
        owned("-")
    };
    out.append("P");
    out.append(u64_text(value.days as u64).as_str());
    out.append("DT");
    out.append(u64_text(value.seconds as u64).as_str());
    if value.microseconds != 0 {
        out.append(".");
        out.append(padded_text(value.microseconds as u64, 6).as_str());
    }
    out.append("S");
    out
}

} // verus!
