use vstd::prelude::*;

verus! {

/// The largest raw value of a compact arena index.
pub open spec fn max_arena_id() -> nat {
    u32::MAX as nat
}

/// A compact checked index into an arena.
#[derive(Clone, Copy, Debug, PartialEq, Eq, Structural, Hash, PartialOrd, Ord)]
pub struct ArenaId(pub(crate) u32);

impl View for ArenaId {
    type V = nat;

    closed spec fn view(&self) -> nat {
        self.0 as nat
    }
}

impl ArenaId {
    /// The raw compact index.
    pub fn raw(self) -> (r: u32)
        ensures
            r == self@,
    {
        self.0
    }

    /// Converts a position into a compact index; positions past the compact
    /// range are refused.
    pub fn from_usize(value: usize) -> (r: Result<ArenaId, ArenaError>)
        ensures
            value <= max_arena_id() <==> r is Ok,
            r matches Ok(id) ==> id@ == value,
            r matches Err(e) ==> e == ArenaError::CapacityExceeded,
    {
        if value <= u32::MAX as usize {
            Ok(ArenaId(value as u32))
        } else {
            Err(ArenaError::CapacityExceeded)
        }
    }
}

/// The index whose raw value is `n`, for `n` within the compact range.
pub closed spec fn id_at(n: nat) -> ArenaId {
    ArenaId(n as u32)
}

/// `id_at` gives back the position it was made from.
pub proof fn lemma_id_at(n: nat)
    requires
        n <= max_arena_id(),
    ensures
        id_at(n)@ == n,
{
}

/// An index is the `id_at` of its raw value, which lies in the compact range.
pub proof fn lemma_id_view(id: ArenaId)
    ensures
        id == id_at(id@),
        id@ <= max_arena_id(),
{
}

/// A move-owned arena whose values are only addressed through checked IDs.
#[derive(Clone, Debug, PartialEq, Eq)]
pub struct Arena<T> {
    values: Vec<T>,
}

impl<T> View for Arena<T> {
    type V = Seq<T>;

    open spec fn view(&self) -> Seq<T> {
        self.spec_values()
    }
}

impl<T> Arena<T> {
    /// The stored values, in push order.
    pub closed spec fn spec_values(&self) -> Seq<T> {
        self.values@
    }

    /// What `get` answers for an index.
    pub open spec fn spec_get(&self, id: ArenaId) -> Option<T> {
        if id@ < self@.len() {
            Some(self@[id@ as int])
        } else {
            None
        }
    }

    pub fn new() -> (r: Self)
        ensures
            r@ == Seq::<T>::empty(),
    {
        Arena { values: Vec::new() }
    }

    pub fn len(&self) -> (r: usize)
        ensures
            r == self@.len(),
    {
        self.values.len()
    }

    pub fn is_empty(&self) -> (r: bool)
        ensures
            r == (self@.len() == 0),
    {
        self.values.len() == 0
    }

    /// Appends a value and returns its index; the arena is unchanged when the
    /// next index does not fit the compact range.
    pub fn push(&mut self, value: T) -> (r: Result<ArenaId, ArenaError>)
        ensures
            r is Ok <==> old(self)@.len() <= max_arena_id(),
            r matches Ok(id) ==> id@ == old(self)@.len() && final(self)@ == old(self)@.push(value),
            r matches Err(e) ==> e == ArenaError::CapacityExceeded && final(self)@ == old(self)@,
    {
        let id = ArenaId::from_usize(self.values.len())?;
        self.values.push(value);
        Ok(id)
    }

    pub fn get(&self, id: ArenaId) -> (r: Option<&T>)
        ensures
            r matches Some(v) ==> self.spec_get(id) == Some(*v),
            r is None <==> self.spec_get(id) is None,
    {
        let index = id.0 as usize;
        if index < self.values.len() {
            Some(&self.values[index])
        } else {
            None
        }
    }

    pub fn values(&self) -> (r: &[T])
        ensures
            r@ == self@,
    {
        self.values.as_slice()
    }

    pub(crate) fn from_values(values: Vec<T>) -> (r: Self)
        ensures
            r@ == values@,
    {
        Arena { values }
    }

    pub(crate) fn into_values(self) -> (r: Vec<T>)
        ensures
            r@ == self@,
    {
        self.values
    }
}

impl<T> Default for Arena<T> {
    fn default() -> (r: Self)
        ensures
            r@ == Seq::<T>::empty(),
    {
        Self::new()
    }
}

#[derive(Clone, Copy, Debug, PartialEq, Eq, Structural)]
pub enum ArenaError {
    CapacityExceeded,
}

impl ArenaError {
    /// The human-readable description of the error.
    pub fn message(&self) -> (r: &'static str)
        ensures
            r@ == "arena capacity exceeds the compact index range"@,
    {
        "arena capacity exceeds the compact index range"
    }
}

/// Reading back the index that `push` returned gives the pushed value, and
/// every value stored before the push is read back unchanged.
pub proof fn law_get_after_push<T>(before: Arena<T>, after: Arena<T>, id: ArenaId, value: T)
    requires
        after@ == before@.push(value),
        id@ == before@.len(),
    ensures
        after.spec_get(id) == Some(value),
        forall|other: ArenaId| other@ < before@.len() ==> after.spec_get(other) == before.spec_get(other),
{
}

/// A push that succeeds grows the arena by exactly one value, so indices are
/// handed out densely in push order.
pub proof fn law_push_is_dense<T>(before: Arena<T>, after: Arena<T>, id: ArenaId, value: T)
    requires
        after@ == before@.push(value),
        id@ == before@.len(),
    ensures
        after@.len() == before@.len() + 1,
        id@ + 1 == after@.len(),
{
}

/// Two ArenaId values are equal exactly when their raw values are.
pub proof fn law_arena_ids_equal_iff_raw_equal(a: ArenaId, b: ArenaId)
    ensures
        a == b <==> a@ == b@,
{
}

} // verus!
