use vstd::prelude::*;

use crate::text::{concat, decimal, owned, usize_text};

verus! {

/// Where in the input an error was found.
#[derive(Clone, Debug, PartialEq, Eq)]
pub enum LocationItem {
    Field(String),
    Index(usize),
    MappingKey(usize),
}

/// A location step as plain values.
pub enum LocationStep {
    Field(Seq<char>),
    Index(usize),
    MappingKey(usize),
}

impl View for LocationItem {
    type V = LocationStep;

    open spec fn view(&self) -> LocationStep {
        match self {
            LocationItem::Field(name) => LocationStep::Field(name@),
            LocationItem::Index(i) => LocationStep::Index(*i),
            LocationItem::MappingKey(i) => LocationStep::MappingKey(*i),
        }
    }
}

impl LocationItem {
    /// A copy of the location step.
    pub fn copy(&self) -> (r: LocationItem)
        ensures
            r@ == self@,
    {
        match self {
            LocationItem::Field(name) => LocationItem::Field(name.clone()),
            LocationItem::Index(i) => LocationItem::Index(*i),
            LocationItem::MappingKey(i) => LocationItem::MappingKey(*i),
        }
    }
}

/// The value recorded for a context key: the first entry with that key.
pub open spec fn context_get(context: Seq<(Seq<char>, Seq<char>)>, key: Seq<char>) -> Option<Seq<char>>
    decreases context.len(),
{
    if context.len() == 0 {
        None
    } else if context[0].0 == key {
        Some(context[0].1)
    } else {
        context_get(context.drop_first(), key)
    }
}

/// One validation error.
#[derive(Clone, Debug, PartialEq, Eq)]
pub struct ErrorDetail {
    pub code: &'static str,
    pub location: Vec<LocationItem>,
    pub message: String,
    pub expected: String,
    pub context: Vec<(String, String)>,
}

/// An error detail as plain values.
pub struct DetailView {
    pub code: Seq<char>,
    pub location: Seq<LocationStep>,
    pub message: Seq<char>,
    pub expected: Seq<char>,
    pub context: Seq<(Seq<char>, Seq<char>)>,
}

impl View for ErrorDetail {
    type V = DetailView;

    open spec fn view(&self) -> DetailView {
        DetailView {
            code: self.code@,
            location: self.location@.map_values(|item: LocationItem| item@),
            message: self.message@,
            expected: self.expected@,
            context: self.context@.map_values(|entry: (String, String)| (entry.0@, entry.1@)),
        }
    }
}

proof fn lemma_context_update(c: Seq<(Seq<char>, Seq<char>)>, i: int, key: Seq<char>, value: Seq<char>)
    requires
        0 <= i < c.len(),
        c[i].0 == key,
        forall|j: int| 0 <= j < i ==> c[j].0 != key,
    ensures
        context_get(c.update(i, (key, value)), key) == Some(value),
        forall|k: Seq<char>| k != key ==> context_get(c.update(i, (key, value)), k) == context_get(c, k),
    decreases i,
{
    let cu = c.update(i, (key, value));
    if i > 0 {
        lemma_context_update(c.drop_first(), i - 1, key, value);
        assert(cu.drop_first() =~= c.drop_first().update(i - 1, (key, value)));
        assert(cu[0] == c[0]);
        assert forall|k: Seq<char>| k != key implies context_get(cu, k) == context_get(c, k) by {
            if c[0].0 != k {
                assert(context_get(cu.drop_first(), k) == context_get(c.drop_first(), k));
            }
        }
    } else {
        assert(cu.drop_first() =~= c.drop_first());
    }
}

proof fn lemma_context_push(c: Seq<(Seq<char>, Seq<char>)>, key: Seq<char>, value: Seq<char>)
    requires
        forall|j: int| 0 <= j < c.len() ==> c[j].0 != key,
    ensures
        context_get(c.push((key, value)), key) == Some(value),
        forall|k: Seq<char>| k != key ==> context_get(c.push((key, value)), k) == context_get(c, k),
    decreases c.len(),
{
    let cp = c.push((key, value));
    if c.len() > 0 {
        lemma_context_push(c.drop_first(), key, value);
        assert(cp.drop_first() =~= c.drop_first().push((key, value)));
        assert(cp[0] == c[0]);
        assert forall|k: Seq<char>| k != key implies context_get(cp, k) == context_get(c, k) by {
            if c[0].0 != k {
                assert(context_get(cp.drop_first(), k) == context_get(c.drop_first(), k));
            }
        }
    } else {
        assert(cp.drop_first() =~= Seq::<(Seq<char>, Seq<char>)>::empty());
        assert forall|k: Seq<char>| k != key implies context_get(cp, k) == context_get(c, k) by {
            assert(context_get(cp.drop_first(), k) is None);
        }
    }
}

proof fn lemma_context_absent(c: Seq<(Seq<char>, Seq<char>)>, key: Seq<char>)
    requires
        forall|j: int| 0 <= j < c.len() ==> c[j].0 != key,
    ensures
        context_get(c, key) is None,
    decreases c.len(),
{
    if c.len() > 0 {
        lemma_context_absent(c.drop_first(), key);
    }
}

proof fn lemma_context_first(c: Seq<(Seq<char>, Seq<char>)>, i: int, key: Seq<char>)
    requires
        0 <= i < c.len(),
        c[i].0 == key,
        forall|j: int| 0 <= j < i ==> c[j].0 != key,
    ensures
        context_get(c, key) == Some(c[i].1),
    decreases i,
{
    if i > 0 {
        lemma_context_first(c.drop_first(), i - 1, key);
    }
}

impl ErrorDetail {
    /// A detail with the given code and message and nothing else.
    pub fn new(code: &'static str, message: String) -> (r: ErrorDetail)
        ensures
            r@.code == code@,
            r@.message == message@,
            r@.location.len() == 0,
            r@.expected.len() == 0,
            r@.context.len() == 0,
    {
        let r = ErrorDetail {
            code,
            location: Vec::new(),
            message,
            expected: String::new(),
            context: Vec::new(),
        };
        assert(r@.location =~= Seq::<LocationStep>::empty());
        assert(r@.context =~= Seq::<(Seq<char>, Seq<char>)>::empty());
        r
    }

    /// The same detail with the given expectation.
    pub fn expected(self, expected: String) -> (r: ErrorDetail)
        ensures
            r@.expected == expected@,
            r@.code == self@.code,
            r@.location == self@.location,
            r@.message == self@.message,
            r@.context == self@.context,
    {
        let mut this = self;
        this.expected = expected;
        this
    }

    /// The same detail with `key` recorded as `value`; other keys keep their
    /// values.
    pub fn context(self, key: &str, value: String) -> (r: ErrorDetail)
        ensures
            context_get(r@.context, key@) == Some(value@),
            forall|k: Seq<char>| k != key@ ==> context_get(r@.context, k) == context_get(self@.context, k),
            (forall|j: int| 0 <= j < self@.context.len() ==> (#[trigger] self@.context[j]).0 != key@)
                ==> r@.context == self@.context.push((key@, value@)),
            r@.code == self@.code,
            r@.location == self@.location,
            r@.message == self@.message,
            r@.expected == self@.expected,
    {
        let mut this = self;
        let ghost before = this@.context;
        let mut i: usize = 0;
        while i < this.context.len()
            invariant
                i <= this.context@.len(),
                before == this@.context,
                before == self@.context,
                this@.code == self@.code,
                this@.location == self@.location,
                this@.message == self@.message,
                this@.expected == self@.expected,
                forall|j: int| 0 <= j < i ==> before[j].0 != key@,
            decreases this.context@.len() - i,
        {
            if crate::text::str_equal(this.context[i].0.as_str(), key) {
                let owned_key = owned(key);
                let ghost v = value@;
                this.context.set(i, (owned_key, value));
                proof {
                    assert(this@.context =~= before.update(i as int, (key@, v)));
                    lemma_context_update(before, i as int, key@, v);
                }
                return this;
            }
            i = i + 1;
        }
        let ghost v = value@;
        this.context.push((owned(key), value));
        proof {
            assert(this@.context =~= before.push((key@, v)));
            lemma_context_push(before, key@, v);
        }
        this
    }

    /// The value recorded for a context key.
    pub fn context_value(&self, key: &str) -> (r: Option<&String>)
        ensures
            r matches Some(v) ==> context_get(self@.context, key@) == Some(v@),
            r is None <==> context_get(self@.context, key@) is None,
    {
        let ghost c = self@.context;
        let mut i: usize = 0;
        while i < self.context.len()
            invariant
                i <= self.context@.len(),
                c == self@.context,
                forall|j: int| 0 <= j < i ==> c[j].0 != key@,
            decreases self.context@.len() - i,
        {
            if crate::text::str_equal(self.context[i].0.as_str(), key) {
                proof {
                    lemma_context_first(c, i as int, key@);
                }
                return Some(&self.context[i].1);
            }
            i = i + 1;
        }
        proof {
            lemma_context_absent(c, key@);
        }
        None
    }
}

/// How many more details an error with `held` details takes under `limit`.
pub open spec fn room(held: nat, limit: nat) -> nat {
    if held >= limit {
        0
    } else {
        (limit - held) as nat
    }
}

/// An error after appending `other` within `limit`: the first details of
/// `other` that fit, and the truncation mark when any were dropped or
/// either error was already truncated.
pub open spec fn appended(
    error: (Seq<DetailView>, bool),
    other: (Seq<DetailView>, bool),
    limit: nat,
) -> (Seq<DetailView>, bool) {
    let remaining = room(error.0.len(), limit);
    let kept = if other.0.len() <= remaining { other.0.len() } else { remaining };
    (error.0 + other.0.take(kept as int), error.1 || other.0.len() > remaining || other.1)
}

/// Appending keeps every detail already held, in order, and a truncated
/// error stays truncated.
pub proof fn law_append_keeps_what_it_held(
    error: (Seq<DetailView>, bool),
    other: (Seq<DetailView>, bool),
    limit: nat,
)
    ensures
        appended(error, other, limit).0.take(error.0.len() as int) == error.0,
        error.1 ==> appended(error, other, limit).1,
{
    assert(appended(error, other, limit).0.take(error.0.len() as int) =~= error.0);
}

/// Appending adds the details of `other` in order, as many as fit under the
/// limit; an error within the limit stays within it, and details that did
/// not fit are reported as truncation.
pub proof fn law_append_respects_limit(
    error: (Seq<DetailView>, bool),
    other: (Seq<DetailView>, bool),
    limit: nat,
)
    requires
        error.0.len() <= limit,
    ensures
        appended(error, other, limit).0.len() <= limit,
        appended(error, other, limit).0.len() == error.0.len() + if other.0.len() <= limit - error.0.len() {
            other.0.len() as int
        } else {
            limit - error.0.len()
        },
        forall|i: int|
            0 <= i < appended(error, other, limit).0.len() - error.0.len() ==> appended(error, other, limit).0[error.0.len()
                + i] == other.0[i],
        appended(error, other, limit).1 == (error.1 || other.1 || other.0.len() > limit - error.0.len()),
{
}

/// One or more validation errors, and whether more were dropped.
#[derive(Clone, Debug, PartialEq, Eq)]
pub struct ValidationError {
    details: Vec<ErrorDetail>,
    truncated: bool,
}

impl View for ValidationError {
    type V = (Seq<DetailView>, bool);

    closed spec fn view(&self) -> (Seq<DetailView>, bool) {
        (self.details@.map_values(|d: ErrorDetail| d@), self.truncated)
    }
}

impl ValidationError {
    /// The error made of one detail.
    pub fn one(detail: ErrorDetail) -> (r: ValidationError)
        ensures
            r@.0 == seq![detail@],
            !r@.1,
    {
        let ghost d = detail@;
        let r = ValidationError { details: vec![detail], truncated: false };
        assert(r@.0 =~= seq![d]);
        r
    }

    pub fn details(&self) -> (r: &[ErrorDetail])
        ensures
            r@.map_values(|d: ErrorDetail| d@) == self@.0,
    {
        self.details.as_slice()
    }

    pub fn is_truncated(&self) -> (r: bool)
        ensures
            r == self@.1,
    {
        self.truncated
    }

    /// The same error with `item` in front of every detail's location.
    pub fn at(self, item: LocationItem) -> (r: ValidationError)
        ensures
            r@.1 == self@.1,
            r@.0.len() == self@.0.len(),
            forall|i: int| 0 <= i < self@.0.len() ==> {
                &&& (#[trigger] r@.0[i]).location == seq![item@] + self@.0[i].location
                &&& r@.0[i].code == self@.0[i].code
                &&& r@.0[i].message == self@.0[i].message
                &&& r@.0[i].expected == self@.0[i].expected
                &&& r@.0[i].context == self@.0[i].context
            },
    {
        let ghost before = self@.0;
        let ValidationError { details, truncated } = self;
        let mut rest = details;
        let mut reversed: Vec<ErrorDetail> = Vec::new();
        while rest.len() > 0
            invariant
                rest@.len() + reversed@.len() == before.len(),
                forall|j: int| 0 <= j < rest@.len() ==> #[trigger] rest@[j]@ == before[j],
                forall|j: int| 0 <= j < reversed@.len() ==> {
                    let k = before.len() - 1 - j;
                    &&& (#[trigger] reversed@[j])@.location == seq![item@] + before[k].location
                    &&& reversed@[j]@.code == before[k].code
                    &&& reversed@[j]@.message == before[k].message
                    &&& reversed@[j]@.expected == before[k].expected
                    &&& reversed@[j]@.context == before[k].context
                },
            decreases rest@.len(),
        {
            let mut detail = rest.pop().unwrap();
            let ghost d = detail@;
            detail.location.insert(0, item.copy());
            proof {
                assert(detail@.location =~= seq![item@] + d.location);
            }
            reversed.push(detail);
        }
        let mut out: Vec<ErrorDetail> = Vec::new();
        while reversed.len() > 0
            invariant
                reversed@.len() + out@.len() == before.len(),
                forall|j: int| 0 <= j < reversed@.len() ==> {
                    let k = before.len() - 1 - j;
                    &&& (#[trigger] reversed@[j])@.location == seq![item@] + before[k].location
                    &&& reversed@[j]@.code == before[k].code
                    &&& reversed@[j]@.message == before[k].message
                    &&& reversed@[j]@.expected == before[k].expected
                    &&& reversed@[j]@.context == before[k].context
                },
                forall|j: int| 0 <= j < out@.len() ==> {
                    &&& (#[trigger] out@[j])@.location == seq![item@] + before[j].location
                    &&& out@[j]@.code == before[j].code
                    &&& out@[j]@.message == before[j].message
                    &&& out@[j]@.expected == before[j].expected
                    &&& out@[j]@.context == before[j].context
                },
            decreases reversed@.len(),
        {
            let detail = reversed.pop().unwrap();
            out.push(detail);
        }
        ValidationError { details: out, truncated }
    }

    /// Adds the details of `other` while at most `limit` details are held;
    /// the error is marked truncated when details are dropped or `other` was
    /// already truncated.
    pub fn append(&mut self, other: ValidationError, limit: usize)
        ensures
            final(self)@ == appended(old(self)@, other@, limit as nat),
    {
        let remaining = limit.saturating_sub(self.details.len());
        let ValidationError { details, truncated } = other;
        if details.len() > remaining {
            self.truncated = true;
        }
        let mut taken = details;
        let ghost before_taken = taken@;
        taken.truncate(remaining);
        let ghost kept: int = if before_taken.len() <= remaining { before_taken.len() as int } else { remaining as int };
        proof {
            assert(taken@.map_values(|d: ErrorDetail| d@) =~= before_taken.map_values(|d: ErrorDetail| d@).take(
                kept,
            ));
        }
        let ghost mine = self.details@;
        self.details.append(&mut taken);
        proof {
            assert(self.details@.map_values(|d: ErrorDetail| d@) =~= mine.map_values(|d: ErrorDetail| d@)
                + before_taken.map_values(|d: ErrorDetail| d@).take(kept));
        }
        self.truncated = self.truncated || truncated;
    }

    /// Whether at least `limit` details are held.
    pub fn is_full(&self, limit: usize) -> (r: bool)
        ensures
            r == (self@.0.len() >= limit),
    {
        self.details.len() >= limit
    }

    pub fn mark_truncated(&mut self)
        ensures
            final(self)@.0 == old(self)@.0,
            final(self)@.1,
    {
        self.truncated = true;
    }

    /// The first detail as `code: message`, or `validation failed`.
    pub fn text(&self) -> (r: String)
        ensures
            r@ == error_text(self@),
            self@.0.len() == 0 ==> r@ == "validation failed"@,
            self@.0.len() > 0 ==> r@ == self@.0[0].code + ": "@ + self@.0[0].message,
    {
        if self.details.len() == 0 {
            owned("validation failed")
        } else {
            let first = &self.details[0];
            let mut out = concat(first.code, ": ");
            out.append(first.message.as_str());
            out
        }
    }
}

/// The text of an error: its first detail as `code: message`, or
/// `validation failed` when it has none.
pub open spec fn error_text(error: (Seq<DetailView>, bool)) -> Seq<char> {
    if error.0.len() == 0 {
        "validation failed"@
    } else {
        error.0[0].code + ": "@ + error.0[0].message
    }
}

/// Resource limits of one validation call.
#[derive(Clone, Copy, Debug, PartialEq, Eq, Structural)]
pub struct ValidationLimits {
    pub max_depth: usize,
    pub max_collection_items: usize,
    pub max_string_bytes: usize,
    pub max_numeric_digits: usize,
    pub max_decimal_exponent: u32,
    pub max_errors: usize,
}

impl Default for ValidationLimits {
    fn default() -> (r: ValidationLimits)
        ensures
            r.max_depth == 128,
            r.max_collection_items == 1_000_000,
            r.max_string_bytes == 64 * 1024 * 1024,
            r.max_numeric_digits == 4_300,
            r.max_decimal_exponent == 4_300,
            r.max_errors == 128,
    {
        ValidationLimits {
            max_depth: 128,
            max_collection_items: 1_000_000,
            max_string_bytes: 64 * 1024 * 1024,
            max_numeric_digits: 4_300,
            max_decimal_exponent: 4_300,
            max_errors: 128,
        }
    }
}

/// The view of a one-detail error with a code, a message and an
/// expectation, at no location and with no context.
pub open spec fn plain_error(code: Seq<char>, message: Seq<char>, expected: Seq<char>) -> (Seq<DetailView>, bool) {
    (seq![DetailView { code, location: Seq::empty(), message, expected, context: Seq::empty() }], false)
}

/// The view of a one-detail error at no location with the given context
/// entries, in order.
pub open spec fn detail_error(
    code: Seq<char>,
    message: Seq<char>,
    expected: Seq<char>,
    context: Seq<(Seq<char>, Seq<char>)>,
) -> (Seq<DetailView>, bool) {
    (seq![DetailView { code, location: Seq::empty(), message, expected, context }], false)
}

/// A one-detail error with a code, a message and an expectation.
pub fn type_error(code: &'static str, message: &str, expected: &str) -> (r: ValidationError)
    ensures
        r@ == plain_error(code@, message@, expected@),
        !r@.1,
        r@.0.len() == 1,
        r@.0[0].code == code@,
        r@.0[0].message == message@,
        r@.0[0].expected == expected@,
        r@.0[0].location.len() == 0,
        r@.0[0].context.len() == 0,
{
    let r = ValidationError::one(ErrorDetail::new(code, owned(message)).expected(owned(expected)));
    assert(r@.0[0].location =~= Seq::<LocationStep>::empty());
    assert(r@.0[0].context =~= Seq::<(Seq<char>, Seq<char>)>::empty());
    assert(r@.0 =~= plain_error(code@, message@, expected@).0);
    r
}

/// The error reported when a validator callback fails; the callback's own
/// message is kept as the `error` context.
pub fn validator_callback_error(message: &str) -> (r: ValidationError)
    ensures
        !r@.1,
        r@.0.len() == 1,
        r@.0[0].code == "validator_error"@,
        r@.0[0].message == "Validator callback failed: "@ + message@,
        r@.0[0].expected == "successful checked validator"@,
        r@.0[0].location.len() == 0,
        context_get(r@.0[0].context, "error"@) == Some(message@),
{
    let text = concat("Validator callback failed: ", message);
    ValidationError::one(
        ErrorDetail::new("validator_error", text).expected(owned("successful checked validator")).context(
            "error",
            owned(message),
        ),
    )
}

/// What is wrong with a length under optional inclusive bounds: the error
/// code, the end of its message, its context key and the bound, or nothing.
pub open spec fn length_fault(length: nat, minimum: Option<usize>, maximum: Option<usize>) -> Option<
    (Seq<char>, Seq<char>, Seq<char>, usize),
> {
    match minimum {
        Some(min) if length < min => Some(("too_short"@, " is too short"@, "minimum"@, min)),
        _ => match maximum {
            Some(max) if length > max => Some(("too_long"@, " is too long"@, "maximum"@, max)),
            _ => None,
        },
    }
}

/// The error reported for a length fault of a `kind` of value: one detail
/// with the fault's code, the kind's name before the fault's message, and
/// the bound under the fault's context key.
pub open spec fn length_error(e: (Seq<DetailView>, bool), kind: Seq<char>, fault: (Seq<char>, Seq<char>, Seq<char>, usize)) -> bool {
    &&& !e.1
    &&& e.0.len() == 1
    &&& e.0[0].code == fault.0
    &&& e.0[0].message == kind + fault.1
    &&& e.0[0].location.len() == 0
    &&& e.0[0].expected.len() == 0
    &&& context_get(e.0[0].context, fault.2) == Some(decimal(fault.3 as nat))
}

/// The error reported for a length fault of a `kind` of value, in full:
/// one detail with the fault's code, the kind's name before the fault's
/// message, and the bound as its only context entry.
pub open spec fn length_view(kind: Seq<char>, fault: (Seq<char>, Seq<char>, Seq<char>, usize)) -> (
    Seq<DetailView>,
    bool,
) {
    (
        seq![
            DetailView {
                code: fault.0,
                location: Seq::empty(),
                message: kind + fault.1,
                expected: Seq::empty(),
                context: seq![(fault.2, decimal(fault.3 as nat))],
            },
        ],
        false,
    )
}

/// Checks a length against optional inclusive bounds.
pub fn validate_length(
    length: usize,
    minimum: Option<usize>,
    maximum: Option<usize>,
    kind: &str,
) -> (r: Result<(), ValidationError>)
    ensures
        r is Ok <==> length_fault(length as nat, minimum, maximum) is None,
        length_fault(length as nat, minimum, maximum) matches Some(fault) ==> (r matches Err(e) && length_error(
            e@,
            kind@,
            fault,
        ) && e@ == length_view(kind@, fault)),
{
    if let Some(min) = minimum {
        if length < min {
            let d = ErrorDetail::new("too_short", concat(kind, " is too short")).context("minimum", usize_text(min));
            let e = ValidationError::one(d);
            proof {
                assert(d@.location =~= Seq::<LocationStep>::empty());
                assert(d@.expected =~= Seq::<char>::empty());
                assert(d@.context =~= seq![("minimum"@, decimal(min as nat))]);
                assert(e@ =~= length_view(kind@, ("too_short"@, " is too short"@, "minimum"@, min)));
            }
            return Err(e);
        }
    }
    if let Some(max) = maximum {
        if length > max {
            let d = ErrorDetail::new("too_long", concat(kind, " is too long")).context("maximum", usize_text(max));
            let e = ValidationError::one(d);
            proof {
                assert(d@.location =~= Seq::<LocationStep>::empty());
                assert(d@.expected =~= Seq::<char>::empty());
                assert(d@.context =~= seq![("maximum"@, decimal(max as nat))]);
                assert(e@ =~= length_view(kind@, ("too_long"@, " is too long"@, "maximum"@, max)));
            }
            return Err(e);
        }
    }
    Ok(())
}

} // verus!
