use vstd::prelude::*;

use crate::arena::{Arena, ArenaError, ArenaId};
use crate::text::{clone_strings, concat, owned, usize_text};

verus! {

/// The deepest nesting that input building ever allows.
pub const HARD_MAX_DEPTH: usize = 256;

/// An index into an input arena.
pub type InputId = ArenaId;

#[derive(Clone, Copy, Debug, PartialEq, Eq, Structural)]
pub enum SequenceKind {
    JsonArray,
    List,
    Tuple,
    MutableSet,
    FrozenSet,
}

#[derive(Clone, Copy, Debug, PartialEq, Eq, Structural)]
pub enum ObjectKind {
    JsonObject,
    Object,
}

/// One input value. Floating-point numbers are held as their IEEE 754
/// bit patterns; aggregates refer to earlier values of the same arena.
#[derive(Debug)]
pub enum InputValue {
    Null,
    Bool(bool),
    Integer(String),
    Float(u64),
    Decimal(String),
    Complex { real: u64, imaginary: u64 },
    String(String),
    Bytes(Vec<u8>),
    Date(String),
    Time(String),
    DateTime(String),
    Duration(String),
    Uuid(String),
    Url(String),
    Pattern { source: String, flags: u8 },
    Fraction { numerator: String, denominator: String },
    Sequence { kind: SequenceKind, items: Vec<InputId> },
    Object { kind: ObjectKind, entries: Vec<(String, InputId)> },
    Mapping(Vec<(InputId, InputId)>),
}

/// An input value as plain values; references are arena positions.
pub enum InputNode {
    Null,
    Bool(bool),
    Integer(Seq<char>),
    Float(u64),
    Decimal(Seq<char>),
    Complex { real: u64, imaginary: u64 },
    String(Seq<char>),
    Bytes(Seq<u8>),
    Date(Seq<char>),
    Time(Seq<char>),
    DateTime(Seq<char>),
    Duration(Seq<char>),
    Uuid(Seq<char>),
    Url(Seq<char>),
    Pattern { source: Seq<char>, flags: u8 },
    Fraction { numerator: Seq<char>, denominator: Seq<char> },
    Sequence { kind: SequenceKind, items: Seq<nat> },
    Object { kind: ObjectKind, entries: Seq<(Seq<char>, nat)> },
    Mapping(Seq<(nat, nat)>),
}

impl View for InputValue {
    type V = InputNode;

    open spec fn view(&self) -> InputNode {
        match self {
            InputValue::Null => InputNode::Null,
            InputValue::Bool(b) => InputNode::Bool(*b),
            InputValue::Integer(s) => InputNode::Integer(s@),
            InputValue::Float(bits) => InputNode::Float(*bits),
            InputValue::Decimal(s) => InputNode::Decimal(s@),
            InputValue::Complex { real: re, imaginary: im } => InputNode::Complex { real: *re, imaginary: *im },
            InputValue::String(s) => InputNode::String(s@),
            InputValue::Bytes(b) => InputNode::Bytes(b@),
            InputValue::Date(s) => InputNode::Date(s@),
            InputValue::Time(s) => InputNode::Time(s@),
            InputValue::DateTime(s) => InputNode::DateTime(s@),
            InputValue::Duration(s) => InputNode::Duration(s@),
            InputValue::Uuid(s) => InputNode::Uuid(s@),
            InputValue::Url(s) => InputNode::Url(s@),
            InputValue::Pattern { source, flags } => InputNode::Pattern { source: source@, flags: *flags },
            InputValue::Fraction { numerator, denominator } => InputNode::Fraction {
                numerator: numerator@,
                denominator: denominator@,
            },
            InputValue::Sequence { kind, items } => InputNode::Sequence {
                kind: *kind,
                items: items@.map_values(|id: InputId| id@),
            },
            InputValue::Object { kind, entries } => InputNode::Object {
                kind: *kind,
                entries: entries@.map_values(|e: (String, InputId)| (e.0@, e.1@)),
            },
            InputValue::Mapping(entries) => InputNode::Mapping(
                entries@.map_values(|e: (InputId, InputId)| (e.0@, e.1@)),
            ),
        }
    }
}

/// Every position that a node refers to lies below `bound`.
pub open spec fn refs_below(node: InputNode, bound: nat) -> bool {
    match node {
        InputNode::Sequence { items, .. } => forall|i: int| 0 <= i < items.len() ==> #[trigger] items[i] < bound,
        InputNode::Object { entries, .. } => forall|i: int|
            0 <= i < entries.len() ==> (#[trigger] entries[i]).1 < bound,
        InputNode::Mapping(entries) => forall|i: int|
            0 <= i < entries.len() ==> (#[trigger] entries[i]).0 < bound && entries[i].1 < bound,
        _ => true,
    }
}

/// Every node refers only to nodes stored before it, so the arena holds no
/// cycle.
pub open spec fn refers_backwards(nodes: Seq<InputNode>) -> bool {
    forall|i: int| 0 <= i < nodes.len() ==> refs_below(#[trigger] nodes[i], i as nat)
}

/// An immutable arena of input values with a root.
#[derive(Debug)]
pub struct InputArena {
    root: InputId,
    values: Arena<InputValue>,
}

impl InputArena {
    #[verifier::type_invariant]
    closed spec fn inv(&self) -> bool {
        &&& self.root@ < self.values@.len()
        &&& refers_backwards(self.values@.map_values(|v: InputValue| v@))
    }

    /// The nodes, in arena order.
    pub closed spec fn spec_nodes(&self) -> Seq<InputNode> {
        self.values@.map_values(|v: InputValue| v@)
    }

    pub closed spec fn spec_root(&self) -> nat {
        self.root@
    }

    pub(crate) fn from_parts(root: InputId, values: Arena<InputValue>) -> (r: InputArena)
        requires
            root@ < values@.len(),
            refers_backwards(values@.map_values(|v: InputValue| v@)),
        ensures
            r.spec_root() == root@,
            r.spec_nodes() == values@.map_values(|v: InputValue| v@),
    {
        InputArena { root, values }
    }

    pub fn root(&self) -> (r: InputId)
        ensures
            r@ == self.spec_root(),
            r@ < self.spec_nodes().len(),
            refers_backwards(self.spec_nodes()),
    {
        proof {
            use_type_invariant(self);
        }
        self.root
    }

    pub fn get(&self, id: InputId) -> (r: Option<&InputValue>)
        ensures
            r matches Some(v) ==> id@ < self.spec_nodes().len() && v@ == self.spec_nodes()[id@ as int]
                && refs_below(v@, id@),
            r is None <==> id@ >= self.spec_nodes().len(),
            refers_backwards(self.spec_nodes()),
    {
        proof {
            use_type_invariant(self);
        }
        self.values.get(id)
    }

    pub fn len(&self) -> (r: usize)
        ensures
            r == self.spec_nodes().len(),
    {
        self.values.len()
    }

    pub fn is_empty(&self) -> (r: bool)
        ensures
            r == (self.spec_nodes().len() == 0),
    {
        self.values.is_empty()
    }
}

// ---------------------------------------------------------------------------
// Limits and errors
// ---------------------------------------------------------------------------

/// Resource limits for building an input arena.
#[derive(Clone, Copy, Debug, PartialEq, Eq, Structural)]
pub struct JsonLimits {
    pub max_input_bytes: usize,
    pub max_depth: usize,
    pub max_nodes: usize,
    pub max_string_bytes: usize,
    pub max_integer_digits: usize,
    pub max_collection_items: usize,
}

/// The default limits: 64 MiB of input and of string bytes, depth 128, a
/// million nodes and collection items, 4300 integer digits.
pub open spec fn default_json_limits() -> JsonLimits {
    JsonLimits {
        max_input_bytes: 67108864,
        max_depth: 128,
        max_nodes: 1_000_000,
        max_string_bytes: 67108864,
        max_integer_digits: 4_300,
        max_collection_items: 1_000_000,
    }
}

impl Default for JsonLimits {
    fn default() -> (r: JsonLimits)
        ensures
            r == default_json_limits(),
    {
        JsonLimits {
            max_input_bytes: 64 * 1024 * 1024,
            max_depth: 128,
            max_nodes: 1_000_000,
            max_string_bytes: 64 * 1024 * 1024,
            max_integer_digits: 4_300,
            max_collection_items: 1_000_000,
        }
    }
}

/// Limits that JSON parsing accepts.
pub open spec fn usable_json_limits(limits: JsonLimits) -> bool {
    &&& limits.max_input_bytes > 0
    &&& limits.max_depth > 0
    &&& limits.max_nodes > 0
    &&& limits.max_integer_digits > 0
    &&& limits.max_collection_items > 0
    &&& limits.max_string_bytes > 0
    &&& limits.max_depth <= HARD_MAX_DEPTH
}

/// Limits that native input building accepts; the input byte limit is not
/// used there.
pub open spec fn usable_native_limits(limits: JsonLimits) -> bool {
    &&& limits.max_depth > 0
    &&& limits.max_nodes > 0
    &&& limits.max_string_bytes > 0
    &&& limits.max_integer_digits > 0
    &&& limits.max_collection_items > 0
    &&& limits.max_depth <= HARD_MAX_DEPTH
}

/// A JSON input failure with its position.
#[derive(Debug)]
pub struct JsonInputError {
    pub code: &'static str,
    pub message: String,
    pub offset: usize,
    pub line: usize,
    pub column: usize,
    pub path: Vec<String>,
}

/// A JSON input failure as plain values.
pub struct JsonInputErrorView {
    pub code: Seq<char>,
    pub message: Seq<char>,
    pub offset: usize,
    pub line: usize,
    pub column: usize,
    pub path: Seq<Seq<char>>,
}

impl View for JsonInputError {
    type V = JsonInputErrorView;

    open spec fn view(&self) -> JsonInputErrorView {
        JsonInputErrorView {
            code: self.code@,
            message: self.message@,
            offset: self.offset,
            line: self.line,
            column: self.column,
            path: self.path@.map_values(|s: String| s@),
        }
    }
}

/// An `input_limit_exceeded` error at the start of the input.
pub open spec fn limit_error_view(message: Seq<char>, path: Seq<Seq<char>>) -> JsonInputErrorView {
    JsonInputErrorView {
        code: "input_limit_exceeded"@,
        message,
        offset: 0,
        line: 1,
        column: 1,
        path,
    }
}

impl JsonInputError {
    /// An `input_limit_exceeded` error with no path.
    pub fn limit(message: &str) -> (r: JsonInputError)
        ensures
            r@ == limit_error_view(message@, Seq::empty()),
    {
        let r = JsonInputError::at_limit(message, &Vec::new());
        assert(r@.path =~= Seq::<Seq<char>>::empty());
        r
    }

    /// An `input_limit_exceeded` error at the given path.
    pub fn at_limit(message: &str, path: &Vec<String>) -> (r: JsonInputError)
        ensures
            r@ == limit_error_view(message@, path@.map_values(|s: String| s@)),
    {
        JsonInputError {
            code: "input_limit_exceeded",
            message: owned(message),
            offset: 0,
            line: 1,
            column: 1,
            path: clone_strings(path),
        }
    }

    /// The limit error for an arena that ran out of compact indices.
    pub fn arena(error: ArenaError) -> (r: JsonInputError)
        ensures
            r@ == limit_error_view("arena capacity exceeds the compact index range"@, Seq::empty()),
    {
        JsonInputError::limit(error.message())
    }

    /// `message at line L column C`.
    pub fn text(&self) -> (r: String)
        ensures
            r@ == self.message@ + " at line "@ + crate::text::decimal(self.line as nat) + " column "@
                + crate::text::decimal(self.column as nat),
    {
        let mut out = concat(self.message.as_str(), " at line ");
        out.append(usize_text(self.line).as_str());
        out.append(" column ");
        out.append(usize_text(self.column).as_str());
        out
    }
}

/// Refuses JSON limits that are zero or too deep.
pub fn validate_limits(limits: JsonLimits) -> (r: Result<(), JsonInputError>)
    ensures
        usable_json_limits(limits) <==> r is Ok,
        r matches Err(e) ==> e@ == limit_error_view("limits must be greater than zero"@, Seq::empty()),
{
    if limits.max_input_bytes == 0 || limits.max_depth == 0 || limits.max_nodes == 0
        || limits.max_integer_digits == 0 || limits.max_collection_items == 0
        || limits.max_string_bytes == 0 || limits.max_depth > HARD_MAX_DEPTH {
        return Err(JsonInputError::limit("limits must be greater than zero"));
    }
    Ok(())
}

/// A native input failure.
#[derive(Clone, Copy, Debug, PartialEq, Eq)]
pub enum NativeInputError {
    Limit(&'static str),
    Arena(ArenaError),
    Projection(&'static str),
}

/// The human-readable description of a native input failure.
pub open spec fn native_error_text(error: NativeInputError) -> Seq<char> {
    match error {
        NativeInputError::Limit(kind) => "native input limit exceeded: "@ + kind@,
        NativeInputError::Arena(_) => "arena capacity exceeds the compact index range"@,
        NativeInputError::Projection(e) => "structural input is invalid: "@ + e@,
    }
}

impl NativeInputError {
    /// The human-readable description of the error.
    pub fn text(&self) -> (r: String)
        ensures
            r@ == native_error_text(*self),
            match *self {
                NativeInputError::Limit(kind) => r@ == "native input limit exceeded: "@ + kind@,
                NativeInputError::Arena(_) => r@ == "arena capacity exceeds the compact index range"@,
                NativeInputError::Projection(e) => r@ == "structural input is invalid: "@ + e@,
            },
    {
        match self {
            NativeInputError::Limit(kind) => concat("native input limit exceeded: ", kind),
            NativeInputError::Arena(e) => owned(e.message()),
            NativeInputError::Projection(e) => concat("structural input is invalid: ", e),
        }
    }
}

/// Refuses native limits that are zero or too deep.
pub fn validate_native_limits(limits: JsonLimits) -> (r: Result<(), NativeInputError>)
    ensures
        usable_native_limits(limits) <==> r is Ok,
        r matches Err(e) ==> e == NativeInputError::Limit("limits must be greater than zero"),
{
    if limits.max_depth == 0 || limits.max_nodes == 0 || limits.max_string_bytes == 0
        || limits.max_integer_digits == 0 || limits.max_collection_items == 0
        || limits.max_depth > HARD_MAX_DEPTH {
        Err(NativeInputError::Limit("limits must be greater than zero"))
    } else {
        Ok(())
    }
}

// ---------------------------------------------------------------------------
// Canonical ordering ranks
// ---------------------------------------------------------------------------

/// The rank of a value's variant in the canonical input order.
pub open spec fn spec_input_rank(node: InputNode) -> u8 {
    match node {
        InputNode::Null => 0,
        InputNode::Bool(_) => 1,
        InputNode::Integer(_) => 2,
        InputNode::Float(_) => 3,
        InputNode::String(_) => 4,
        InputNode::Bytes(_) => 5,
        InputNode::Sequence { .. } => 6,
        InputNode::Object { .. } => 7,
        InputNode::Mapping(_) => 8,
        _ => 9,
    }
}

pub fn input_rank(value: &InputValue) -> (r: u8)
    ensures
        r == spec_input_rank(value@),
{
    match value {
        InputValue::Null => 0,
        InputValue::Bool(_) => 1,
        InputValue::Integer(_) => 2,
        InputValue::Float(_) => 3,
        InputValue::String(_) => 4,
        InputValue::Bytes(_) => 5,
        InputValue::Sequence { .. } => 6,
        InputValue::Object { .. } => 7,
        InputValue::Mapping(_) => 8,
        _ => 9,
    }
}

pub fn sequence_rank(kind: SequenceKind) -> (r: u8)
    ensures
        r == match kind {
            SequenceKind::JsonArray => 0u8,
            SequenceKind::List => 1u8,
            SequenceKind::Tuple => 2u8,
            SequenceKind::MutableSet => 3u8,
            SequenceKind::FrozenSet => 4u8,
        },
{
    match kind {
        SequenceKind::JsonArray => 0,
        SequenceKind::List => 1,
        SequenceKind::Tuple => 2,
        SequenceKind::MutableSet => 3,
        SequenceKind::FrozenSet => 4,
    }
}

pub fn object_rank(kind: ObjectKind) -> (r: u8)
    ensures
        r == match kind {
            ObjectKind::JsonObject => 0u8,
            ObjectKind::Object => 1u8,
        },
{
    match kind {
        ObjectKind::JsonObject => 0,
        ObjectKind::Object => 1,
    }
}

// ---------------------------------------------------------------------------
// Integer digit pre-scan
// ---------------------------------------------------------------------------

pub open spec fn is_digit(b: u8) -> bool {
    48 <= b && b <= 57
}

/// The first position at or after `k` that does not hold an ASCII digit.
pub open spec fn digits_end(data: Seq<u8>, k: int) -> int
    decreases data.len() - k,
{
    if k < 0 || k >= data.len() || !is_digit(data[k]) {
        k
    } else {
        digits_end(data, k + 1)
    }
}

proof fn lemma_digits_end(data: Seq<u8>, k: int)
    requires
        0 <= k <= data.len(),
    ensures
        k <= digits_end(data, k) <= data.len(),
        forall|m: int| k <= m < digits_end(data, k) ==> is_digit(data[m]),
        digits_end(data, k) < data.len() ==> !is_digit(data[digits_end(data, k)]),
    decreases data.len() - k,
{
    if k < data.len() && is_digit(data[k]) {
        lemma_digits_end(data, k + 1);
    }
}

/// The position where the first integer literal outside JSON strings has
/// more than `limit` digits, scanning from `index` in the given string
/// state; `None` when there is none.
pub open spec fn integer_overflow_at(data: Seq<u8>, index: int, in_string: bool, escaped: bool, limit: nat) -> Option<int>
    decreases data.len() - index,
{
    if index < 0 || index >= data.len() {
        None
    } else {
        let byte = data[index];
        if in_string {
            if escaped {
                integer_overflow_at(data, index + 1, true, false, limit)
            } else if byte == 92 {
                integer_overflow_at(data, index + 1, true, true, limit)
            } else if byte == 34 {
                integer_overflow_at(data, index + 1, false, false, limit)
            } else {
                integer_overflow_at(data, index + 1, true, false, limit)
            }
        } else if byte == 34 {
            integer_overflow_at(data, index + 1, true, false, limit)
        } else {
            let start = if byte == 45 { index + 1 } else { index };
            if start < data.len() && is_digit(data[start]) {
                let end = digits_end(data, start);
                let is_integer = !(end < data.len() && (data[end] == 46 || data[end] == 101 || data[end] == 69));
                if is_integer && end - start > limit {
                    Some(index)
                } else if end <= index || end > data.len() {
                    None
                } else {
                    integer_overflow_at(data, end, false, false, limit)
                }
            } else {
                integer_overflow_at(data, index + 1, false, false, limit)
            }
        }
    }
}

/// The error for an integer literal with too many digits at `index`.
pub open spec fn integer_limit_error(index: usize, limit: usize) -> JsonInputErrorView {
    JsonInputErrorView {
        code: "json_integer_limit"@,
        message: "integer digit limit exceeded: "@ + crate::text::decimal(limit as nat),
        offset: index,
        line: 1,
        column: (index + 1) as usize,
        path: Seq::empty(),
    }
}

/// Refuses JSON whose integer literals (outside strings) have more than
/// `limit` digits, before the document is parsed.
pub fn validate_integer_digits(data: &[u8], limit: usize) -> (r: Result<(), JsonInputError>)
    ensures
        match integer_overflow_at(data@, 0, false, false, limit as nat) {
            Some(index) => r matches Err(e) && e@ == integer_limit_error(index as usize, limit),
            None => r is Ok,
        },
{
    let ghost d = data@;
    let mut index: usize = 0;
    let mut in_string = false;
    let mut escaped = false;
    while index < data.len()
        invariant
            d == data@,
            index <= d.len(),
            !in_string ==> !escaped,
            integer_overflow_at(d, 0, false, false, limit as nat) == integer_overflow_at(
                d,
                index as int,
                in_string,
                escaped,
                limit as nat,
            ),
        decreases d.len() - index,
    {
        let byte = data[index];
        if in_string {
            if escaped {
                escaped = false;
            } else if byte == 92 {
                escaped = true;
            } else if byte == 34 {
                in_string = false;
            }
            index = index + 1;
            continue;
        }
        if byte == 34 {
            in_string = true;
            index = index + 1;
            continue;
        }
        let start = if byte == 45 { index + 1 } else { index };
        if start < data.len() && data[start] >= 48 && data[start] <= 57 {
            let mut end = start;
            while end < data.len() && data[end] >= 48 && data[end] <= 57
                invariant
                    d == data@,
                    start <= end <= d.len(),
                    digits_end(d, start as int) == digits_end(d, end as int),
                decreases d.len() - end,
            {
                end = end + 1;
            }
            proof {
                lemma_digits_end(d, start as int);
            }
            let is_integer = !(end < data.len() && (data[end] == 46 || data[end] == 101 || data[end] == 69));
            if is_integer && end - start > limit {
                let column = index + 1;
                let mut message = owned("integer digit limit exceeded: ");
                message.append(usize_text(limit).as_str());
                let e = JsonInputError {
                    code: "json_integer_limit",
                    message,
                    offset: index,
                    line: 1,
                    column,
                    path: Vec::new(),
                };
                assert(e@.path =~= Seq::<Seq<char>>::empty());
                return Err(e);
            }
            index = end;
            continue;
        }
        index = index + 1;
    }
    Ok(())
}

} // verus!
