use vstd::prelude::*;

use crate::arena::Arena;
use crate::input::{
    integer_limit_error, integer_overflow_at, limit_error_view, refers_backwards, refs_below, usable_json_limits,
    validate_integer_digits, validate_limits, InputArena, InputId, InputNode, InputValue, JsonInputError,
    JsonInputErrorView, JsonLimits, ObjectKind, SequenceKind,
};
use crate::text::{concat, decimal, i64_text, signed_decimal, str_equal, usize_text, utf8_bytes};

verus! {

#[verifier::external_type_specification]
#[verifier::external_body]
pub struct ExJsonValue<'s>(jiter::JsonValue<'s>);

/// A parsed JSON document as plain values. Integers that fit an `i64` are
/// held as such and larger ones as their decimal text; floating-point
/// numbers are held as their IEEE 754 bit patterns.
#[derive(Debug)]
pub enum JsonTree {
    Null,
    Bool(bool),
    Int(i64),
    BigInt(String),
    Float(u64),
    Str(String),
    Array(Vec<JsonTree>),
    Object(Vec<(String, JsonTree)>),
}

/// A syntax error of the JSON parser: its description and the byte index
/// where it was found.
#[derive(Debug)]
pub struct JsonSyntaxError {
    pub message: String,
    pub index: usize,
}

/// What `jiter::JsonValue::parse(data, false)` gives for `data`, with the
/// value converted variant by variant into a `JsonTree` and an error into
/// its description and index.
pub uninterp spec fn jiter_parse(data: Seq<u8>) -> Result<JsonTree, JsonSyntaxError>;

/// Parses one complete JSON document with `jiter::JsonValue::parse`, not
/// allowing `Infinity` or `NaN`. Trusted: the result is taken to be a
/// function of the bytes alone, named `jiter_parse`; nothing more is stated
/// of what jiter accepts.
#[verifier::external_body]
fn parse_document(data: &[u8]) -> (r: Result<JsonTree, JsonSyntaxError>)
    ensures
        r == jiter_parse(data@),
{
    match jiter::JsonValue::parse(data, false) {
        Ok(value) => Ok(JsonTree::from_jiter(&value)),
        Err(error) => Err(JsonSyntaxError { message: error.error_type.to_string(), index: error.index }),
    }
}

impl JsonTree {
    /// Converts a jiter value variant by variant: a big integer into its
    /// decimal text, a float into its bits, shared arrays and objects into
    /// owned ones in the same order.
    #[verifier::external_body]
    fn from_jiter(value: &jiter::JsonValue<'_>) -> JsonTree {
        match value {
            jiter::JsonValue::Null => JsonTree::Null,
            jiter::JsonValue::Bool(b) => JsonTree::Bool(*b),
            jiter::JsonValue::Int(i) => JsonTree::Int(*i),
            jiter::JsonValue::BigInt(b) => JsonTree::BigInt(b.to_string()),
            jiter::JsonValue::Float(f) => JsonTree::Float(f.to_bits()),
            jiter::JsonValue::Str(s) => JsonTree::Str(s.to_string()),
            jiter::JsonValue::Array(items) => JsonTree::Array(items.iter().map(JsonTree::from_jiter).collect()),
            jiter::JsonValue::Object(entries) => JsonTree::Object(
                entries.iter().map(|(k, v)| (k.to_string(), JsonTree::from_jiter(v))).collect(),
            ),
        }
    }
}

// ---------------------------------------------------------------------------
// Error positions
// ---------------------------------------------------------------------------

/// Scans `data` from `index` for the line and column of byte `find`, the
/// way `jiter::LinePosition::find` counts them: lines from one, a newline
/// belongs to the line it ends but restarts the column count, and a
/// position past the end gets the column after the last byte. The line
/// count saturates at `usize::MAX`.
pub open spec fn position_scan(data: Seq<u8>, find: int, index: int, line: nat, last: nat) -> (nat, nat)
    decreases data.len() - index,
{
    if index < 0 || index >= data.len() {
        (line, if index >= last { (index - last) as nat } else { 0 })
    } else {
        let newline = data[index] == 10;
        let line2 = if newline && line < usize::MAX { line + 1 } else { line };
        let last2 = if newline { (index + 1) as nat } else { last };
        if index == find {
            (line2, (index + 1 - last2) as nat)
        } else {
            position_scan(data, find, index + 1, line2, last2)
        }
    }
}

/// The line and column of byte `find` in `data`.
pub open spec fn line_position(data: Seq<u8>, find: int) -> (nat, nat) {
    position_scan(data, find, 0, 1, 0)
}

/// The line and column of byte `find` in `data`, counted from one.
pub fn find_line_position(data: &[u8], find: usize) -> (r: (usize, usize))
    ensures
        (r.0 as nat, r.1 as nat) == line_position(data@, find as int),
{
    let mut line: usize = 1;
    let mut last: usize = 0;
    let mut index: usize = 0;
    while index < data.len()
        invariant
            index <= data@.len(),
            last <= index,
            1 <= line,
            line_position(data@, find as int) == position_scan(data@, find as int, index as int, line as nat, last as nat),
        decreases data@.len() - index,
    {
        if data[index] == 10 {
            if line < usize::MAX {
                line = line + 1;
            }
            last = index + 1;
        }
        if index == find {
            return (line, index + 1 - last);
        }
        index = index + 1;
    }
    (line, index - last)
}

/// The `json_invalid` error for a syntax error found at a byte index.
pub open spec fn syntax_error_view(data: Seq<u8>, error: JsonSyntaxError) -> JsonInputErrorView {
    let (line, column) = line_position(data, error.index as int);
    JsonInputErrorView {
        code: "json_invalid"@,
        message: error.message@,
        offset: error.index,
        line: line as usize,
        column: column as usize,
        path: Seq::empty(),
    }
}

/// Turns a parser's syntax error into a `json_invalid` input error with its
/// line and column in `data`.
pub fn json_syntax_error(data: &[u8], error: JsonSyntaxError) -> (r: JsonInputError)
    ensures
        r@ == syntax_error_view(data@, error),
{
    let (line, column) = find_line_position(data, error.index);
    let r = JsonInputError {
        code: "json_invalid",
        message: error.message,
        offset: error.index,
        line,
        column,
        path: Vec::new(),
    };
    assert(r@.path =~= Seq::<Seq<char>>::empty());
    r
}

// ---------------------------------------------------------------------------
// The builder model
// ---------------------------------------------------------------------------

/// The nodes built so far and the string bytes counted so far.
pub struct JsonBuildState {
    pub nodes: Seq<InputNode>,
    pub bytes: nat,
}

/// A path of keys and indices as plain values.
pub open spec fn path_of(path: Seq<String>) -> Seq<Seq<char>> {
    path.map_values(|s: String| s@)
}

/// Counts string bytes against the limit.
pub open spec fn json_add_bytes(st: JsonBuildState, amount: nat, limits: JsonLimits, path: Seq<Seq<char>>) -> Result<
    JsonBuildState,
    JsonInputErrorView,
> {
    let total = st.bytes + amount;
    if total > usize::MAX || total > limits.max_string_bytes {
        Err(limit_error_view("total string bytes"@, path))
    } else {
        Ok(JsonBuildState { nodes: st.nodes, bytes: total })
    }
}

/// Stores a node and gives its position.
pub open spec fn json_store(st: JsonBuildState, node: InputNode) -> Result<(JsonBuildState, nat), JsonInputErrorView> {
    if st.nodes.len() > u32::MAX {
        Err(limit_error_view("arena capacity exceeds the compact index range"@, Seq::empty()))
    } else {
        Ok((JsonBuildState { nodes: st.nodes.push(node), bytes: st.bytes }, st.nodes.len()))
    }
}

/// The error for a key that occurs twice in one object.
pub open spec fn duplicate_key_view(key: Seq<char>, path: Seq<Seq<char>>) -> JsonInputErrorView {
    JsonInputErrorView {
        code: "json_invalid"@,
        message: "duplicate object key `"@ + key + "`"@,
        offset: 0,
        line: 1,
        column: 1,
        path,
    }
}

/// Building `v` at `depth` and `path`: children first, each aggregate after
/// its children, in document order.
pub open spec fn spec_json_push(
    v: JsonTree,
    depth: nat,
    st: JsonBuildState,
    limits: JsonLimits,
    path: Seq<Seq<char>>,
) -> Result<(JsonBuildState, nat), JsonInputErrorView>
    decreases v, 2nat,
{
    if depth > limits.max_depth {
        Err(limit_error_view("maximum depth"@, path))
    } else if st.nodes.len() >= limits.max_nodes {
        Err(limit_error_view("maximum node count"@, path))
    } else {
        match v {
            JsonTree::Null => json_store(st, InputNode::Null),
            JsonTree::Bool(b) => json_store(st, InputNode::Bool(b)),
            JsonTree::Int(i) => json_store(st, InputNode::Integer(signed_decimal(i as int))),
            JsonTree::BigInt(s) => json_store(st, InputNode::Integer(s@)),
            JsonTree::Float(bits) => json_store(st, InputNode::Float(bits)),
            JsonTree::Str(s) => match json_add_bytes(st, utf8_bytes(s@).len(), limits, path) {
                Err(e) => Err(e),
                Ok(st2) => json_store(st2, InputNode::String(s@)),
            },
            JsonTree::Array(items) => if items.len() > limits.max_collection_items {
                Err(limit_error_view("maximum collection items"@, path))
            } else {
                match spec_json_items(items@, depth + 1, st, limits, path) {
                    Err(e) => Err(e),
                    Ok((st2, ids)) => json_store(st2, InputNode::Sequence { kind: SequenceKind::JsonArray, items: ids }),
                }
            },
            JsonTree::Object(entries) => if entries.len() > limits.max_collection_items {
                Err(limit_error_view("maximum collection items"@, path))
            } else {
                match spec_json_entries(entries@, depth + 1, st, limits, path) {
                    Err(e) => Err(e),
                    Ok((st2, built)) => json_store(
                        st2,
                        InputNode::Object { kind: ObjectKind::JsonObject, entries: built },
                    ),
                }
            },
        }
    }
}

/// Builds array items in order; each item's path ends in its index.
pub open spec fn spec_json_items(
    items: Seq<JsonTree>,
    depth: nat,
    st: JsonBuildState,
    limits: JsonLimits,
    path: Seq<Seq<char>>,
) -> Result<(JsonBuildState, Seq<nat>), JsonInputErrorView>
    decreases items, 0nat,
{
    if items.len() == 0 {
        Ok((st, Seq::empty()))
    } else {
        match spec_json_items(items.drop_last(), depth, st, limits, path) {
            Err(e) => Err(e),
            Ok((st1, ids)) => match spec_json_push(
                items.last(),
                depth,
                st1,
                limits,
                path.push(decimal((items.len() - 1) as nat)),
            ) {
                Err(e) => Err(e),
                Ok((st2, id)) => Ok((st2, ids.push(id))),
            },
        }
    }
}

/// One object entry after `earlier` ones: a repeated key is refused, the
/// key's bytes are counted, then the value is built at the key's path.
pub open spec fn json_entry_step(
    earlier: Seq<(String, JsonTree)>,
    entry: (String, JsonTree),
    depth: nat,
    st: JsonBuildState,
    limits: JsonLimits,
    path: Seq<Seq<char>>,
) -> Result<(JsonBuildState, (Seq<char>, nat)), JsonInputErrorView>
    decreases entry, 0nat,
{
    if exists|j: int| 0 <= j < earlier.len() && (#[trigger] earlier[j]).0@ == entry.0@ {
        Err(duplicate_key_view(entry.0@, path))
    } else {
        match json_add_bytes(st, utf8_bytes(entry.0@).len(), limits, path) {
            Err(e) => Err(e),
            Ok(st2) => match spec_json_push(entry.1, depth, st2, limits, path.push(entry.0@)) {
                Err(e) => Err(e),
                Ok((st3, id)) => Ok((st3, (entry.0@, id))),
            },
        }
    }
}

/// Builds object entries in order.
pub open spec fn spec_json_entries(
    entries: Seq<(String, JsonTree)>,
    depth: nat,
    st: JsonBuildState,
    limits: JsonLimits,
    path: Seq<Seq<char>>,
) -> Result<(JsonBuildState, Seq<(Seq<char>, nat)>), JsonInputErrorView>
    decreases entries, 0nat,
{
    if entries.len() == 0 {
        Ok((st, Seq::empty()))
    } else {
        match spec_json_entries(entries.drop_last(), depth, st, limits, path) {
            Err(e) => Err(e),
            Ok((st1, built)) => match json_entry_step(entries.drop_last(), entries.last(), depth, st1, limits, path) {
                Err(e) => Err(e),
                Ok((st2, entry)) => Ok((st2, built.push(entry))),
            },
        }
    }
}

/// The arena that `build_json_input` builds from a parsed document, as its
/// root and nodes, or the error it stops with.
pub open spec fn spec_build_json(tree: JsonTree, limits: JsonLimits) -> Result<(nat, Seq<InputNode>), JsonInputErrorView> {
    if !usable_json_limits(limits) {
        Err(limit_error_view("limits must be greater than zero"@, Seq::empty()))
    } else {
        match spec_json_push(tree, 0, JsonBuildState { nodes: Seq::empty(), bytes: 0 }, limits, Seq::empty()) {
            Err(e) => Err(e),
            Ok((st, root)) => Ok((root, st.nodes)),
        }
    }
}

/// What `parse_json` gives for a document: limits are checked, then the
/// input size, then integer literals, then the parser runs and its
/// document is built.
pub open spec fn spec_parse_json(data: Seq<u8>, limits: JsonLimits) -> Result<(nat, Seq<InputNode>), JsonInputErrorView> {
    if !usable_json_limits(limits) {
        Err(limit_error_view("limits must be greater than zero"@, Seq::empty()))
    } else if data.len() > limits.max_input_bytes {
        Err(limit_error_view("maximum input bytes"@, Seq::empty()))
    } else {
        match integer_overflow_at(data, 0, false, false, limits.max_integer_digits as nat) {
            Some(index) => Err(integer_limit_error(index as usize, limits.max_integer_digits)),
            None => match jiter_parse(data) {
                Err(e) => Err(syntax_error_view(data, e)),
                Ok(tree) => spec_build_json(tree, limits),
            },
        }
    }
}

// ---------------------------------------------------------------------------
// Laws of the JSON builder
// ---------------------------------------------------------------------------

/// No two entries of an object share a key.
pub open spec fn distinct_keys(entries: Seq<(Seq<char>, nat)>) -> bool {
    forall|i: int, j: int| 0 <= i < j < entries.len() ==> (#[trigger] entries[i]).0 != (#[trigger] entries[j]).0
}

/// Every object node holds distinct keys.
pub open spec fn objects_have_distinct_keys(nodes: Seq<InputNode>) -> bool {
    forall|i: int|
        0 <= i < nodes.len() ==> (#[trigger] nodes[i] matches InputNode::Object { entries, .. } ==> distinct_keys(
            entries,
        ))
}

/// What a successful build step keeps: the nodes stored before stay in
/// place, and objects keep distinct keys.
pub open spec fn extends(before: JsonBuildState, after: JsonBuildState) -> bool {
    &&& before.nodes.len() <= after.nodes.len()
    &&& after.nodes.take(before.nodes.len() as int) == before.nodes
    &&& objects_have_distinct_keys(before.nodes) ==> objects_have_distinct_keys(after.nodes)
}

proof fn lemma_extends_trans(a: JsonBuildState, b: JsonBuildState, c: JsonBuildState)
    requires
        extends(a, b),
        extends(b, c),
    ensures
        extends(a, c),
{
    assert(c.nodes.take(a.nodes.len() as int) =~= c.nodes.take(b.nodes.len() as int).take(a.nodes.len() as int));
}

proof fn lemma_store(st: JsonBuildState, node: InputNode)
    requires
        json_store(st, node) is Ok,
        node matches InputNode::Object { entries, .. } ==> distinct_keys(entries),
    ensures
        extends(st, json_store(st, node)->Ok_0.0),
        json_store(st, node)->Ok_0.1 + 1 == json_store(st, node)->Ok_0.0.nodes.len(),
        json_store(st, node)->Ok_0.0.nodes.last() == node,
{
    let after = json_store(st, node)->Ok_0.0;
    assert(after.nodes.take(st.nodes.len() as int) =~= st.nodes);
    if objects_have_distinct_keys(st.nodes) {
        assert forall|i: int| 0 <= i < after.nodes.len() implies (#[trigger] after.nodes[i] matches InputNode::Object {
            entries,
            ..
        } ==> distinct_keys(entries)) by {
            if i < st.nodes.len() {
                assert(after.nodes[i] == st.nodes[i]);
            }
        }
    }
}

proof fn lemma_json_push(v: JsonTree, depth: nat, st: JsonBuildState, limits: JsonLimits, path: Seq<Seq<char>>)
    requires
        spec_json_push(v, depth, st, limits, path) is Ok,
    ensures
        extends(st, spec_json_push(v, depth, st, limits, path)->Ok_0.0),
        spec_json_push(v, depth, st, limits, path)->Ok_0.1 + 1 == spec_json_push(
            v,
            depth,
            st,
            limits,
            path,
        )->Ok_0.0.nodes.len(),
    decreases v, 2nat,
{
    match v {
        JsonTree::Str(s) => {
            let st2 = json_add_bytes(st, utf8_bytes(s@).len(), limits, path)->Ok_0;
            lemma_store(st2, InputNode::String(s@));
            assert(st2.nodes =~= st.nodes);
        },
        JsonTree::Array(items) => {
            let (st2, ids) = spec_json_items(items@, depth + 1, st, limits, path)->Ok_0;
            lemma_json_items(items@, depth + 1, st, limits, path);
            lemma_store(st2, InputNode::Sequence { kind: SequenceKind::JsonArray, items: ids });
            lemma_extends_trans(st, st2, spec_json_push(v, depth, st, limits, path)->Ok_0.0);
        },
        JsonTree::Object(entries) => {
            let (st2, built) = spec_json_entries(entries@, depth + 1, st, limits, path)->Ok_0;
            lemma_json_entries(entries@, depth + 1, st, limits, path);
            lemma_store(st2, InputNode::Object { kind: ObjectKind::JsonObject, entries: built });
            lemma_extends_trans(st, st2, spec_json_push(v, depth, st, limits, path)->Ok_0.0);
        },
        JsonTree::Null => {
            lemma_store(st, InputNode::Null);
        },
        JsonTree::Bool(b) => {
            lemma_store(st, InputNode::Bool(b));
        },
        JsonTree::Int(i) => {
            lemma_store(st, InputNode::Integer(signed_decimal(i as int)));
        },
        JsonTree::BigInt(s) => {
            lemma_store(st, InputNode::Integer(s@));
        },
        JsonTree::Float(bits) => {
            lemma_store(st, InputNode::Float(bits));
        },
    }
}

proof fn lemma_json_items(items: Seq<JsonTree>, depth: nat, st: JsonBuildState, limits: JsonLimits, path: Seq<Seq<char>>)
    requires
        spec_json_items(items, depth, st, limits, path) is Ok,
    ensures
        extends(st, spec_json_items(items, depth, st, limits, path)->Ok_0.0),
    decreases items, 0nat,
{
    if items.len() > 0 {
        let (st1, ids) = spec_json_items(items.drop_last(), depth, st, limits, path)->Ok_0;
        lemma_json_items(items.drop_last(), depth, st, limits, path);
        let child_path = path.push(decimal((items.len() - 1) as nat));
        lemma_json_push(items.last(), depth, st1, limits, child_path);
        lemma_extends_trans(st, st1, spec_json_push(items.last(), depth, st1, limits, child_path)->Ok_0.0);
    } else {
        assert(st.nodes.take(st.nodes.len() as int) =~= st.nodes);
    }
}

proof fn lemma_json_entry_step(
    earlier: Seq<(String, JsonTree)>,
    entry: (String, JsonTree),
    depth: nat,
    st: JsonBuildState,
    limits: JsonLimits,
    path: Seq<Seq<char>>,
)
    requires
        json_entry_step(earlier, entry, depth, st, limits, path) is Ok,
    ensures
        extends(st, json_entry_step(earlier, entry, depth, st, limits, path)->Ok_0.0),
        json_entry_step(earlier, entry, depth, st, limits, path)->Ok_0.1.0 == entry.0@,
        forall|j: int| 0 <= j < earlier.len() ==> (#[trigger] earlier[j]).0@ != entry.0@,
    decreases entry, 0nat,
{
    let st2 = json_add_bytes(st, utf8_bytes(entry.0@).len(), limits, path)->Ok_0;
    assert(st2.nodes =~= st.nodes);
    assert(st.nodes.take(st.nodes.len() as int) =~= st.nodes);
    lemma_json_push(entry.1, depth, st2, limits, path.push(entry.0@));
}

proof fn lemma_json_entries(
    entries: Seq<(String, JsonTree)>,
    depth: nat,
    st: JsonBuildState,
    limits: JsonLimits,
    path: Seq<Seq<char>>,
)
    requires
        spec_json_entries(entries, depth, st, limits, path) is Ok,
    ensures
        extends(st, spec_json_entries(entries, depth, st, limits, path)->Ok_0.0),
        spec_json_entries(entries, depth, st, limits, path)->Ok_0.1.len() == entries.len(),
        forall|i: int|
            0 <= i < entries.len() ==> (#[trigger] spec_json_entries(entries, depth, st, limits, path)->Ok_0.1[i]).0
                == entries[i].0@,
        distinct_keys(spec_json_entries(entries, depth, st, limits, path)->Ok_0.1),
    decreases entries, 0nat,
{
    if entries.len() > 0 {
        let front = entries.drop_last();
        let (st1, built) = spec_json_entries(front, depth, st, limits, path)->Ok_0;
        lemma_json_entries(front, depth, st, limits, path);
        lemma_json_entry_step(front, entries.last(), depth, st1, limits, path);
        let (st3, entry) = json_entry_step(front, entries.last(), depth, st1, limits, path)->Ok_0;
        lemma_extends_trans(st, st1, st3);
        let all = built.push(entry);
        assert forall|i: int| 0 <= i < entries.len() implies (#[trigger] all[i]).0 == entries[i].0@ by {
            if i < front.len() {
                assert(front[i] == entries[i]);
            }
        }
        assert forall|i: int, j: int| 0 <= i < j < all.len() implies (#[trigger] all[i]).0 != (#[trigger] all[j]).0 by {
            if j == all.len() - 1 {
                assert(front[i] == entries[i]);
                assert(front[i].0@ != entries.last().0@);
            } else {
                assert(built[i] == all[i]);
                assert(built[j] == all[j]);
            }
        }
    } else {
        assert(st.nodes.take(st.nodes.len() as int) =~= st.nodes);
    }
}

/// A JSON document builds children first: the root is the last value
/// stored, and no object of the built arena holds a key twice, since a
/// repeated key is refused.
pub proof fn law_json_root_last_and_keys_distinct(tree: JsonTree, limits: JsonLimits)
    requires
        spec_build_json(tree, limits) is Ok,
    ensures
        spec_build_json(tree, limits)->Ok_0.0 + 1 == spec_build_json(tree, limits)->Ok_0.1.len(),
        objects_have_distinct_keys(spec_build_json(tree, limits)->Ok_0.1),
{
    let st = JsonBuildState { nodes: Seq::empty(), bytes: 0 };
    lemma_json_push(tree, 0, st, limits, Seq::empty());
}

/// Parsing gives the same arena as building the parser's document, so the
/// laws of the builder hold of every parsed arena.
pub proof fn law_parse_builds_the_parsed_document(data: Seq<u8>, limits: JsonLimits)
    requires
        spec_parse_json(data, limits) is Ok,
    ensures
        jiter_parse(data) is Ok,
        spec_parse_json(data, limits) == spec_build_json(jiter_parse(data)->Ok_0, limits),
        spec_parse_json(data, limits)->Ok_0.0 + 1 == spec_parse_json(data, limits)->Ok_0.1.len(),
        objects_have_distinct_keys(spec_parse_json(data, limits)->Ok_0.1),
{
    law_json_root_last_and_keys_distinct(jiter_parse(data)->Ok_0, limits);
}

// ---------------------------------------------------------------------------
// The builder
// ---------------------------------------------------------------------------

struct JsonBuilder {
    values: Arena<InputValue>,
    limits: JsonLimits,
    string_bytes: usize,
}

/// Whether a key equal to the `i`-th entry's key occurs before it.
fn key_seen(entries: &Vec<(String, JsonTree)>, i: usize) -> (r: bool)
    requires
        i < entries@.len(),
    ensures
        r == exists|j: int| 0 <= j < i && (#[trigger] entries@[j]).0@ == entries@[i as int].0@,
{
    let key = entries[i].0.as_str();
    let mut j: usize = 0;
    while j < i
        invariant
            j <= i < entries@.len(),
            key@ == entries@[i as int].0@,
            forall|k: int| 0 <= k < j ==> (#[trigger] entries@[k]).0@ != entries@[i as int].0@,
        decreases i - j,
    {
        if str_equal(entries[j].0.as_str(), key) {
            return true;
        }
        j = j + 1;
    }
    false
}

/// The `json_invalid` error for a repeated object key.
fn duplicate_key(key: &str, path: &Vec<String>) -> (r: JsonInputError)
    ensures
        r@ == duplicate_key_view(key@, path_of(path@)),
{
    let mut message = concat("duplicate object key `", key);
    message.append("`");
    JsonInputError {
        code: "json_invalid",
        message,
        offset: 0,
        line: 1,
        column: 1,
        path: crate::text::clone_strings(path),
    }
}

impl JsonBuilder {
    spec fn state(&self) -> JsonBuildState {
        JsonBuildState { nodes: self.values@.map_values(|v: InputValue| v@), bytes: self.string_bytes as nat }
    }

    spec fn sound(&self) -> bool {
        &&& refers_backwards(self.state().nodes)
        &&& self.limits.max_depth <= crate::input::HARD_MAX_DEPTH
    }

    fn add_string_bytes(&mut self, amount: usize, path: &Vec<String>) -> (r: Result<(), JsonInputError>)
        ensures
            match json_add_bytes(old(self).state(), amount as nat, old(self).limits, path_of(path@)) {
                Err(e) => r matches Err(x) && x@ == e,
                Ok(st) => r is Ok && final(self).state() == st,
            },
            final(self).values@ == old(self).values@,
            final(self).limits == old(self).limits,
    {
        match self.string_bytes.checked_add(amount) {
            None => Err(JsonInputError::at_limit("total string bytes", path)),
            Some(total) => {
                if total > self.limits.max_string_bytes {
                    return Err(JsonInputError::at_limit("total string bytes", path));
                }
                self.string_bytes = total;
                Ok(())
            },
        }
    }

    fn store(&mut self, value: InputValue) -> (r: Result<InputId, JsonInputError>)
        requires
            refs_below(value@, old(self).values@.len()),
            old(self).sound(),
        ensures
            match json_store(old(self).state(), value@) {
                Err(e) => r matches Err(x) && x@ == e,
                Ok((st, id)) => r matches Ok(x) && x@ == id && final(self).state() == st,
            },
            final(self).limits == old(self).limits,
            final(self).sound(),
            final(self).values@.len() >= old(self).values@.len(),
            r matches Ok(x) ==> x@ < final(self).values@.len(),
    {
        let ghost before = self.values@;
        let r = self.values.push(value);
        match r {
            Ok(id) => {
                proof {
                    let nodes = self.values@.map_values(|v: InputValue| v@);
                    assert(nodes =~= before.map_values(|v: InputValue| v@).push(value@));
                    assert forall|i: int| 0 <= i < nodes.len() implies refs_below(#[trigger] nodes[i], i as nat) by {
                        if i < before.len() {
                            assert(nodes[i] == before.map_values(|v: InputValue| v@)[i]);
                        }
                    }
                }
                Ok(id)
            },
            Err(e) => Err(JsonInputError::arena(e)),
        }
    }

    fn push_value(&mut self, value: &JsonTree, depth: usize, path: &mut Vec<String>) -> (r: Result<
        InputId,
        JsonInputError,
    >)
        requires
            old(self).sound(),
            depth <= old(self).limits.max_depth + 1,
        ensures
            match spec_json_push(*value, depth as nat, old(self).state(), old(self).limits, path_of(old(path)@)) {
                Err(e) => r matches Err(x) && x@ == e,
                Ok((st, id)) => r matches Ok(x) && x@ == id && final(self).state() == st && final(path)@
                    == old(path)@,
            },
            final(self).limits == old(self).limits,
            final(self).sound(),
            r matches Ok(x) ==> x@ < final(self).values@.len(),
            final(self).values@.len() >= old(self).values@.len(),
        decreases value, 2nat,
    {
        if depth > self.limits.max_depth {
            return Err(JsonInputError::at_limit("maximum depth", path));
        }
        if self.values.len() >= self.limits.max_nodes {
            return Err(JsonInputError::at_limit("maximum node count", path));
        }
        match value {
            JsonTree::Null => self.store(InputValue::Null),
            JsonTree::Bool(b) => self.store(InputValue::Bool(*b)),
            JsonTree::Int(i) => self.store(InputValue::Integer(i64_text(*i))),
            JsonTree::BigInt(s) => self.store(InputValue::Integer(s.clone())),
            JsonTree::Float(bits) => self.store(InputValue::Float(*bits)),
            JsonTree::Str(s) => {
                self.add_string_bytes(s.as_str().as_bytes().len(), path)?;
                self.store(InputValue::String(s.clone()))
            },
            JsonTree::Array(items) => self.push_array(items, depth, path),
            JsonTree::Object(entries) => self.push_object(entries, depth, path),
        }
    }

    fn push_item(&mut self, items: &Vec<JsonTree>, i: usize, depth: usize, path: &mut Vec<String>) -> (r: Result<
        InputId,
        JsonInputError,
    >)
        requires
            old(self).sound(),
            depth <= old(self).limits.max_depth + 1,
            i < items@.len(),
        ensures
            match spec_json_push(
                items@[i as int],
                depth as nat,
                old(self).state(),
                old(self).limits,
                path_of(old(path)@).push(decimal(i as nat)),
            ) {
                Err(e) => r matches Err(x) && x@ == e,
                Ok((st, id)) => r matches Ok(x) && x@ == id && final(self).state() == st && final(path)@
                    == old(path)@,
            },
            final(self).limits == old(self).limits,
            final(self).sound(),
            r matches Ok(x) ==> x@ < final(self).values@.len(),
            final(self).values@.len() >= old(self).values@.len(),
        decreases items@, 1nat,
    {
        let ghost before = path@;
        path.push(usize_text(i));
        assert(path_of(path@) =~= path_of(before).push(decimal(i as nat)));
        let child = self.push_value(&items[i], depth, path)?;
        path.pop();
        assert(path@ =~= before);
        Ok(child)
    }

    fn push_array(&mut self, items: &Vec<JsonTree>, depth: usize, path: &mut Vec<String>) -> (r: Result<
        InputId,
        JsonInputError,
    >)
        requires
            old(self).sound(),
            depth <= old(self).limits.max_depth,
            old(self).values@.len() < old(self).limits.max_nodes,
        ensures
            match spec_json_push(
                JsonTree::Array(*items),
                depth as nat,
                old(self).state(),
                old(self).limits,
                path_of(old(path)@),
            ) {
                Err(e) => r matches Err(x) && x@ == e,
                Ok((st, id)) => r matches Ok(x) && x@ == id && final(self).state() == st && final(path)@
                    == old(path)@,
            },
            final(self).limits == old(self).limits,
            final(self).sound(),
            r matches Ok(x) ==> x@ < final(self).values@.len(),
            final(self).values@.len() >= old(self).values@.len(),
        decreases items@, 2nat,
    {
        if items.len() > self.limits.max_collection_items {
            return Err(JsonInputError::at_limit("maximum collection items", path));
        }
        let ghost st0 = self.state();
        let ghost p0 = path@;
        let mut ids: Vec<InputId> = Vec::new();
        let mut i: usize = 0;
        assert(items@.take(0) =~= Seq::<JsonTree>::empty());
        assert(ids@.map_values(|id: InputId| id@) =~= Seq::<nat>::empty());
        while i < items.len()
            invariant
                i <= items@.len(),
                items@.len() <= self.limits.max_collection_items,
                self.sound(),
                self.limits == old(self).limits,
                depth <= self.limits.max_depth,
                st0 == old(self).state(),
                st0.nodes.len() < self.limits.max_nodes,
                p0 == old(path)@,
                path@ == p0,
                spec_json_items(items@.take(i as int), depth as nat + 1, st0, self.limits, path_of(p0))
                    == Ok::<(JsonBuildState, Seq<nat>), JsonInputErrorView>(
                    (self.state(), ids@.map_values(|id: InputId| id@)),
                ),
                forall|j: int| 0 <= j < ids@.len() ==> (#[trigger] ids@[j])@ < self.values@.len(),
                self.values@.len() >= old(self).values@.len(),
            decreases items@.len() - i,
        {
            let ghost next = items@.take(i + 1);
            assert(next.drop_last() =~= items@.take(i as int));
            assert(next.last() == items@[i as int]);
            assert(next.len() - 1 == i);
            let ghost st_i = self.state();
            let child = match self.push_item(items, i, depth + 1, path) {
                Ok(child) => child,
                Err(e) => {
                    proof {
                        assert(spec_json_push(
                            items@[i as int],
                            depth as nat + 1,
                            st_i,
                            self.limits,
                            path_of(p0).push(decimal(i as nat)),
                        ) == Err::<(JsonBuildState, nat), JsonInputErrorView>(e@));
                        assert(spec_json_items(next, depth as nat + 1, st0, self.limits, path_of(p0)) == Err::<
                            (JsonBuildState, Seq<nat>),
                            JsonInputErrorView,
                        >(e@));
                        lemma_items_error(items@, i as int, depth as nat + 1, st0, self.limits, path_of(p0));
                    }
                    return Err(e);
                },
            };
            let ghost before = ids@;
            ids.push(child);
            proof {
                assert(ids@.map_values(|id: InputId| id@) =~= before.map_values(|id: InputId| id@).push(child@));
            }
            i = i + 1;
        }
        proof {
            assert(items@.take(items@.len() as int) =~= items@);
        }
        self.store(InputValue::Sequence { kind: SequenceKind::JsonArray, items: ids })
    }

    fn push_entry(
        &mut self,
        entries: &Vec<(String, JsonTree)>,
        i: usize,
        depth: usize,
        path: &mut Vec<String>,
    ) -> (r: Result<InputId, JsonInputError>)
        requires
            old(self).sound(),
            depth <= old(self).limits.max_depth + 1,
            i < entries@.len(),
        ensures
            match json_entry_step(
                entries@.take(i as int),
                entries@[i as int],
                depth as nat,
                old(self).state(),
                old(self).limits,
                path_of(old(path)@),
            ) {
                Err(e) => r matches Err(x) && x@ == e,
                Ok((st, built)) => r matches Ok(x) && x@ == built.1 && final(self).state() == st && final(path)@
                    == old(path)@,
            },
            final(self).limits == old(self).limits,
            final(self).sound(),
            r matches Ok(x) ==> x@ < final(self).values@.len(),
            final(self).values@.len() >= old(self).values@.len(),
        decreases entries@, 1nat,
    {
        let ghost earlier = entries@.take(i as int);
        let key = entries[i].0.as_str();
        if key_seen(entries, i) {
            proof {
                let j = choose|j: int| 0 <= j < i && (#[trigger] entries@[j]).0@ == entries@[i as int].0@;
                assert(earlier[j] == entries@[j]);
            }
            return Err(duplicate_key(key, path));
        }
        proof {
            assert forall|j: int| 0 <= j < earlier.len() implies (#[trigger] earlier[j]).0@ != entries@[i as int].0@ by {
                assert(earlier[j] == entries@[j]);
            }
        }
        self.add_string_bytes(key.as_bytes().len(), path)?;
        let ghost before = path@;
        path.push(entries[i].0.clone());
        assert(path_of(path@) =~= path_of(before).push(entries@[i as int].0@));
        let child = self.push_value(&entries[i].1, depth, path)?;
        path.pop();
        assert(path@ =~= before);
        Ok(child)
    }

    #[verifier::rlimit(40)]
    fn push_object(&mut self, entries: &Vec<(String, JsonTree)>, depth: usize, path: &mut Vec<String>) -> (r: Result<
        InputId,
        JsonInputError,
    >)
        requires
            old(self).sound(),
            depth <= old(self).limits.max_depth,
            old(self).values@.len() < old(self).limits.max_nodes,
        ensures
            match spec_json_push(
                JsonTree::Object(*entries),
                depth as nat,
                old(self).state(),
                old(self).limits,
                path_of(old(path)@),
            ) {
                Err(e) => r matches Err(x) && x@ == e,
                Ok((st, id)) => r matches Ok(x) && x@ == id && final(self).state() == st && final(path)@
                    == old(path)@,
            },
            final(self).limits == old(self).limits,
            final(self).sound(),
            r matches Ok(x) ==> x@ < final(self).values@.len(),
            final(self).values@.len() >= old(self).values@.len(),
        decreases entries@, 2nat,
    {
        if entries.len() > self.limits.max_collection_items {
            return Err(JsonInputError::at_limit("maximum collection items", path));
        }
        let ghost st0 = self.state();
        let ghost p0 = path@;
        let mut built: Vec<(String, InputId)> = Vec::new();
        let mut i: usize = 0;
        assert(entries@.take(0) =~= Seq::<(String, JsonTree)>::empty());
        assert(built@.map_values(|e: (String, InputId)| (e.0@, e.1@)) =~= Seq::<(Seq<char>, nat)>::empty());
        while i < entries.len()
            invariant
                i <= entries@.len(),
                entries@.len() <= self.limits.max_collection_items,
                self.sound(),
                self.limits == old(self).limits,
                depth <= self.limits.max_depth,
                st0 == old(self).state(),
                st0.nodes.len() < self.limits.max_nodes,
                p0 == old(path)@,
                path@ == p0,
                spec_json_entries(entries@.take(i as int), depth as nat + 1, st0, self.limits, path_of(p0))
                    == Ok::<(JsonBuildState, Seq<(Seq<char>, nat)>), JsonInputErrorView>(
                    (self.state(), built@.map_values(|e: (String, InputId)| (e.0@, e.1@))),
                ),
                forall|j: int| 0 <= j < built@.len() ==> (#[trigger] built@[j]).1@ < self.values@.len(),
                self.values@.len() >= old(self).values@.len(),
            decreases entries@.len() - i,
        {
            let ghost next = entries@.take(i + 1);
            assert(next.drop_last() =~= entries@.take(i as int));
            assert(next.last() == entries@[i as int]);
            let ghost st_i = self.state();
            let child = match self.push_entry(entries, i, depth + 1, path) {
                Ok(child) => child,
                Err(e) => {
                    proof {
                        assert(json_entry_step(
                            entries@.take(i as int),
                            entries@[i as int],
                            depth as nat + 1,
                            st_i,
                            self.limits,
                            path_of(p0),
                        ) == Err::<(JsonBuildState, (Seq<char>, nat)), JsonInputErrorView>(e@));
                        assert(spec_json_entries(next, depth as nat + 1, st0, self.limits, path_of(p0)) == Err::<
                            (JsonBuildState, Seq<(Seq<char>, nat)>),
                            JsonInputErrorView,
                        >(e@));
                        lemma_entries_error(entries@, i as int, depth as nat + 1, st0, self.limits, path_of(p0));
                    }
                    return Err(e);
                },
            };
            let ghost before = built@;
            built.push((entries[i].0.clone(), child));
            proof {
                assert(built@.map_values(|e: (String, InputId)| (e.0@, e.1@)) =~= before.map_values(
                    |e: (String, InputId)| (e.0@, e.1@),
                ).push((entries@[i as int].0@, child@)));
            }
            i = i + 1;
        }
        proof {
            assert(entries@.take(entries@.len() as int) =~= entries@);
        }
        self.store(InputValue::Object { kind: ObjectKind::JsonObject, entries: built })
    }
}

proof fn lemma_items_error(
    items: Seq<JsonTree>,
    i: int,
    depth: nat,
    st: JsonBuildState,
    limits: JsonLimits,
    path: Seq<Seq<char>>,
)
    requires
        0 <= i < items.len(),
        spec_json_items(items.take(i + 1), depth, st, limits, path) is Err,
    ensures
        spec_json_items(items, depth, st, limits, path) == spec_json_items(items.take(i + 1), depth, st, limits, path),
    decreases items.len() - i,
{
    if i + 1 == items.len() {
        assert(items.take(i + 1) =~= items);
    } else {
        assert(items.take(i + 2).drop_last() =~= items.take(i + 1));
        lemma_items_error(items, i + 1, depth, st, limits, path);
    }
}

proof fn lemma_entries_error(
    entries: Seq<(String, JsonTree)>,
    i: int,
    depth: nat,
    st: JsonBuildState,
    limits: JsonLimits,
    path: Seq<Seq<char>>,
)
    requires
        0 <= i < entries.len(),
        spec_json_entries(entries.take(i + 1), depth, st, limits, path) is Err,
    ensures
        spec_json_entries(entries, depth, st, limits, path) == spec_json_entries(
            entries.take(i + 1),
            depth,
            st,
            limits,
            path,
        ),
    decreases entries.len() - i,
{
    if i + 1 == entries.len() {
        assert(entries.take(i + 1) =~= entries);
    } else {
        assert(entries.take(i + 2).drop_last() =~= entries.take(i + 1));
        lemma_entries_error(entries, i + 1, depth, st, limits, path);
    }
}

/// Builds a checked input arena from a parsed JSON document: values are
/// stored children first, a key repeated within one object is refused, and
/// every limit is checked before it could be exceeded.
pub fn build_json_input(tree: &JsonTree, limits: JsonLimits) -> (r: Result<InputArena, JsonInputError>)
    ensures
        match spec_build_json(*tree, limits) {
            Err(e) => r matches Err(x) && x@ == e,
            Ok((root, nodes)) => r matches Ok(a) && a.spec_root() == root && a.spec_nodes() == nodes,
        },
{
    validate_limits(limits)?;
    let mut builder = JsonBuilder { values: Arena::new(), limits, string_bytes: 0 };
    let mut path: Vec<String> = Vec::new();
    proof {
        assert(builder.state().nodes =~= Seq::<InputNode>::empty());
        assert(path_of(path@) =~= Seq::<Seq<char>>::empty());
    }
    let root = builder.push_value(tree, 0, &mut path)?;
    Ok(InputArena::from_parts(root, builder.values))
}

/// Parses one complete JSON document into a checked input arena. Limits are
/// checked first, then the input size, then integer literals, before the
/// parser runs; a syntax error is reported with its line and column.
pub fn parse_json(data: &[u8], limits: JsonLimits) -> (r: Result<InputArena, JsonInputError>)
    ensures
        match spec_parse_json(data@, limits) {
            Err(e) => r matches Err(x) && x@ == e,
            Ok((root, nodes)) => r matches Ok(a) && a.spec_root() == root && a.spec_nodes() == nodes,
        },
{
    validate_limits(limits)?;
    if data.len() > limits.max_input_bytes {
        return Err(JsonInputError::limit("maximum input bytes"));
    }
    validate_integer_digits(data, limits.max_integer_digits)?;
    match parse_document(data) {
        Err(error) => Err(json_syntax_error(data, error)),
        Ok(tree) => build_json_input(&tree, limits),
    }
}

} // verus!
