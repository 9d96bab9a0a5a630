use vstd::prelude::*;

use crate::text::{owned, str_equal, utf8_bytes};

verus! {

/// One of the error codes that the backend itself reports.
#[derive(Clone, Copy, Debug)]
pub struct BuiltInError {
    pub code: &'static str,
    pub message: &'static str,
    pub context: &'static [&'static str],
}

/// The message and context keys of a built-in code, or `None` for a code
/// that is not built in.
pub open spec fn spec_built_in(code: Seq<char>) -> Option<(Seq<char>, Seq<Seq<char>>)> {
    if code == "json_invalid"@ {
        Some(("Invalid JSON: {error}"@, seq!["error"@]))
    } else if code == "schema_invalid"@ {
        Some(("Invalid schema: {error}"@, seq!["error"@]))
    } else if code == "input_limit_exceeded"@ {
        Some(("Input limit exceeded: {limit}"@, seq!["limit"@]))
    } else if code == "internal_program_load"@ {
        Some(("Schema program could not be loaded"@, Seq::<Seq<char>>::empty()))
    } else {
        None
    }
}

impl BuiltInError {
    /// The message and the context keys, as character sequences.
    pub open spec fn spec_entry(&self) -> (Seq<char>, Seq<Seq<char>>) {
        (self.message@, self.context@.map_values(|key: &'static str| key@))
    }
}

/// A caller-declared error message for one error code.
#[derive(Clone, Debug)]
pub struct ErrorOverride {
    pub code: String,
    pub message: String,
    pub context_keys: Vec<String>,
}

impl View for ErrorOverride {
    /// Code, message and context keys.
    type V = (Seq<char>, Seq<char>, Seq<Seq<char>>);

    open spec fn view(&self) -> (Seq<char>, Seq<char>, Seq<Seq<char>>) {
        (self.code@, self.message@, self.context_keys@.map_values(|key: String| key@))
    }
}

/// The faults that a registry reports; each carries the offending code.
#[derive(Clone, Copy, Debug, PartialEq, Eq, Structural)]
pub enum RegistryFault {
    InvalidCode,
    CustomCodeNeedsPackage,
    InvalidMessage,
    DuplicateContextKey,
    ContextMismatch,
    DuplicateCode,
    BuiltInCollision,
    UnknownCode,
    ConflictingDeclaration,
}

#[derive(Clone, Debug)]
pub enum RegistryError {
    InvalidCode(String),
    CustomCodeNeedsPackage(String),
    InvalidMessage(String),
    DuplicateContextKey(String),
    ContextMismatch(String),
    DuplicateCode(String),
    BuiltInCollision(String),
    UnknownCode(String),
    ConflictingDeclaration(String),
}

impl View for RegistryError {
    type V = (RegistryFault, Seq<char>);

    open spec fn view(&self) -> (RegistryFault, Seq<char>) {
        match self {
            RegistryError::InvalidCode(c) => (RegistryFault::InvalidCode, c@),
            RegistryError::CustomCodeNeedsPackage(c) => (RegistryFault::CustomCodeNeedsPackage, c@),
            RegistryError::InvalidMessage(c) => (RegistryFault::InvalidMessage, c@),
            RegistryError::DuplicateContextKey(c) => (RegistryFault::DuplicateContextKey, c@),
            RegistryError::ContextMismatch(c) => (RegistryFault::ContextMismatch, c@),
            RegistryError::DuplicateCode(c) => (RegistryFault::DuplicateCode, c@),
            RegistryError::BuiltInCollision(c) => (RegistryFault::BuiltInCollision, c@),
            RegistryError::UnknownCode(c) => (RegistryFault::UnknownCode, c@),
            RegistryError::ConflictingDeclaration(c) => (RegistryFault::ConflictingDeclaration, c@),
        }
    }
}

fn registry_error(fault: RegistryFault, code: &str) -> (r: RegistryError)
    ensures
        r@ == (fault, code@),
{
    let code = owned(code);
    match fault {
        RegistryFault::InvalidCode => RegistryError::InvalidCode(code),
        RegistryFault::CustomCodeNeedsPackage => RegistryError::CustomCodeNeedsPackage(code),
        RegistryFault::InvalidMessage => RegistryError::InvalidMessage(code),
        RegistryFault::DuplicateContextKey => RegistryError::DuplicateContextKey(code),
        RegistryFault::ContextMismatch => RegistryError::ContextMismatch(code),
        RegistryFault::DuplicateCode => RegistryError::DuplicateCode(code),
        RegistryFault::BuiltInCollision => RegistryError::BuiltInCollision(code),
        RegistryFault::UnknownCode => RegistryError::UnknownCode(code),
        RegistryFault::ConflictingDeclaration => RegistryError::ConflictingDeclaration(code),
    }
}

impl RegistryError {
    /// The human-readable description of the error.
    pub fn message(&self) -> (r: String)
        ensures
            r@ == registry_error_text(self@.0, self@.1),
    {
        let (prefix, code, suffix) = match self {
            RegistryError::InvalidCode(c) => ("invalid error code `", c, "`"),
            RegistryError::CustomCodeNeedsPackage(c) => ("custom error code `", c, "` is not package-qualified"),
            RegistryError::InvalidMessage(c) => ("invalid message for error code `", c, "`"),
            RegistryError::DuplicateContextKey(c) => ("duplicate context key for error code `", c, "`"),
            RegistryError::ContextMismatch(c) => ("message context does not match error code `", c, "`"),
            RegistryError::DuplicateCode(c) => ("duplicate error code `", c, "`"),
            RegistryError::BuiltInCollision(c) => ("error override changes built-in code `", c, "`"),
            RegistryError::UnknownCode(c) => ("unknown error code `", c, "`"),
            RegistryError::ConflictingDeclaration(c) => ("conflicting declaration for error code `", c, "`"),
        };
        let mut text = owned(prefix);
        text.append(code.as_str());
        text.append(suffix);
        text
    }
}

/// The text of a registry error.
pub open spec fn registry_error_text(fault: RegistryFault, code: Seq<char>) -> Seq<char> {
    match fault {
        RegistryFault::InvalidCode => "invalid error code `"@ + code + "`"@,
        RegistryFault::CustomCodeNeedsPackage => "custom error code `"@ + code + "` is not package-qualified"@,
        RegistryFault::InvalidMessage => "invalid message for error code `"@ + code + "`"@,
        RegistryFault::DuplicateContextKey => "duplicate context key for error code `"@ + code + "`"@,
        RegistryFault::ContextMismatch => "message context does not match error code `"@ + code + "`"@,
        RegistryFault::DuplicateCode => "duplicate error code `"@ + code + "`"@,
        RegistryFault::BuiltInCollision => "error override changes built-in code `"@ + code + "`"@,
        RegistryFault::UnknownCode => "unknown error code `"@ + code + "`"@,
        RegistryFault::ConflictingDeclaration => "conflicting declaration for error code `"@ + code + "`"@,
    }
}

// ---------------------------------------------------------------------------
// Codes
// ---------------------------------------------------------------------------

/// A byte allowed inside a code segment or a placeholder key: a lowercase
/// ASCII letter, an ASCII digit or `_`.
pub open spec fn is_key_byte(b: u8) -> bool {
    (97 <= b && b <= 122) || (48 <= b && b <= 57) || b == 95
}

/// `.`-separated nonempty segments of key bytes.
pub open spec fn is_dotted_segments(b: Seq<u8>) -> bool {
    &&& b.len() > 0
    &&& forall|i: int| 0 <= i < b.len() ==> b[i] == 46 || is_key_byte(#[trigger] b[i])
    &&& b[0] != 46
    &&& b[b.len() - 1] != 46
    &&& forall|i: int| 0 <= i < b.len() - 1 ==> !(#[trigger] b[i] == 46 && b[i + 1] == 46)
}

/// Whether a code names one of the built-in errors.
pub open spec fn is_built_in_code(code: Seq<char>) -> bool {
    spec_built_in(code) is Some
}

/// The fault that `validate_code` reports for a code, if any.
pub open spec fn spec_code_fault(code: Seq<char>) -> Option<RegistryFault> {
    let b = utf8_bytes(code);
    if b.len() == 0 || b.len() > 96 || !is_dotted_segments(b) {
        Some(RegistryFault::InvalidCode)
    } else if !b.contains(46) && !is_built_in_code(code) {
        Some(RegistryFault::CustomCodeNeedsPackage)
    } else {
        None
    }
}

fn is_key_byte_exec(b: u8) -> (r: bool)
    ensures
        r == is_key_byte(b),
{
    (97 <= b && b <= 122) || (48 <= b && b <= 57) || b == 95
}

fn is_built_in_code_exec(code: &str) -> (r: bool)
    ensures
        r == is_built_in_code(code@),
{
    str_equal(code, "json_invalid") || str_equal(code, "schema_invalid") || str_equal(
        code,
        "input_limit_exceeded",
    ) || str_equal(code, "internal_program_load")
}

fn dotted_segments(b: &[u8]) -> (r: bool)
    requires
        b@.len() > 0,
    ensures
        r == is_dotted_segments(b@),
{
    let n = b.len();
    if b[0] == 46 || b[n - 1] == 46 {
        return false;
    }
    let mut i: usize = 0;
    while i < n
        invariant
            n == b@.len(),
            i <= n,
            b@[0] != 46,
            b@[n - 1] != 46,
            forall|j: int| 0 <= j < i ==> b@[j] == 46 || is_key_byte(#[trigger] b@[j]),
            forall|j: int| 0 <= j < i && j < n - 1 ==> !(#[trigger] b@[j] == 46 && b@[j + 1] == 46),
        decreases n - i,
    {
        if !(b[i] == 46 || is_key_byte_exec(b[i])) {
            return false;
        }
        if i + 1 < n && b[i] == 46 && b[i + 1] == 46 {
            return false;
        }
        i = i + 1;
    }
    true
}

fn contains_byte(b: &[u8], x: u8) -> (r: bool)
    ensures
        r == b@.contains(x),
{
    let mut i: usize = 0;
    while i < b.len()
        invariant
            i <= b@.len(),
            forall|j: int| 0 <= j < i ==> b@[j] != x,
        decreases b@.len() - i,
    {
        if b[i] == x {
            return true;
        }
        i = i + 1;
    }
    false
}

/// Checks the shape of an error code.
pub fn validate_code(code: &str) -> (r: Result<(), RegistryError>)
    ensures
        match spec_code_fault(code@) {
            Some(fault) => r matches Err(e) && e@ == (fault, code@),
            None => r is Ok,
        },
{
    let bytes = code.as_bytes();
    if bytes.len() == 0 || bytes.len() > 96 || !dotted_segments(bytes) {
        return Err(registry_error(RegistryFault::InvalidCode, code));
    }
    if !contains_byte(bytes, 46) && !is_built_in_code_exec(code) {
        return Err(registry_error(RegistryFault::CustomCodeNeedsPackage, code));
    }
    Ok(())
}

// ---------------------------------------------------------------------------
// Placeholders
// ---------------------------------------------------------------------------

/// The first position at or after `j` that holds `}`.
pub open spec fn close_from(b: Seq<u8>, j: int) -> Option<int>
    decreases b.len() - j,
{
    if j < 0 || j >= b.len() {
        None
    } else if b[j] == 125 {
        Some(j)
    } else {
        close_from(b, j + 1)
    }
}

/// Every byte is a key byte.
pub open spec fn all_key_bytes(key: Seq<u8>) -> bool {
    forall|i: int| 0 <= i < key.len() ==> is_key_byte(#[trigger] key[i])
}

/// The set of `{key}` placeholders in `b` from position `i` on, or `None`
/// when the message is malformed: an unclosed `{`, a stray `}`, or an empty
/// or non-key placeholder.
pub open spec fn placeholders_from(b: Seq<u8>, i: int) -> Option<Set<Seq<u8>>>
    decreases b.len() - i,
{
    if i < 0 || i >= b.len() {
        Some(Set::empty())
    } else if b[i] == 123 {
        match close_from(b, i + 1) {
            None => None,
            Some(end) => {
                if end <= i || end >= b.len() {
                    None
                } else {
                    let key = b.subrange(i + 1, end);
                    if key.len() == 0 || !all_key_bytes(key) {
                        None
                    } else {
                        match placeholders_from(b, end + 1) {
                            None => None,
                            Some(rest) => Some(rest.insert(key)),
                        }
                    }
                }
            },
        }
    } else if b[i] == 125 {
        None
    } else {
        placeholders_from(b, i + 1)
    }
}

/// The placeholders of a message.
pub open spec fn spec_placeholders(message: Seq<char>) -> Option<Set<Seq<u8>>> {
    placeholders_from(utf8_bytes(message), 0)
}

proof fn lemma_close_from_bounds(b: Seq<u8>, j: int)
    ensures
        close_from(b, j) matches Some(k) ==> j <= k < b.len() && b[k] == 125 && forall|m: int|
            j <= m < k ==> b[m] != 125,
        close_from(b, j) is None ==> forall|m: int| 0 <= j <= m < b.len() ==> b[m] != 125,
    decreases b.len() - j,
{
    if 0 <= j < b.len() && b[j] != 125 {
        lemma_close_from_bounds(b, j + 1);
    }
}

fn find_close(b: &[u8], start: usize) -> (r: Option<usize>)
    requires
        start <= b@.len(),
    ensures
        r matches Some(k) ==> close_from(b@, start as int) == Some(k as int),
        r is None ==> close_from(b@, start as int) is None,
{
    let mut k = start;
    while k < b.len()
        invariant
            start <= k <= b@.len(),
            close_from(b@, start as int) == close_from(b@, k as int),
        decreases b@.len() - k,
    {
        if b[k] == 125 {
            return Some(k);
        }
        k = k + 1;
    }
    None
}

fn copy_range(b: &[u8], from: usize, to: usize) -> (r: Vec<u8>)
    requires
        from <= to <= b@.len(),
    ensures
        r@ == b@.subrange(from as int, to as int),
{
    let mut out: Vec<u8> = Vec::new();
    let mut k = from;
    while k < to
        invariant
            from <= k <= to <= b@.len(),
            out@ == b@.subrange(from as int, k as int),
        decreases to - k,
    {
        out.push(b[k]);
        k = k + 1;
        assert(out@ =~= b@.subrange(from as int, k as int));
    }
    out
}

fn all_key_bytes_exec(key: &[u8]) -> (r: bool)
    ensures
        r == all_key_bytes(key@),
{
    let mut i: usize = 0;
    while i < key.len()
        invariant
            i <= key@.len(),
            forall|j: int| 0 <= j < i ==> is_key_byte(#[trigger] key@[j]),
        decreases key@.len() - i,
    {
        if !is_key_byte_exec(key[i]) {
            return false;
        }
        i = i + 1;
    }
    true
}

/// The bytes equal as sequences.
pub(crate) fn bytes_equal(left: &[u8], right: &[u8]) -> (r: bool)
    ensures
        r == (left@ == right@),
{
    if left.len() != right.len() {
        return false;
    }
    let mut i: usize = 0;
    while i < left.len()
        invariant
            i <= left@.len(),
            left@.len() == right@.len(),
            forall|j: int| 0 <= j < i ==> left@[j] == right@[j],
        decreases left@.len() - i,
    {
        if left[i] != right[i] {
            return false;
        }
        i = i + 1;
    }
    assert(left@ =~= right@);
    true
}

/// The byte strings, as a set.
pub open spec fn key_set(keys: Seq<Vec<u8>>) -> Set<Seq<u8>> {
    Set::new(|k: Seq<u8>| exists|i: int| 0 <= i < keys.len() && keys[i]@ == k)
}

fn contains_key(keys: &Vec<Vec<u8>>, key: &[u8]) -> (r: bool)
    ensures
        r == key_set(keys@).contains(key@),
{
    let mut i: usize = 0;
    while i < keys.len()
        invariant
            i <= keys@.len(),
            forall|j: int| 0 <= j < i ==> keys@[j]@ != key@,
        decreases keys@.len() - i,
    {
        if bytes_equal(keys[i].as_slice(), key) {
            assert(key_set(keys@).contains(key@));
            return true;
        }
        i = i + 1;
    }
    false
}

/// Collects the `{key}` placeholders of a message, or refuses a malformed
/// message.
fn placeholders(message: &str) -> (r: Result<Vec<Vec<u8>>, ()>)
    ensures
        match spec_placeholders(message@) {
            Some(set) => r matches Ok(keys) && key_set(keys@) == set,
            None => r is Err,
        },
{
    let bytes = message.as_bytes();
    let ghost b = bytes@;
    assert(b == utf8_bytes(message@));
    let mut keys: Vec<Vec<u8>> = Vec::new();
    let mut index: usize = 0;
    while index < bytes.len()
        invariant
            b == bytes@,
            b == utf8_bytes(message@),
            index <= b.len(),
            placeholders_from(b, 0) == match placeholders_from(b, index as int) {
                Some(rest) => Some(rest.union(key_set(keys@))),
                None => None::<Set<Seq<u8>>>,
            },
        decreases b.len() - index,
    {
        if bytes[index] == 123 {
            let start = index + 1;
            let found = find_close(bytes, start);
            proof {
                lemma_close_from_bounds(b, start as int);
            }
            match found {
                None => {
                    assert(placeholders_from(b, index as int) is None);
                    return Err(());
                },
                Some(end) => {
                    let key = copy_range(bytes, start, end);
                    if key.len() == 0 || !all_key_bytes_exec(key.as_slice()) {
                        assert(placeholders_from(b, index as int) is None);
                        return Err(());
                    }
                    let ghost before = keys@;
                    let ghost k = key@;
                    keys.push(key);
                    proof {
                        assert(key_set(keys@) =~= key_set(before).insert(k)) by {
                            assert forall|x: Seq<u8>| key_set(keys@).contains(x) implies key_set(before).insert(k).contains(x) by {
                                let i = choose|i: int| 0 <= i < keys@.len() && keys@[i]@ == x;
                                if i < before.len() {
                                    assert(before[i]@ == x);
                                }
                            }
                            assert forall|x: Seq<u8>| key_set(before).insert(k).contains(x) implies key_set(keys@).contains(x) by {
                                if x == k {
                                    assert(keys@[before.len() as int]@ == x);
                                } else {
                                    let i = choose|i: int| 0 <= i < before.len() && before[i]@ == x;
                                    assert(keys@[i]@ == x);
                                }
                            }
                        }
                        match placeholders_from(b, end + 1) {
                            Some(rest) => {
                                assert(rest.insert(k).union(key_set(before)) =~= rest.union(key_set(keys@)));
                            },
                            None => {},
                        }
                    }
                    index = end + 1;
                },
            }
        } else if bytes[index] == 125 {
            assert(placeholders_from(b, index as int) is None);
            return Err(());
        } else {
            index = index + 1;
        }
    }
    proof {
        assert(Set::<Seq<u8>>::empty().union(key_set(keys@)) =~= key_set(keys@));
    }
    Ok(keys)
}

// ---------------------------------------------------------------------------
// Declarations
// ---------------------------------------------------------------------------

/// Two positions of the sequence hold equal keys.
pub open spec fn has_duplicate(keys: Seq<Seq<char>>) -> bool {
    exists|i: int, j: int| 0 <= i < j < keys.len() && keys[i] == keys[j]
}

/// The UTF-8 bytes of the declared context keys, as a set.
pub open spec fn declared_key_bytes(keys: Seq<Seq<char>>) -> Set<Seq<u8>> {
    Set::new(|k: Seq<u8>| exists|i: int| 0 <= i < keys.len() && utf8_bytes(keys[i]) == k)
}

/// The fault that `validate_declaration` reports, if any; checks run in this
/// order.
pub open spec fn spec_declaration_fault(d: (Seq<char>, Seq<char>, Seq<Seq<char>>)) -> Option<RegistryFault> {
    let (code, message, keys) = d;
    let message_len = utf8_bytes(message).len();
    if spec_code_fault(code) is Some {
        spec_code_fault(code)
    } else if message.len() == 0 || message_len > 512 {
        Some(RegistryFault::InvalidMessage)
    } else if has_duplicate(keys) {
        Some(RegistryFault::DuplicateContextKey)
    } else if spec_placeholders(message) is None {
        Some(RegistryFault::InvalidMessage)
    } else if spec_placeholders(message).unwrap() != declared_key_bytes(keys) {
        Some(RegistryFault::ContextMismatch)
    } else {
        None
    }
}

fn has_duplicate_exec(keys: &Vec<String>) -> (r: bool)
    ensures
        r == has_duplicate(keys@.map_values(|key: String| key@)),
{
    let ghost views = keys@.map_values(|key: String| key@);
    let mut j: usize = 0;
    while j < keys.len()
        invariant
            j <= keys@.len(),
            views == keys@.map_values(|key: String| key@),
            forall|a: int, c: int| 0 <= a < c < j ==> views[a] != views[c],
        decreases keys@.len() - j,
    {
        let mut i: usize = 0;
        while i < j
            invariant
                i <= j < keys@.len(),
                views == keys@.map_values(|key: String| key@),
                forall|a: int, c: int| 0 <= a < c < j ==> views[a] != views[c],
                forall|a: int| 0 <= a < i ==> views[a] != views[j as int],
            decreases j - i,
        {
            if keys[i] == keys[j] {
                assert(views[i as int] == views[j as int]);
                return true;
            }
            i = i + 1;
        }
        j = j + 1;
    }
    false
}

/// The key bytes agree with the declared keys as sets.
fn same_key_sets(used: &Vec<Vec<u8>>, declared: &Vec<String>) -> (r: bool)
    ensures
        r == (key_set(used@) == declared_key_bytes(declared@.map_values(|key: String| key@))),
{
    let ghost views = declared@.map_values(|key: String| key@);
    let ghost target = declared_key_bytes(views);
    let mut i: usize = 0;
    while i < used.len()
        invariant
            i <= used@.len(),
            views == declared@.map_values(|key: String| key@),
            target == declared_key_bytes(views),
            forall|a: int| 0 <= a < i ==> target.contains(#[trigger] used@[a]@),
        decreases used@.len() - i,
    {
        let mut found = false;
        let mut j: usize = 0;
        while j < declared.len()
            invariant
                i < used@.len(),
                j <= declared@.len(),
                views == declared@.map_values(|key: String| key@),
                !found ==> forall|c: int| 0 <= c < j ==> utf8_bytes(views[c]) != used@[i as int]@,
                found ==> target.contains(used@[i as int]@),
                target == declared_key_bytes(views),
            decreases declared@.len() - j,
        {
            if !found && bytes_equal(declared[j].as_str().as_bytes(), used[i].as_slice()) {
                assert(utf8_bytes(views[j as int]) == used@[i as int]@);
                found = true;
            }
            j = j + 1;
        }
        if !found {
            assert(!target.contains(used@[i as int]@));
            assert(!key_set(used@).contains(used@[i as int]@) || true);
            assert(key_set(used@).contains(used@[i as int]@));
            return false;
        }
        i = i + 1;
    }
    let mut j: usize = 0;
    while j < declared.len()
        invariant
            j <= declared@.len(),
            views == declared@.map_values(|key: String| key@),
            target == declared_key_bytes(views),
            forall|a: int| 0 <= a < used@.len() ==> target.contains(#[trigger] used@[a]@),
            forall|c: int| 0 <= c < j ==> key_set(used@).contains(utf8_bytes(#[trigger] views[c])),
        decreases declared@.len() - j,
    {
        if !contains_key(used, declared[j].as_str().as_bytes()) {
            assert(target.contains(utf8_bytes(views[j as int])));
            return false;
        }
        j = j + 1;
    }
    assert(key_set(used@) =~= target);
    true
}

/// Checks that a declaration is well formed: a valid code, a bounded
/// nonempty message, distinct context keys, and placeholders that are
/// exactly the declared keys.
pub fn validate_declaration(declaration: &ErrorOverride) -> (r: Result<(), RegistryError>)
    ensures
        match spec_declaration_fault(declaration@) {
            Some(fault) => r matches Err(e) && e@ == (fault, declaration@.0),
            None => r is Ok,
        },
{
    validate_code(declaration.code.as_str())?;
    let message = declaration.message.as_str();
    let message_bytes = message.as_bytes();
    if message.is_empty() || message_bytes.len() > 512 {
        return Err(registry_error(RegistryFault::InvalidMessage, declaration.code.as_str()));
    }
    if has_duplicate_exec(&declaration.context_keys) {
        return Err(registry_error(RegistryFault::DuplicateContextKey, declaration.code.as_str()));
    }
    let used = match placeholders(message) {
        Ok(used) => used,
        Err(()) => {
            return Err(registry_error(RegistryFault::InvalidMessage, declaration.code.as_str()));
        },
    };
    if !same_key_sets(&used, &declaration.context_keys) {
        return Err(registry_error(RegistryFault::ContextMismatch, declaration.code.as_str()));
    }
    Ok(())
}


// ---------------------------------------------------------------------------
// Built-in codes
// ---------------------------------------------------------------------------

/// The built-in error for a code, if the code is built in.
fn built_in_entry(code: &str) -> (r: Option<BuiltInError>)
    ensures
        r matches Some(b) ==> b.code@ == code@ && spec_built_in(code@) == Some(b.spec_entry()),
        r is None <==> spec_built_in(code@) is None,
{
    if str_equal(code, "json_invalid") {
        let context: &'static [&'static str] = &["error"];
        let b = BuiltInError { code: "json_invalid", message: "Invalid JSON: {error}", context };
        assert(b.spec_entry().1 =~= seq!["error"@]);
        Some(b)
    } else if str_equal(code, "schema_invalid") {
        let context: &'static [&'static str] = &["error"];
        let b = BuiltInError { code: "schema_invalid", message: "Invalid schema: {error}", context };
        assert(b.spec_entry().1 =~= seq!["error"@]);
        Some(b)
    } else if str_equal(code, "input_limit_exceeded") {
        let context: &'static [&'static str] = &["limit"];
        let b = BuiltInError {
            code: "input_limit_exceeded",
            message: "Input limit exceeded: {limit}",
            context,
        };
        assert(b.spec_entry().1 =~= seq!["limit"@]);
        Some(b)
    } else if str_equal(code, "internal_program_load") {
        let context: &'static [&'static str] = &[];
        let b = BuiltInError {
            code: "internal_program_load",
            message: "Schema program could not be loaded",
            context,
        };
        assert(b.spec_entry().1 =~= Seq::<Seq<char>>::empty());
        Some(b)
    } else {
        None
    }
}

/// Whether a declaration restates a built-in entry exactly.
pub open spec fn restates_built_in(
    d: (Seq<char>, Seq<char>, Seq<Seq<char>>),
    entry: (Seq<char>, Seq<Seq<char>>),
) -> bool {
    d.1 == entry.0 && d.2 == entry.1
}

fn keys_equal(keys: &Vec<String>, context: &[&str]) -> (r: bool)
    ensures
        r == (keys@.map_values(|key: String| key@) == context@.map_values(|key: &str| key@)),
{
    let ghost left = keys@.map_values(|key: String| key@);
    let ghost right = context@.map_values(|key: &str| key@);
    if keys.len() != context.len() {
        assert(left.len() != right.len());
        return false;
    }
    let mut i: usize = 0;
    while i < keys.len()
        invariant
            i <= keys@.len(),
            keys@.len() == context@.len(),
            left == keys@.map_values(|key: String| key@),
            right == context@.map_values(|key: &str| key@),
            forall|j: int| 0 <= j < i ==> left[j] == right[j],
        decreases keys@.len() - i,
    {
        if !str_equal(keys[i].as_str(), context[i]) {
            assert(left[i as int] != right[i as int]);
            return false;
        }
        i = i + 1;
    }
    assert(left =~= right);
    true
}

/// A declaration of a built-in code must restate its message and context.
pub fn validate_built_in_override(
    built_in: &BuiltInError,
    declaration: &ErrorOverride,
) -> (r: Result<(), RegistryError>)
    ensures
        restates_built_in(declaration@, built_in.spec_entry()) <==> r is Ok,
        r matches Err(e) ==> e@ == (RegistryFault::BuiltInCollision, declaration@.0),
{
    if str_equal(declaration.message.as_str(), built_in.message) && keys_equal(
        &declaration.context_keys,
        built_in.context,
    ) {
        Ok(())
    } else {
        Err(registry_error(RegistryFault::BuiltInCollision, declaration.code.as_str()))
    }
}

// ---------------------------------------------------------------------------
// The registry
// ---------------------------------------------------------------------------

/// An override as code, message and context keys.
pub type OverrideView = (Seq<char>, Seq<char>, Seq<Seq<char>>);

/// The registry after one more declaration, or the fault that stops it.
pub open spec fn spec_step(m: Map<Seq<char>, OverrideView>, d: OverrideView) -> Result<
    Map<Seq<char>, OverrideView>,
    (RegistryFault, Seq<char>),
> {
    match spec_declaration_fault(d) {
        Some(fault) => Err((fault, d.0)),
        None => match spec_built_in(d.0) {
            Some(entry) => if restates_built_in(d, entry) {
                Ok(m)
            } else {
                Err((RegistryFault::BuiltInCollision, d.0))
            },
            None => if m.contains_key(d.0) {
                Err((RegistryFault::DuplicateCode, d.0))
            } else {
                Ok(m.insert(d.0, d))
            },
        },
    }
}

/// The registry built from declarations in order: built-in codes are only
/// checked, custom codes are registered once each.
pub open spec fn spec_build(ds: Seq<OverrideView>) -> Result<
    Map<Seq<char>, OverrideView>,
    (RegistryFault, Seq<char>),
>
    decreases ds.len(),
{
    if ds.len() == 0 {
        Ok(Map::empty())
    } else {
        match spec_build(ds.drop_last()) {
            Err(e) => Err(e),
            Ok(m) => spec_step(m, ds.last()),
        }
    }
}

/// The fault that `validate_override` reports for a declaration, if any.
pub open spec fn spec_override_fault(m: Map<Seq<char>, OverrideView>, d: OverrideView) -> Option<
    (RegistryFault, Seq<char>),
> {
    match spec_declaration_fault(d) {
        Some(fault) => Some((fault, d.0)),
        None => match spec_built_in(d.0) {
            Some(entry) => if restates_built_in(d, entry) {
                None
            } else {
                Some((RegistryFault::BuiltInCollision, d.0))
            },
            None => if !m.contains_key(d.0) {
                Some((RegistryFault::UnknownCode, d.0))
            } else if m[d.0] == d {
                None
            } else {
                Some((RegistryFault::ConflictingDeclaration, d.0))
            },
        },
    }
}

/// The map from code to entry for entries with distinct codes.
pub open spec fn entries_map(entries: Seq<OverrideView>) -> Map<Seq<char>, OverrideView>
    decreases entries.len(),
{
    if entries.len() == 0 {
        Map::empty()
    } else {
        entries_map(entries.drop_last()).insert(entries.last().0, entries.last())
    }
}

/// No two entries share a code.
pub open spec fn distinct_codes(entries: Seq<OverrideView>) -> bool {
    forall|i: int, j: int| 0 <= i < j < entries.len() ==> entries[i].0 != entries[j].0
}

proof fn lemma_entries_map(entries: Seq<OverrideView>)
    requires
        distinct_codes(entries),
    ensures
        forall|c: Seq<char>| #[trigger] entries_map(entries).contains_key(c) <==> exists|i: int|
            0 <= i < entries.len() && entries[i].0 == c,
        forall|i: int| 0 <= i < entries.len() ==> #[trigger] entries_map(entries)[entries[i].0] == entries[i],
    decreases entries.len(),
{
    if entries.len() > 0 {
        let init = entries.drop_last();
        let last = entries.last();
        assert forall|i: int, j: int| 0 <= i < j < init.len() implies init[i].0 != init[j].0 by {
            assert(init[i] == entries[i] && init[j] == entries[j]);
        }
        lemma_entries_map(init);
        let m = entries_map(entries);
        assert(m == entries_map(init).insert(last.0, last));
        assert forall|c: Seq<char>| #[trigger] m.contains_key(c) implies exists|i: int|
            0 <= i < entries.len() && entries[i].0 == c by {
            if c == last.0 {
                assert(entries[entries.len() - 1].0 == c);
            } else {
                assert(entries_map(init).contains_key(c));
                let i = choose|i: int| 0 <= i < init.len() && init[i].0 == c;
                assert(entries[i] == init[i]);
            }
        }
        assert forall|c: Seq<char>| (exists|i: int| 0 <= i < entries.len() && entries[i].0 == c) implies
            #[trigger] m.contains_key(c) by {
            let i = choose|i: int| 0 <= i < entries.len() && entries[i].0 == c;
            if i < entries.len() - 1 {
                assert(init[i].0 == c);
                assert(entries_map(init).contains_key(c));
            }
        }
        assert forall|i: int| 0 <= i < entries.len() implies #[trigger] m[entries[i].0] == entries[i] by {
            if i < entries.len() - 1 {
                assert(init[i] == entries[i]);
                assert(entries[i].0 != last.0);
                assert(entries_map(init)[init[i].0] == init[i]);
            }
        }
    }
}

/// A build that stopped on a prefix stops with the same fault on the whole.
proof fn lemma_build_error_prefix(ds: Seq<OverrideView>, k: int)
    requires
        0 <= k <= ds.len(),
        spec_build(ds.take(k)) is Err,
    ensures
        spec_build(ds) == spec_build(ds.take(k)),
    decreases ds.len() - k,
{
    if k == ds.len() {
        assert(ds.take(k) =~= ds);
    } else {
        assert(ds.take(k + 1).drop_last() =~= ds.take(k));
        lemma_build_error_prefix(ds, k + 1);
    }
}

/// Registered custom error declarations, keyed by code.
#[derive(Debug)]
pub struct ErrorRegistry {
    custom: Vec<ErrorOverride>,
}

impl View for ErrorRegistry {
    type V = Map<Seq<char>, OverrideView>;

    closed spec fn view(&self) -> Map<Seq<char>, OverrideView> {
        entries_map(self.custom@.map_values(|d: ErrorOverride| d@))
    }
}

impl ErrorRegistry {
    #[verifier::type_invariant]
    closed spec fn inv(&self) -> bool {
        distinct_codes(self.custom@.map_values(|d: ErrorOverride| d@))
    }

    /// Registers custom declarations in order. Declarations of built-in
    /// codes are checked against the built-in entry and not registered.
    pub fn new(custom: Vec<ErrorOverride>) -> (r: Result<ErrorRegistry, RegistryError>)
        ensures
            match spec_build(custom@.map_values(|d: ErrorOverride| d@)) {
                Ok(m) => r matches Ok(reg) && reg@ == m,
                Err(e) => r matches Err(x) && x@ == e,
            },
    {
        let ghost ds = custom@.map_values(|d: ErrorOverride| d@);
        let mut entries: Vec<ErrorOverride> = Vec::new();
        let mut index: usize = 0;
        while index < custom.len()
            invariant
                index <= custom@.len(),
                ds == custom@.map_values(|d: ErrorOverride| d@),
                distinct_codes(entries@.map_values(|d: ErrorOverride| d@)),
                spec_build(ds.take(index as int)) == Ok::<Map<Seq<char>, OverrideView>, (RegistryFault, Seq<char>)>(
                    entries_map(entries@.map_values(|d: ErrorOverride| d@)),
                ),
            decreases custom@.len() - index,
        {
            let declaration = &custom[index];
            let ghost prefix = ds.take(index as int);
            let ghost next = ds.take(index + 1);
            assert(next.drop_last() =~= prefix);
            assert(next.last() == declaration@);
            let ghost views = entries@.map_values(|d: ErrorOverride| d@);
            match validate_declaration(declaration) {
                Ok(()) => {},
                Err(e) => {
                    proof {
                        lemma_build_error_prefix(ds, index + 1);
                    }
                    return Err(e);
                },
            }
            match built_in_entry(declaration.code.as_str()) {
                Some(entry) => {
                    match validate_built_in_override(&entry, declaration) {
                        Ok(()) => {},
                        Err(e) => {
                            proof {
                                lemma_build_error_prefix(ds, index + 1);
                            }
                            return Err(e);
                        },
                    }
                },
                None => {
                    let mut j: usize = 0;
                    while j < entries.len()
                        invariant
                            j <= entries@.len(),
                            index < custom@.len(),
                            ds == custom@.map_values(|d: ErrorOverride| d@),
                            declaration == &custom@[index as int],
                            distinct_codes(views),
                            views == entries@.map_values(|d: ErrorOverride| d@),
                            spec_build(ds.take(index as int)) == Ok::<Map<Seq<char>, OverrideView>, (RegistryFault, Seq<char>)>(
                                entries_map(views),
                            ),
                            spec_declaration_fault(declaration@) is None,
                            spec_built_in(declaration@.0) is None,
                            ds.take(index + 1).drop_last() == ds.take(index as int),
                            ds.take(index + 1).last() == declaration@,
                            forall|k: int| 0 <= k < j ==> views[k].0 != declaration@.0,
                        decreases entries@.len() - j,
                    {
                        if entries[j].code == declaration.code {
                            proof {
                                lemma_entries_map(views);
                                assert(views[j as int].0 == declaration@.0);
                                assert(entries_map(views).contains_key(declaration@.0));
                                lemma_build_error_prefix(ds, index + 1);
                            }
                            return Err(registry_error(RegistryFault::DuplicateCode, declaration.code.as_str()));
                        }
                        j = j + 1;
                    }
                    proof {
                        lemma_entries_map(views);
                    }
                    assert(!entries_map(views).contains_key(declaration@.0));
                    let copy = clone_override(declaration);
                    entries.push(copy);
                    proof {
                        let after = entries@.map_values(|d: ErrorOverride| d@);
                        assert(after =~= views.push(declaration@));
                        assert(after.drop_last() =~= views);
                        assert forall|a: int, c: int| 0 <= a < c < after.len() implies after[a].0 != after[c].0 by {
                            if c == after.len() - 1 {
                                assert(after[a] == views[a]);
                            } else {
                                assert(after[a] == views[a] && after[c] == views[c]);
                            }
                        }
                    }
                },
            }
            index = index + 1;
        }
        assert(ds.take(custom@.len() as int) =~= ds);
        Ok(ErrorRegistry { custom: entries })
    }

    /// The built-in error for a code, if the code is built in.
    pub fn built_in(code: &str) -> (r: Option<BuiltInError>)
        ensures
            r matches Some(b) ==> b.code@ == code@ && spec_built_in(code@) == Some(b.spec_entry()),
            r is None <==> spec_built_in(code@) is None,
    {
        built_in_entry(code)
    }

    /// The registered declaration for a custom code.
    pub fn custom(&self, code: &str) -> (r: Option<&ErrorOverride>)
        ensures
            r matches Some(d) ==> self@.contains_key(code@) && self@[code@] == d@,
            r is None <==> !self@.contains_key(code@),
    {
        proof {
            use_type_invariant(self);
        }
        let ghost views = self.custom@.map_values(|d: ErrorOverride| d@);
        let mut i: usize = 0;
        while i < self.custom.len()
            invariant
                i <= self.custom@.len(),
                views == self.custom@.map_values(|d: ErrorOverride| d@),
                distinct_codes(views),
                forall|k: int| 0 <= k < i ==> views[k].0 != code@,
            decreases self.custom@.len() - i,
        {
            if str_equal(self.custom[i].code.as_str(), code) {
                proof {
                    lemma_entries_map(views);
                    assert(views[i as int].0 == code@);
                }
                return Some(&self.custom[i]);
            }
            i = i + 1;
        }
        proof {
            lemma_entries_map(views);
        }
        None
    }

    /// Checks a declaration against the built-in entry or the registered
    /// custom entry for its code.
    pub fn validate_override(&self, declaration: &ErrorOverride) -> (r: Result<(), RegistryError>)
        ensures
            match spec_override_fault(self@, declaration@) {
                Some(e) => r matches Err(x) && x@ == e,
                None => r is Ok,
            },
    {
        validate_declaration(declaration)?;
        if let Some(entry) = built_in_entry(declaration.code.as_str()) {
            return validate_built_in_override(&entry, declaration);
        }
        match self.custom(declaration.code.as_str()) {
            Some(registered) => {
                if same_override(registered, declaration) {
                    Ok(())
                } else {
                    Err(registry_error(RegistryFault::ConflictingDeclaration, declaration.code.as_str()))
                }
            },
            None => Err(registry_error(RegistryFault::UnknownCode, declaration.code.as_str())),
        }
    }
}

fn clone_keys(keys: &Vec<String>) -> (r: Vec<String>)
    ensures
        r@.map_values(|key: String| key@) == keys@.map_values(|key: String| key@),
{
    let mut out: Vec<String> = Vec::new();
    let mut i: usize = 0;
    while i < keys.len()
        invariant
            i <= keys@.len(),
            out@.len() == i,
            forall|j: int| 0 <= j < i ==> out@[j]@ == keys@[j]@,
        decreases keys@.len() - i,
    {
        out.push(keys[i].clone());
        i = i + 1;
    }
    assert(out@.map_values(|key: String| key@) =~= keys@.map_values(|key: String| key@));
    out
}

/// A copy of a declaration.
pub fn clone_override(d: &ErrorOverride) -> (r: ErrorOverride)
    ensures
        r@ == d@,
{
    ErrorOverride {
        code: d.code.clone(),
        message: d.message.clone(),
        context_keys: clone_keys(&d.context_keys),
    }
}

/// Whether two declarations agree in code, message and context keys.
pub fn same_override(left: &ErrorOverride, right: &ErrorOverride) -> (r: bool)
    ensures
        r == (left@ == right@),
{
    if left.code != right.code || left.message != right.message {
        return false;
    }
    let ghost lk = left.context_keys@.map_values(|key: String| key@);
    let ghost rk = right.context_keys@.map_values(|key: String| key@);
    if left.context_keys.len() != right.context_keys.len() {
        assert(lk.len() != rk.len());
        return false;
    }
    let mut i: usize = 0;
    while i < left.context_keys.len()
        invariant
            i <= left.context_keys@.len(),
            left.context_keys@.len() == right.context_keys@.len(),
            lk == left.context_keys@.map_values(|key: String| key@),
            rk == right.context_keys@.map_values(|key: String| key@),
            forall|j: int| 0 <= j < i ==> lk[j] == rk[j],
        decreases left.context_keys@.len() - i,
    {
        if left.context_keys[i] != right.context_keys[i] {
            assert(lk[i as int] != rk[i as int]);
            return false;
        }
        i = i + 1;
    }
    assert(lk =~= rk);
    true
}

/// A registry accepts again every declaration that it was built from:
/// `validate_override` succeeds on each of them.
pub proof fn law_registry_accepts_its_declarations(ds: Seq<OverrideView>, m: Map<Seq<char>, OverrideView>)
    requires
        spec_build(ds) == Ok::<Map<Seq<char>, OverrideView>, (RegistryFault, Seq<char>)>(m),
    ensures
        forall|i: int| 0 <= i < ds.len() ==> spec_override_fault(m, #[trigger] ds[i]) is None,
    decreases ds.len(),
{
    if ds.len() > 0 {
        let init = ds.drop_last();
        let d = ds.last();
        let m0 = spec_build(init)->Ok_0;
        law_registry_accepts_its_declarations(init, m0);
        assert forall|i: int| 0 <= i < ds.len() implies spec_override_fault(m, #[trigger] ds[i]) is None by {
            if i < ds.len() - 1 {
                assert(ds[i] == init[i]);
                assert(spec_override_fault(m0, init[i]) is None);
                if spec_built_in(ds[i].0) is None {
                    assert(m0.contains_key(ds[i].0));
                    assert(m.contains_key(ds[i].0));
                    assert(m[ds[i].0] == m0[ds[i].0]);
                }
            }
        }
    }
}

/// What a registry holds: exactly the custom declarations it was built
/// from, each under its own code, and nothing under a built-in code
/// (declarations that restate a built-in error are checked, not stored).
/// With `custom`'s contract, a lookup of a custom code finds the
/// declaration given for it, and a lookup of a built-in code finds none.
pub proof fn law_registry_holds_its_custom_declarations(ds: Seq<OverrideView>, m: Map<Seq<char>, OverrideView>)
    requires
        spec_build(ds) == Ok::<Map<Seq<char>, OverrideView>, (RegistryFault, Seq<char>)>(m),
    ensures
        forall|i: int|
            0 <= i < ds.len() && spec_built_in(#[trigger] ds[i].0) is None ==> m.contains_key(ds[i].0) && m[ds[i].0]
                == ds[i],
        forall|c: Seq<char>| #[trigger] m.contains_key(c) ==> spec_built_in(c) is None,
        forall|c: Seq<char>| #[trigger] m.contains_key(c) ==> exists|i: int| 0 <= i < ds.len() && ds[i].0 == c,
    decreases ds.len(),
{
    if ds.len() > 0 {
        let init = ds.drop_last();
        let d = ds.last();
        let m0 = spec_build(init)->Ok_0;
        law_registry_holds_its_custom_declarations(init, m0);
        assert forall|i: int|
            0 <= i < ds.len() && spec_built_in(#[trigger] ds[i].0) is None implies m.contains_key(ds[i].0) && m[ds[i].0]
                == ds[i] by {
            if i < ds.len() - 1 {
                assert(ds[i] == init[i]);
                assert(m0.contains_key(init[i].0));
                if spec_built_in(d.0) is None {
                    assert(ds[i].0 != d.0);
                }
            }
        }
        assert forall|c: Seq<char>| #[trigger] m.contains_key(c) implies exists|i: int|
            0 <= i < ds.len() && ds[i].0 == c by {
            if c == d.0 {
                assert(ds[ds.len() - 1].0 == c);
            } else {
                assert(m0.contains_key(c));
                let i = choose|i: int| 0 <= i < init.len() && init[i].0 == c;
                assert(ds[i] == init[i]);
            }
        }
    }
}

} // verus!
