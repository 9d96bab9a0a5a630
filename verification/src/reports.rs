use vstd::prelude::*;

use crate::arena::ArenaError;
use crate::constraints::{AliasPath, AliasSegment};
use crate::error::{
    plain_error, type_error, DetailView, ErrorDetail, LocationItem, LocationStep, ValidationError,
};
use crate::input::{InputId, JsonInputError, NativeInputError};
use crate::text::{decimal, owned, str_equal, usize_text};

verus! {

/// The error for a validated arena that ran out of compact indices.
pub fn arena_capacity_error() -> (r: ValidationError)
    ensures
        r@ == plain_error("resource_limit"@, "Validated arena capacity exceeded"@, "bounded output"@),
{
    type_error("resource_limit", "Validated arena capacity exceeded", "bounded output")
}

/// An arena failure while storing validated values.
pub fn arena_validation_error(error: ArenaError) -> (r: ValidationError)
    ensures
        r@ == plain_error("resource_limit"@, "Validated arena capacity exceeded"@, "bounded output"@),
{
    arena_capacity_error()
}

/// The error for a definition reference to a flattened wrapper or scope.
pub fn reference_target_error() -> (r: ValidationError)
    ensures
        r@ == plain_error(
            "schema_invalid"@,
            "Definition references cannot target flattened wrappers or definition scopes"@,
            "non-flattened definition target"@,
        ),
{
    type_error(
        "schema_invalid",
        "Definition references cannot target flattened wrappers or definition scopes",
        "non-flattened definition target",
    )
}

/// The `schema_invalid` error of a definition scope.
pub fn definition_schema_error(message: &'static str) -> (r: ValidationError)
    ensures
        r@ == plain_error("schema_invalid"@, message@, "valid definition scope"@),
{
    type_error("schema_invalid", message, "valid definition scope")
}

/// The error for a decimal with too many digits: the allowance is recorded
/// under `key`.
pub fn decimal_digit_error(code: &'static str, key: &str, allowance: usize) -> (r: ValidationError)
    ensures
        !r@.1,
        r@.0.len() == 1,
        r@.0[0].code == code@,
        r@.0[0].message == "Decimal digit constraint failed"@,
        r@.0[0].expected.len() == 0,
        r@.0[0].location.len() == 0,
        r@.0[0].context == seq![(key@, decimal(allowance as nat))],
{
    let mut detail = ErrorDetail::new(code, owned("Decimal digit constraint failed"));
    detail.context = vec![(owned(key), usize_text(allowance))];
    let r = ValidationError::one(detail);
    assert(r@.0[0].context =~= seq![(key@, decimal(allowance as nat))]);
    r
}

/// A JSON input failure as a validation error: the input error's code and
/// message, its line and column as context, and its path as the location.
pub open spec fn json_input_detail(error: crate::input::JsonInputErrorView) -> DetailView {
    DetailView {
        code: error.code,
        location: error.path.map_values(|name: Seq<char>| LocationStep::Field(name)),
        message: error.message,
        expected: "valid bounded JSON"@,
        context: seq![("line"@, decimal(error.line as nat)), ("column"@, decimal(error.column as nat))],
    }
}

/// Reports a JSON input failure as a validation error.
pub fn json_input_error(error: JsonInputError) -> (r: ValidationError)
    ensures
        r@ == (seq![json_input_detail(error@)], false),
{
    let ghost view = error@;
    let JsonInputError { code, message, offset, line, column, path } = error;
    let mut detail = ErrorDetail::new(code, message).expected(owned("valid bounded JSON"));
    detail.context = vec![(owned("line"), usize_text(line)), (owned("column"), usize_text(column))];
    let mut location: Vec<LocationItem> = Vec::new();
    let mut k: usize = 0;
    while k < path.len()
        invariant
            k <= path@.len(),
            location@.len() == k,
            forall|j: int| 0 <= j < k ==> (#[trigger] location@[j])@ == LocationStep::Field(path@[j]@),
        decreases path@.len() - k,
    {
        location.push(LocationItem::Field(path[k].clone()));
        k = k + 1;
    }
    detail.location = location;
    let r = ValidationError::one(detail);
    proof {
        reveal_strlit("line");
        reveal_strlit("column");
        assert(r@.0[0].location =~= view.path.map_values(|name: Seq<char>| LocationStep::Field(name)));
        assert(r@.0[0].context =~= json_input_detail(view).context);
        assert(r@.0 =~= seq![json_input_detail(view)]);
    }
    r
}

/// Reports a native input failure as a validation error with the failure's
/// text as context.
pub fn native_input_error(error: NativeInputError) -> (r: ValidationError)
    ensures
        !r@.1,
        r@.0.len() == 1,
        r@.0[0].code == "input_limit_exceeded"@,
        r@.0[0].message == "Native input could not be bounded"@,
        r@.0[0].expected == "bounded structural input"@,
        r@.0[0].location.len() == 0,
        r@.0[0].context == seq![("error"@, crate::input::native_error_text(error))],
{
    let mut detail = ErrorDetail::new("input_limit_exceeded", owned("Native input could not be bounded")).expected(
        owned("bounded structural input"),
    );
    detail.context = vec![(owned("error"), error.text())];
    let r = ValidationError::one(detail);
    assert(r@.0[0].context =~= seq![("error"@, crate::input::native_error_text(error))]);
    r
}

/// The position of the entry named by an alias path's first step, when
/// that step is a field.
pub open spec fn spec_top_level_index(path: Seq<AliasSegment>, names: Seq<Seq<char>>) -> Option<int> {
    if path.len() > 0 && path[0] is Field && exists|i: int|
        0 <= i < names.len() && names[i] == path[0]->Field_0@ {
        Some(
            choose|i: int|
                0 <= i < names.len() && names[i] == path[0]->Field_0@ && forall|j: int|
                    0 <= j < i ==> names[j] != path[0]->Field_0@,
        )
    } else {
        None
    }
}

/// Finds the first entry whose name is the field that an alias path starts
/// with.
pub fn top_level_index(path: &AliasPath, entries: &[(String, InputId)]) -> (r: Option<usize>)
    ensures
        match r {
            Some(i) => path.segments@.len() > 0 && path.segments@[0] is Field && i < entries@.len()
                && entries@[i as int].0@ == path.segments@[0]->Field_0@ && forall|j: int|
                0 <= j < i ==> (#[trigger] entries@[j]).0@ != path.segments@[0]->Field_0@,
            None => path.segments@.len() == 0 || !(path.segments@[0] is Field) || forall|j: int|
                0 <= j < entries@.len() ==> (#[trigger] entries@[j]).0@ != path.segments@[0]->Field_0@,
        },
{
    if path.segments.len() == 0 {
        return None;
    }
    let field = match path.segments[0] {
        AliasSegment::Field(field) => field,
        AliasSegment::Index(_) => return None,
    };
    let mut i: usize = 0;
    while i < entries.len()
        invariant
            i <= entries@.len(),
            path.segments@.len() > 0,
            path.segments@[0] == AliasSegment::Field(field),
            forall|j: int| 0 <= j < i ==> (#[trigger] entries@[j]).0@ != field@,
        decreases entries@.len() - i,
    {
        if str_equal(entries[i].0.as_str(), field) {
            return Some(i);
        }
        i = i + 1;
    }
    None
}

/// The same error with the whole of `path` in front of every detail's
/// location.
pub fn at_path(error: ValidationError, path: &[LocationItem]) -> (r: ValidationError)
    ensures
        r@.1 == error@.1,
        r@.0.len() == error@.0.len(),
        forall|i: int| 0 <= i < error@.0.len() ==> {
            &&& (#[trigger] r@.0[i]).location == path@.map_values(|item: LocationItem| item@)
                + error@.0[i].location
            &&& r@.0[i].code == error@.0[i].code
            &&& r@.0[i].message == error@.0[i].message
            &&& r@.0[i].expected == error@.0[i].expected
            &&& r@.0[i].context == error@.0[i].context
        },
{
    let ghost initial = error@;
    let ghost steps = path@.map_values(|item: LocationItem| item@);
    let mut current = error;
    let mut k: usize = path.len();
    assert(steps.subrange(k as int, steps.len() as int) =~= Seq::<LocationStep>::empty());
    while k > 0
        invariant
            k <= path@.len(),
            steps == path@.map_values(|item: LocationItem| item@),
            current@.1 == initial.1,
            current@.0.len() == initial.0.len(),
            forall|i: int| 0 <= i < initial.0.len() ==> {
                &&& (#[trigger] current@.0[i]).location == steps.subrange(k as int, steps.len() as int)
                    + initial.0[i].location
                &&& current@.0[i].code == initial.0[i].code
                &&& current@.0[i].message == initial.0[i].message
                &&& current@.0[i].expected == initial.0[i].expected
                &&& current@.0[i].context == initial.0[i].context
            },
        decreases k,
    {
        k = k - 1;
        let ghost before = current@;
        current = current.at(path[k].copy());
        proof {
            assert(steps[k as int] == path@[k as int]@);
            assert forall|i: int| 0 <= i < initial.0.len() implies (#[trigger] current@.0[i]).location
                == steps.subrange(k as int, steps.len() as int) + initial.0[i].location by {
                assert(seq![steps[k as int]] + (steps.subrange(k + 1, steps.len() as int) + initial.0[i].location)
                    =~= steps.subrange(k as int, steps.len() as int) + initial.0[i].location);
            }
        }
    }
    assert(steps.subrange(0, steps.len() as int) =~= steps);
    current
}

} // verus!
