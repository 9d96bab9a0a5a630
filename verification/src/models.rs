use vstd::prelude::*;

use crate::collections::node_at;
use crate::collections::stop_after_error_cap;
use crate::error::{plain_error, type_error, DetailView, ErrorDetail, LocationItem, LocationStep, ValidationError};
use crate::keys::{collect_error, collect_view, errors_view};
use crate::text::owned;
use crate::input::{InputArena, InputId, InputNode, InputValue, ObjectKind};
use crate::options::{spec_effective_strict, InputProfile, ValidationOptions};
use crate::values::ValueId;

verus! {

/// Whether an object of `kind` may stand for a model under the options: in
/// lax mode always; in strict mode a JSON object under the JSON profile and
/// a native object under the other profiles.
pub open spec fn model_object_accepted(kind: ObjectKind, options: ValidationOptions) -> bool {
    !spec_effective_strict(options) || match options.profile {
        InputProfile::Json => kind == ObjectKind::JsonObject,
        _ => kind == ObjectKind::Object,
    }
}

/// The error view that `model_input` answers for a node, or nothing when it
/// hands the object's entries out.
pub open spec fn model_fault(node: Option<InputNode>, options: ValidationOptions) -> Option<(Seq<DetailView>, bool)> {
    match node {
        None => Some(plain_error("internal_input"@, "Input arena index is invalid"@, "valid input arena"@)),
        Some(InputNode::Object { kind, .. }) => if model_object_accepted(kind, options) {
            None
        } else {
            Some(plain_error("model_type"@, "Object kind does not match the input profile"@, "profile object"@))
        },
        Some(_) => Some(plain_error("model_type"@, "Input must be an object"@, "object"@)),
    }
}

/// The entries of the object that a model validates: the object at
/// `input_id` when its kind is accepted under the options, and otherwise
/// the error of `model_fault`.
pub fn model_input(input: &InputArena, input_id: InputId, options: ValidationOptions) -> (r: Result<
    Vec<(String, InputId)>,
    ValidationError,
>)
    ensures
        match model_fault(node_at(input, input_id), options) {
            None => r is Ok,
            Some(view) => r matches Err(e) && e@ == view,
        },
        r matches Ok(entries) ==> node_at(input, input_id) matches Some(InputNode::Object { entries: found, .. })
            && entries@.map_values(|e: (String, InputId)| (e.0@, e.1@)) == found,
{
    match input.get(input_id) {
        Some(InputValue::Object { kind, entries }) => {
            let accepted = !options.effective_strict() || match options.profile {
                InputProfile::Json => *kind == ObjectKind::JsonObject,
                _ => *kind == ObjectKind::Object,
            };
            if !accepted {
                return Err(
                    type_error("model_type", "Object kind does not match the input profile", "profile object"),
                );
            }
            let ghost views = entries@.map_values(|e: (String, InputId)| (e.0@, e.1@));
            let mut copied: Vec<(String, InputId)> = Vec::new();
            let mut i: usize = 0;
            while i < entries.len()
                invariant
                    i <= entries@.len(),
                    views == entries@.map_values(|e: (String, InputId)| (e.0@, e.1@)),
                    copied@.map_values(|e: (String, InputId)| (e.0@, e.1@)) == views.subrange(0, i as int),
                decreases entries@.len() - i,
            {
                let ghost before = copied@;
                let name = entries[i].0.clone();
                let id = entries[i].1;
                copied.push((name, id));
                proof {
                    assert(copied@ == before.push((name, id)));
                    assert(views[i as int] == (entries@[i as int].0@, entries@[i as int].1@));
                    assert(copied@.map_values(|e: (String, InputId)| (e.0@, e.1@)) =~= before.map_values(
                        |e: (String, InputId)| (e.0@, e.1@),
                    ).push((name@, id@)));
                    assert(views.subrange(0, i + 1) =~= views.subrange(0, i as int).push(views[i as int]));
                }
                i += 1;
            }
            proof {
                assert(views.subrange(0, entries@.len() as int) =~= views);
            }
            Ok(copied)
        },
        Some(_) => Err(type_error("model_type", "Input must be an object", "object")),
        None => Err(type_error("internal_input", "Input arena index is invalid", "valid input arena")),
    }
}

// ---------------------------------------------------------------------------
// Field order of a validated model
// ---------------------------------------------------------------------------

/// The value last recorded for a field name, as a map keeps it.
pub open spec fn recorded(values: Seq<(Seq<char>, ValueId)>, name: Seq<char>) -> Option<ValueId>
    decreases values.len(),
{
    if values.len() == 0 {
        None
    } else if values.last().0 == name {
        Some(values.last().1)
    } else {
        recorded(values.drop_last(), name)
    }
}

/// The fields of a model in declaration order, each with its recorded
/// value; a field without one is left out when construction supplies its
/// default, and is otherwise a schema error.
pub open spec fn ordered_fields(
    fields: Seq<(Seq<char>, bool)>,
    values: Seq<(Seq<char>, ValueId)>,
) -> Result<Seq<(Seq<char>, ValueId)>, (Seq<DetailView>, bool)>
    decreases fields.len(),
{
    if fields.len() == 0 {
        Ok(Seq::empty())
    } else {
        match ordered_fields(fields.drop_last(), values) {
            Err(e) => Err(e),
            Ok(done) => {
                let (name, construction_default) = fields.last();
                match recorded(values, name) {
                    Some(v) => Ok(done.push((name, v))),
                    None => if construction_default {
                        Ok(done)
                    } else {
                        Err(
                            plain_error(
                                "schema_invalid"@,
                                "A non-input model field has no value source"@,
                                "default or extra destination field"@,
                            ),
                        )
                    },
                }
            },
        }
    }
}

fn recorded_value(values: &Vec<(&'static str, ValueId)>, name: &'static str) -> (r: Option<ValueId>)
    ensures
        r == recorded(values@.map_values(|e: (&'static str, ValueId)| (e.0@, e.1)), name@),
{
    let ghost views = values@.map_values(|e: (&'static str, ValueId)| (e.0@, e.1));
    let mut i: usize = values.len();
    assert(views.subrange(0, values@.len() as int) =~= views);
    while i > 0
        invariant
            i <= values@.len(),
            views == values@.map_values(|e: (&'static str, ValueId)| (e.0@, e.1)),
            recorded(views, name@) == recorded(views.subrange(0, i as int), name@),
        decreases i,
    {
        proof {
            assert(views.subrange(0, i as int).drop_last() =~= views.subrange(0, i - 1));
        }
        if crate::text::str_equal(values[i - 1].0, name) {
            return Some(values[i - 1].1);
        }
        i -= 1;
    }
    assert(views.subrange(0, 0) =~= Seq::<(Seq<char>, ValueId)>::empty());
    None
}

/// The fields of a validated model in declaration order. `fields` gives
/// each declared field's name and whether construction supplies its
/// default; `values` the validated value recorded for each field name.
pub fn order_model_fields(
    fields: &Vec<(&'static str, bool)>,
    values: &Vec<(&'static str, ValueId)>,
) -> (r: Result<Vec<(&'static str, ValueId)>, ValidationError>)
    ensures
        match ordered_fields(
            fields@.map_values(|f: (&'static str, bool)| (f.0@, f.1)),
            values@.map_values(|e: (&'static str, ValueId)| (e.0@, e.1)),
        ) {
            Ok(done) => r matches Ok(out) && out@.map_values(|e: (&'static str, ValueId)| (e.0@, e.1)) == done,
            Err(e) => r matches Err(x) && x@ == e,
        },
{
    let ghost fs = fields@.map_values(|f: (&'static str, bool)| (f.0@, f.1));
    let ghost vs = values@.map_values(|e: (&'static str, ValueId)| (e.0@, e.1));
    let mut out: Vec<(&'static str, ValueId)> = Vec::new();
    let mut i: usize = 0;
    assert(fs.subrange(0, 0) =~= Seq::<(Seq<char>, bool)>::empty());
    assert(out@.map_values(|e: (&'static str, ValueId)| (e.0@, e.1)) =~= Seq::<(Seq<char>, ValueId)>::empty());
    while i < fields.len()
        invariant
            i <= fields@.len(),
            fs == fields@.map_values(|f: (&'static str, bool)| (f.0@, f.1)),
            vs == values@.map_values(|e: (&'static str, ValueId)| (e.0@, e.1)),
            ordered_fields(fs.subrange(0, i as int), vs) == Ok::<
                Seq<(Seq<char>, ValueId)>,
                (Seq<DetailView>, bool),
            >(out@.map_values(|e: (&'static str, ValueId)| (e.0@, e.1))),
        decreases fields@.len() - i,
    {
        let (name, construction_default) = fields[i];
        proof {
            assert(fs.subrange(0, i + 1).drop_last() =~= fs.subrange(0, i as int));
        }
        match recorded_value(values, name) {
            Some(v) => {
                out.push((name, v));
                proof {
                    assert(out@.map_values(|e: (&'static str, ValueId)| (e.0@, e.1)) =~= ordered_fields(
                        fs.subrange(0, i + 1),
                        vs,
                    )->Ok_0);
                }
            },
            None => {
                if !construction_default {
                    proof {
                        lemma_ordered_error_stays(fs, vs, i + 1);
                    }
                    return Err(
                        type_error(
                            "schema_invalid",
                            "A non-input model field has no value source",
                            "default or extra destination field",
                        ),
                    );
                }
            },
        }
        i += 1;
    }
    proof {
        assert(fs.subrange(0, fields@.len() as int) =~= fs);
    }
    Ok(out)
}

/// Once a prefix of the fields fails, every longer prefix fails the same
/// way.
proof fn lemma_ordered_error_stays(
    fs: Seq<(Seq<char>, bool)>,
    vs: Seq<(Seq<char>, ValueId)>,
    k: int,
)
    requires
        0 <= k <= fs.len(),
        ordered_fields(fs.subrange(0, k), vs) is Err,
    ensures
        ordered_fields(fs, vs) == ordered_fields(fs.subrange(0, k), vs),
    decreases fs.len() - k,
{
    if k == fs.len() {
        assert(fs.subrange(0, k) =~= fs);
    } else {
        assert(fs.subrange(0, k + 1).drop_last() =~= fs.subrange(0, k));
        lemma_ordered_error_stays(fs, vs, k + 1);
    }
}

// ---------------------------------------------------------------------------
// Extra entries
// ---------------------------------------------------------------------------

/// The error for an input entry that names no field of a model that
/// forbids extras, at the entry's name.
pub open spec fn extra_forbidden(name: Seq<char>) -> (Seq<DetailView>, bool) {
    (
        seq![
            DetailView {
                code: "extra_forbidden"@,
                location: seq![LocationStep::Field(name)],
                message: "Extra inputs are not permitted"@,
                expected: "declared model field"@,
                context: Seq::empty(),
            },
        ],
        false,
    )
}

/// Whether an entry index was consumed by a field.
pub open spec fn consumed_at(consumed: Seq<usize>, i: int) -> bool {
    consumed.contains(i as usize)
}

/// Whether an entry after `i` was not consumed.
pub open spec fn more_unconsumed(consumed: Seq<usize>, n: int, i: int) -> bool {
    exists|j: int| i < j < n && !consumed_at(consumed, j)
}

/// The errors and whether the run stopped, after the first `k` entries of
/// a model that forbids extras: each entry that no field consumed adds an
/// `extra_forbidden` error, and once the errors reach the limit the run
/// stops, marking them truncated when unconsumed entries remain.
pub open spec fn forbid_run(
    names: Seq<Seq<char>>,
    consumed: Seq<usize>,
    errors: Option<(Seq<DetailView>, bool)>,
    limit: usize,
    k: nat,
) -> (Option<(Seq<DetailView>, bool)>, bool)
    decreases k,
{
    if k == 0 {
        (errors, false)
    } else {
        let (prev, stopped) = forbid_run(names, consumed, errors, limit, (k - 1) as nat);
        let i = k - 1;
        if stopped || consumed_at(consumed, i) {
            (prev, stopped)
        } else {
            let after = collect_view(prev, extra_forbidden(names[i]), limit);
            let full = after matches Some(x) && x.0.len() >= limit;
            let has_more = more_unconsumed(consumed, names.len() as int, i);
            (
                match after {
                    Some(x) => Some((x.0, x.1 || (full && has_more))),
                    None => None,
                },
                full,
            )
        }
    }
}

pub(crate) fn is_consumed(consumed: &Vec<usize>, i: usize) -> (r: bool)
    ensures
        r == consumed@.contains(i),
{
    let mut k: usize = 0;
    while k < consumed.len()
        invariant
            k <= consumed@.len(),
            forall|j: int| 0 <= j < k ==> consumed@[j] != i,
        decreases consumed@.len() - k,
    {
        if consumed[k] == i {
            assert(consumed@[k as int] == i);
            return true;
        }
        k = k + 1;
    }
    false
}

pub(crate) fn has_more_unconsumed(consumed: &Vec<usize>, n: usize, i: usize) -> (r: bool)
    requires
        i < n,
    ensures
        r == more_unconsumed(consumed@, n as int, i as int),
{
    let mut j: usize = i + 1;
    while j < n
        invariant
            i < j <= n,
            forall|t: int| i < t < j ==> consumed_at(consumed@, t),
        decreases n - j,
    {
        if !is_consumed(consumed, j) {
            assert(!consumed_at(consumed@, j as int));
            return true;
        }
        j = j + 1;
    }
    false
}

/// Refuses the input entries that no field consumed, for a model that
/// forbids extras: each adds its `extra_forbidden` error at its name,
/// within the error limit, and the run stops once the limit is reached.
pub fn forbid_extra_entries(
    entries: &Vec<(String, InputId)>,
    consumed: &Vec<usize>,
    errors: &mut Option<ValidationError>,
    limit: usize,
)
    ensures
        errors_view(*final(errors)) == forbid_run(
            entries@.map_values(|e: (String, InputId)| e.0@),
            consumed@,
            errors_view(*old(errors)),
            limit,
            entries@.len(),
        ).0,
{
    let ghost names = entries@.map_values(|e: (String, InputId)| e.0@);
    let ghost start = errors_view(*errors);
    let mut i: usize = 0;
    while i < entries.len()
        invariant_except_break
            !forbid_run(names, consumed@, start, limit, i as nat).1,
        invariant
            i <= entries@.len(),
            names == entries@.map_values(|e: (String, InputId)| e.0@),
            errors_view(*errors) == forbid_run(names, consumed@, start, limit, i as nat).0,
        ensures
            errors_view(*errors) == forbid_run(names, consumed@, start, limit, entries@.len()).0,
        decreases entries@.len() - i,
    {
        if is_consumed(consumed, i) {
            i = i + 1;
            continue;
        }
        let detail = ErrorDetail::new("extra_forbidden", owned("Extra inputs are not permitted")).expected(
            owned("declared model field"),
        );
        let single = ValidationError::one(detail);
        let located = single.at(LocationItem::Field(owned(entries[i].0.as_str())));
        proof {
            assert(located@.0[0].location =~= seq![LocationStep::Field(names[i as int])]);
            assert(located@.0[0].context =~= Seq::<(Seq<char>, Seq<char>)>::empty());
            assert(located@.0 =~= extra_forbidden(names[i as int]).0);
        }
        collect_error(errors, located, limit);
        let more = has_more_unconsumed(consumed, entries.len(), i);
        let stop = stop_after_error_cap(errors, limit, more);
        proof {
            let next = forbid_run(names, consumed@, start, limit, (i + 1) as nat);
            if errors.is_some() {
                assert(next.0 matches Some(y) && y.0 =~= errors->Some_0@.0);
            }
        }
        i = i + 1;
        if stop {
            proof {
                lemma_forbid_stays(names, consumed@, start, limit, i as nat, entries@.len());
            }
            break;
        }
    }
}

proof fn lemma_forbid_stays(
    names: Seq<Seq<char>>,
    consumed: Seq<usize>,
    start: Option<(Seq<DetailView>, bool)>,
    limit: usize,
    m: nat,
    n: nat,
)
    requires
        m <= n,
        forbid_run(names, consumed, start, limit, m).1,
    ensures
        forbid_run(names, consumed, start, limit, n) == forbid_run(names, consumed, start, limit, m),
    decreases n - m,
{
    if m < n {
        lemma_forbid_stays(names, consumed, start, limit, m, (n - 1) as nat);
    }
}

} // verus!
