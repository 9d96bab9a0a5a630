use vstd::prelude::*;

use crate::error::{plain_error, type_error, ValidationError};
use crate::input::{InputArena, InputId, InputNode, InputValue, SequenceKind};
use crate::options::{InputProfile, ValidationOptions};

verus! {

/// Whether a sequence of `kind` may stand where a sequence of
/// `expected_kind` is expected: always in lax mode; in strict mode only the
/// same kind, or a JSON array under the JSON profile.
pub open spec fn sequence_accepted(kind: SequenceKind, expected_kind: SequenceKind, options: ValidationOptions) -> bool {
    !options.strict || match options.profile {
        InputProfile::Json => kind == SequenceKind::JsonArray,
        _ => kind == expected_kind,
    }
}

/// The error view that `sequence_input` answers for a node, or nothing when
/// it hands the node's items out.
pub open spec fn sequence_fault(
    node: Option<InputNode>,
    expected: Seq<char>,
    expected_kind: SequenceKind,
    options: ValidationOptions,
) -> Option<(Seq<crate::error::DetailView>, bool)> {
    match node {
        None => Some(plain_error("internal_input"@, "Input arena index is invalid"@, "valid input arena"@)),
        Some(InputNode::Sequence { kind, .. }) => if sequence_accepted(kind, expected_kind, options) {
            None
        } else {
            Some(plain_error("collection_type"@, "Native collection kind does not match the schema"@, expected))
        },
        Some(_) => Some(plain_error("collection_type"@, "Input must be a sequence"@, expected)),
    }
}

/// The node at an index of the arena, if the index is in range.
pub open spec fn node_at(input: &InputArena, id: InputId) -> Option<InputNode> {
    if id@ < input.spec_nodes().len() {
        Some(input.spec_nodes()[id@ as int])
    } else {
        None
    }
}

/// The children of a sequence input that a collection schema validates:
/// the items of the sequence at `input_id` when its kind is accepted, and
/// otherwise the error of `sequence_fault`.
pub fn sequence_input(
    input: &InputArena,
    input_id: InputId,
    expected: &'static str,
    expected_kind: SequenceKind,
    options: ValidationOptions,
) -> (r: Result<Vec<InputId>, ValidationError>)
    ensures
        match sequence_fault(node_at(input, input_id), expected@, expected_kind, options) {
            None => r is Ok,
            Some(view) => r matches Err(e) && e@ == view,
        },
        r matches Ok(items) ==> node_at(input, input_id) matches Some(InputNode::Sequence { items: ids, .. })
            && items@.map_values(|id: InputId| id@) == ids,
{
    match input.get(input_id) {
        Some(InputValue::Sequence { kind, items }) => {
            let accepted = !options.strict || match options.profile {
                InputProfile::Json => *kind == SequenceKind::JsonArray,
                _ => *kind == expected_kind,
            };
            if accepted {
                let mut copied: Vec<InputId> = Vec::new();
                let mut i: usize = 0;
                while i < items.len()
                    invariant
                        i <= items.len(),
                        copied@ == items@.subrange(0, i as int),
                    decreases items.len() - i,
                {
                    copied.push(items[i]);
                    i += 1;
                }
                proof {
                    assert(copied@ =~= items@);
                }
                Ok(copied)
            } else {
                Err(type_error("collection_type", "Native collection kind does not match the schema", expected))
            }
        },
        Some(_) => Err(type_error("collection_type", "Input must be a sequence", expected)),
        None => Err(type_error("internal_input", "Input arena index is invalid", "valid input arena")),
    }
}

/// Whether the collected errors have reached the error limit; when they
/// have and more children remain, the errors are marked as truncated.
pub fn stop_after_error_cap(errors: &mut Option<ValidationError>, limit: usize, has_more: bool) -> (r: bool)
    ensures
        r == (*old(errors) matches Some(e) && e@.0.len() >= limit),
        (*final(errors) is Some) <==> (*old(errors) is Some),
        *final(errors) matches Some(after) ==> *old(errors) matches Some(before) && after@.0 == before@.0
            && after@.1 == (before@.1 || (r && has_more)),
{
    let full = match errors {
        Some(error) => error.is_full(limit),
        None => false,
    };
    if full && has_more {
        if let Some(error) = errors {
            error.mark_truncated();
        }
    }
    full
}

} // verus!
