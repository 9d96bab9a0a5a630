use vstd::prelude::*;

use crate::constraints::schema_error;
use crate::error::{plain_error, DetailView, ValidationError};

verus! {

/// One step handed to a typed chain: a chain, whose steps are spliced in,
/// or any other step.
pub enum ChainPart<S> {
    Nested(Vec<S>),
    Single(S),
}

/// What building a typed chain gives: the one step itself, when only one
/// remains, or a chain of the steps.
pub enum ChainShape<S> {
    One(S),
    Many(Vec<S>),
}

/// The steps of the parts in order, with nested chains spliced in.
pub open spec fn spliced<S>(parts: Seq<ChainPart<S>>) -> Seq<S>
    decreases parts.len(),
{
    if parts.len() == 0 {
        Seq::empty()
    } else {
        spliced(parts.drop_last()) + match parts.last() {
            ChainPart::Nested(steps) => steps@,
            ChainPart::Single(step) => seq![step],
        }
    }
}

/// The error for a typed chain with no step.
pub open spec fn empty_chain() -> (Seq<DetailView>, bool) {
    plain_error("schema_invalid"@, "A typed chain must contain at least one step"@, "nonempty typed chain"@)
}

/// Builds a typed chain from its parts: nested chains are spliced in, a
/// chain of one step is that step, and a chain of no step is refused.
pub fn build_chain<S>(parts: Vec<ChainPart<S>>) -> (r: Result<ChainShape<S>, ValidationError>)
    ensures
        spliced(parts@).len() == 0 ==> (r matches Err(e) && e@ == empty_chain()),
        spliced(parts@).len() == 1 ==> (r matches Ok(ChainShape::One(step)) && step == spliced(parts@)[0]),
        spliced(parts@).len() >= 2 ==> (r matches Ok(ChainShape::Many(steps)) && steps@ == spliced(parts@)),
{
    let ghost all = parts@;
    let mut parts = parts;
    let mut flat: Vec<S> = Vec::new();
    let mut rest: Vec<ChainPart<S>> = Vec::new();
    // Take the parts from the back, then splice them in order.
    while parts.len() > 0
        invariant
            all == parts@ + rest@.reverse(),
        decreases parts@.len(),
    {
        let part = parts.pop().unwrap();
        let ghost before = rest@;
        rest.push(part);
        proof {
            assert(rest@.reverse() =~= seq![part] + before.reverse());
            assert(all =~= parts@ + rest@.reverse());
        }
    }
    proof {
        assert(all =~= rest@.reverse());
    }
    let ghost taken: Seq<ChainPart<S>> = Seq::empty();
    while rest.len() > 0
        invariant
            all == taken + rest@.reverse(),
            flat@ == spliced(taken),
        decreases rest@.len(),
    {
        let part = rest.pop().unwrap();
        let ghost before = flat@;
        proof {
            assert(rest@.push(part).reverse() =~= seq![part] + rest@.reverse());
            assert(all =~= taken.push(part) + rest@.reverse());
            assert(taken.push(part).drop_last() =~= taken);
        }
        match part {
            ChainPart::Nested(steps) => {
                let mut steps = steps;
                flat.append(&mut steps);
            },
            ChainPart::Single(step) => {
                flat.push(step);
            },
        }
        proof {
            taken = taken.push(part);
            assert(flat@ =~= spliced(taken));
        }
    }
    proof {
        assert(all =~= taken);
    }
    if flat.len() == 0 {
        Err(schema_error("A typed chain must contain at least one step", "nonempty typed chain"))
    } else if flat.len() == 1 {
        let step = flat.pop().unwrap();
        Ok(ChainShape::One(step))
    } else {
        Ok(ChainShape::Many(flat))
    }
}

} // verus!
