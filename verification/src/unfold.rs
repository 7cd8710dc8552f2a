use vstd::prelude::*;

verus! {

/// Produces the next item of an unfold. `state` holds the state to continue
/// from, or nothing once production has ended. A step that ends production
/// leaves no state behind, so every later request yields nothing as well.
pub fn unfold_next<S, A, F: FnOnce(S) -> Option<(A, S)>>(state: &mut Option<S>, step: F) -> (item: Option<A>)
    requires
        *old(state) matches Some(current) ==> step.requires((current,)),
    ensures
        match *old(state) {
            None => item is None && *final(state) is None,
            Some(current) => match item {
                None => *final(state) is None && step.ensures((current,), None),
                Some(produced) => (*final(state) matches Some(next) && step.ensures((current,), Some((produced, next)))),
            },
        },
{
    match state.take() {
        None => None,
        Some(current) => match step(current) {
            None => None,
            Some((produced, next)) => {
                *state = Some(next);
                Some(produced)
            },
        },
    }
}

} // verus!
