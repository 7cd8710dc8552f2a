use vstd::prelude::*;
use std::collections::VecDeque;

verus! {

/// The state action that returns `value` and leaves the state unchanged.
pub fn state_pure<S, A>(value: A) -> (action: impl FnOnce(S) -> (A, S))
    ensures
        forall|s: S| action.requires((s,)),
        forall|s: S, out: (A, S)| action.ensures((s,), out) ==> out == (value, s),
{
    move |state: S| -> (out: (A, S))
        ensures
            out == (value, state),
        { (value, state) }
}

/// Runs `program`, then transforms its result; the resulting state is the
/// program's.
pub fn map_state<S, A, B, P: FnOnce(S) -> (A, S), F: FnOnce(A) -> B>(program: P, transform: F) -> (action:
    impl FnOnce(S) -> (B, S))
    requires
        forall|s: S| program.requires((s,)),
        forall|a: A| transform.requires((a,)),
    ensures
        forall|s: S| action.requires((s,)),
        forall|s: S, out: (B, S)|
            action.ensures((s,), out) ==> exists|first: (A, S)|
                program.ensures((s,), first) && transform.ensures((first.0,), out.0) && out.1
                    == first.1,
{
    move |state: S| -> (out: (B, S))
        requires
            program.requires((state,)),
            forall|a: A| transform.requires((a,)),
        ensures
            exists|first: (A, S)|
                program.ensures((state,), first) && transform.ensures((first.0,), out.0) && out.1
                    == first.1,
        {
            let first = program(state);
            let (value, next_state) = first;
            (transform(value), next_state)
        }
}

/// Runs `program`, chooses the next action from its result, and runs that
/// action on the state that `program` returned.
pub fn and_then_state<S, A, B, P: FnOnce(S) -> (A, S), F: FnOnce(A) -> Q, Q: FnOnce(S) -> (B, S)>(
    program: P,
    next: F,
) -> (action: impl FnOnce(S) -> (B, S))
    requires
        forall|s: S| program.requires((s,)),
        forall|a: A| next.requires((a,)),
        forall|a: A, q: Q, s: S| next.ensures((a,), q) ==> q.requires((s,)),
    ensures
        forall|s: S| action.requires((s,)),
        forall|s: S, out: (B, S)|
            action.ensures((s,), out) ==> exists|first: (A, S), q: Q|
                program.ensures((s,), first) && next.ensures((first.0,), q) && q.ensures(
                    (first.1,),
                    out,
                ),
{
    move |state: S| -> (out: (B, S))
        requires
            program.requires((state,)),
            forall|a: A| next.requires((a,)),
            forall|a: A, q: Q, s: S| next.ensures((a,), q) ==> q.requires((s,)),
        ensures
            exists|first: (A, S), q: Q|
                program.ensures((state,), first) && next.ensures((first.0,), q) && q.ensures(
                    (first.1,),
                    out,
                ),
        {
            let first = program(state);
            let (value, next_state) = first;
            let q = next(value);
            q(next_state)
        }
}

/// Takes the front element of a queue and returns it with the rest.
pub fn pop_front(queue: VecDeque<String>) -> (popped: (Option<String>, VecDeque<String>))
    ensures
        queue@.len() == 0 ==> popped.0 is None && popped.1@ == queue@,
        queue@.len() > 0 ==> popped.0 == Some(queue@[0]) && popped.1@ == queue@.drop_first(),
{
    let mut queue = queue;
    let value = queue.pop_front();
    (value, queue)
}

/// Maps each input with a step that also threads a state, keeping every
/// output and returning the final state.
pub fn map_accum<S, I, B, F: Fn(S, I) -> (B, S)>(initial: S, input: Vec<I>, step: F) -> (result: (
    Vec<B>,
    S,
))
    requires
        forall|s: S, i: I| step.requires((s, i)),
    ensures
        result.0@.len() == input@.len(),
        exists|states: Seq<S>|
            {
                &&& states.len() == input@.len() + 1
                &&& states[0] == initial
                &&& states.last() == result.1
                &&& forall|k: int|
                    0 <= k < input@.len() ==> step.ensures(
                        (#[trigger] states[k], input@[k]),
                        (result.0@[k], states[k + 1]),
                    )
            },
{
    let ghost original = input@;
    let mut state = initial;
    let mut output: Vec<B> = Vec::new();
    let ghost mut states: Seq<S> = seq![initial];
    for item in it: input.into_iter()
        invariant
            it.seq() == original,
            output@.len() == it.index(),
            states.len() == it.index() + 1,
            states[0] == initial,
            states.last() == state,
            forall|s: S, i: I| step.requires((s, i)),
            forall|k: int|
                0 <= k < it.index() ==> step.ensures(
                    (#[trigger] states[k], original[k]),
                    (output@[k], states[k + 1]),
                ),
    {
        let (value, next_state) = step(state, item);
        proof {
            states = states.push(next_state);
        }
        output.push(value);
        state = next_state;
    }
    (output, state)
}

/// One step of running parity: the new parity is both the output and the
/// next state.
pub fn parity_step(state: bool, input: bool) -> (step: (bool, bool))
    ensures
        step == (state != input, state != input),
{
    let next = state ^ input;
    (next, next)
}

/// The parity of the inputs so far: true when an odd number of them are
/// true.
pub open spec fn prefix_parity(inputs: Seq<bool>) -> bool
    decreases inputs.len(),
{
    if inputs.len() == 0 {
        false
    } else {
        prefix_parity(inputs.drop_last()) != inputs.last()
    }
}

/// Starting from `false`, applies `parity_step` to each input and emits its
/// first component: one output per input, the running parity.
pub fn running_parity<const N: usize>(input: [bool; N]) -> (outputs: std::vec::IntoIter<bool>)
    ensures
        vstd::std_specs::vec::into_iter_elts(outputs).len() == N,
        forall|i: int|
            0 <= i < N ==> #[trigger] vstd::std_specs::vec::into_iter_elts(outputs)[i]
                == prefix_parity(input@.take(i + 1)),
{
    let mut state = false;
    let mut collected: Vec<bool> = Vec::new();
    let mut i: usize = 0;
    assert(input@.take(0) =~= Seq::<bool>::empty());
    while i < N
        invariant
            i <= N,
            input@.len() == N,
            collected@.len() == i,
            state == prefix_parity(input@.take(i as int)),
            forall|k: int| 0 <= k < i ==> #[trigger] collected@[k] == prefix_parity(input@.take(k + 1)),
        decreases N - i,
    {
        let (output, next) = parity_step(state, input[i]);
        assert(input@.take(i + 1).drop_last() =~= input@.take(i as int));
        collected.push(output);
        state = next;
        i = i + 1;
    }
    collected.into_iter()
}

} // verus!
