use vstd::prelude::*;

verus! {

/// A bounded counter: a value and the limit it may not exceed.
#[derive(Debug, Clone, Copy, PartialEq, Eq)]
pub struct Counter {
    pub value: u32,
    pub limit: u32,
}

impl Counter {
    /// The zero counter with the given limit.
    pub fn new(limit: u32) -> (counter: Self)
        ensures
            counter == (Counter { value: 0, limit }),
    {
        Counter { value: 0, limit }
    }
}

/// An event for the counter.
#[derive(Debug, Clone, Copy)]
pub enum Event {
    Add(u32),
    Reset,
}

/// Why an event was rejected.
#[derive(Debug, Clone, Copy, PartialEq, Eq)]
pub enum TransitionError {
    Overflow,
    LimitExceeded,
}

/// The transition: an addition that overflows `u32` or passes the limit is
/// rejected with the unchanged state; reset returns to zero.
pub open spec fn spec_transition(state: Counter, event: Event) -> Result<(u32, Counter), (TransitionError, Counter)> {
    let next_value: int = match event {
        Event::Reset => 0,
        Event::Add(amount) => state.value + amount,
    };
    if next_value > u32::MAX {
        Err((TransitionError::Overflow, state))
    } else if next_value > state.limit {
        Err((TransitionError::LimitExceeded, state))
    } else {
        Ok((next_value as u32, Counter { value: next_value as u32, ..state }))
    }
}

/// Applies an event. Success returns the new value and state; rejection
/// returns the reason and the unchanged state.
pub fn transition(state: Counter, event: Event) -> (result: Result<(u32, Counter), (TransitionError, Counter)>)
    ensures
        result == spec_transition(state, event),
{
    let next_value = match event {
        Event::Reset => 0,
        Event::Add(amount) => match state.value.checked_add(amount) {
            Some(value) => value,
            None => return Err((TransitionError::Overflow, state)),
        },
    };
    if next_value > state.limit {
        return Err((TransitionError::LimitExceeded, state));
    }
    let next = Counter { value: next_value, ..state };
    Ok((next_value, next))
}

/// Every accepted transition keeps the limit, and ends within it.
pub proof fn law_transition_keeps_the_bound(state: Counter, event: Event)
    ensures
        spec_transition(state, event) matches Ok((value, next)) ==> next.value == value && value
            <= next.limit && next.limit == state.limit,
{
}

/// A rejected event leaves the state unchanged.
pub proof fn law_rejection_keeps_the_state(state: Counter, event: Event)
    ensures
        spec_transition(state, event) matches Err((_, kept)) ==> kept == state,
{
}

/// Adding zero to a counter within its limit changes nothing.
pub proof fn law_add_zero_is_identity(state: Counter)
    requires
        state.value <= state.limit,
    ensures
        spec_transition(state, Event::Add(0)) == Ok::<(u32, Counter), (TransitionError, Counter)>(
            (state.value, state),
        ),
{
}

/// Reset returns to the zero state for the same limit.
pub proof fn law_reset_returns_to_zero(state: Counter)
    ensures
        spec_transition(state, Event::Reset) == Ok::<(u32, Counter), (TransitionError, Counter)>(
            (0, Counter { value: 0, limit: state.limit }),
        ),
{
}

} // verus!
