use vstd::prelude::*;

verus! {

/// Where a dependent two-stage composition stands.
#[derive(Debug, Clone, Copy, PartialEq, Eq)]
pub enum StageState {
    /// The first stage has not produced its result yet.
    AwaitingFirst,
    /// The continuation has built the second stage, which has not finished.
    AwaitingSecond,
    /// The composition has produced its result.
    Finished,
}

/// What polling a stage reported.
#[derive(Debug, PartialEq, Eq)]
pub enum Progress<T> {
    Pending,
    Ready(T),
}

/// What the driver observed: the outcome of polling the current stage.
#[derive(Debug, PartialEq, Eq)]
pub enum StageEvent<A, B, E> {
    FirstPolled(Progress<Result<A, E>>),
    SecondPolled(Progress<Result<B, E>>),
}

/// What the driver must do next.
#[derive(Debug, PartialEq, Eq)]
pub enum StageAction<A, B, E> {
    /// Report that the composition is pending.
    Wait,
    /// Call the continuation once with this value and start polling the
    /// stage it returns.
    Continue(A),
    /// Report this result; the composition is complete.
    Complete(Result<B, E>),
}

/// Whether an event can occur in a state: the first stage is polled only
/// before it finishes, the second only after the continuation ran.
pub open spec fn event_fits<A, B, E>(state: StageState, event: StageEvent<A, B, E>) -> bool {
    match (state, event) {
        (StageState::AwaitingFirst, StageEvent::FirstPolled(_)) => true,
        (StageState::AwaitingSecond, StageEvent::SecondPolled(_)) => true,
        _ => false,
    }
}

/// The transition: a pending stage waits; a successful first stage hands
/// its value to the continuation; a failed first stage completes with its
/// error without running the continuation; a finished second stage
/// completes with its result.
pub open spec fn spec_stage_step<A, B, E>(state: StageState, event: StageEvent<A, B, E>) -> (
    StageState,
    StageAction<A, B, E>,
) {
    match event {
        StageEvent::FirstPolled(Progress::Pending) => (StageState::AwaitingFirst, StageAction::Wait),
        StageEvent::FirstPolled(Progress::Ready(Ok(value))) => (
            StageState::AwaitingSecond,
            StageAction::Continue(value),
        ),
        StageEvent::FirstPolled(Progress::Ready(Err(error))) => (
            StageState::Finished,
            StageAction::Complete(Err(error)),
        ),
        StageEvent::SecondPolled(Progress::Pending) => (
            StageState::AwaitingSecond,
            StageAction::Wait,
        ),
        StageEvent::SecondPolled(Progress::Ready(result)) => (
            StageState::Finished,
            StageAction::Complete(result),
        ),
    }
}

/// Decides the next state and action of `first`, then `next(value)`:
/// await the first result, propagate its rejection, and use its value to
/// construct the second stage.
pub fn and_then_step<A, B, E>(state: StageState, event: StageEvent<A, B, E>) -> (next: (
    StageState,
    StageAction<A, B, E>,
))
    requires
        event_fits(state, event),
    ensures
        next == spec_stage_step(state, event),
{
    match event {
        StageEvent::FirstPolled(Progress::Pending) => (StageState::AwaitingFirst, StageAction::Wait),
        StageEvent::FirstPolled(Progress::Ready(Ok(value))) => (
            StageState::AwaitingSecond,
            StageAction::Continue(value),
        ),
        StageEvent::FirstPolled(Progress::Ready(Err(error))) => (
            StageState::Finished,
            StageAction::Complete(Err(error)),
        ),
        StageEvent::SecondPolled(Progress::Pending) => (
            StageState::AwaitingSecond,
            StageAction::Wait,
        ),
        StageEvent::SecondPolled(Progress::Ready(result)) => (
            StageState::Finished,
            StageAction::Complete(result),
        ),
    }
}

/// How many times the continuation runs when the events are fed in order
/// from `state`, stopping at the first event that does not fit.
pub open spec fn continuations<A, B, E>(state: StageState, events: Seq<StageEvent<A, B, E>>) -> nat
    decreases events.len(),
{
    if events.len() == 0 || !event_fits(state, events[0]) {
        0
    } else {
        let (next, action) = spec_stage_step(state, events[0]);
        (if action is Continue {
            1nat
        } else {
            0nat
        }) + continuations(next, events.drop_first())
    }
}

/// Once the continuation has run, or the composition has finished, it never
/// runs again.
pub proof fn law_no_continuation_after_first<A, B, E>(
    state: StageState,
    events: Seq<StageEvent<A, B, E>>,
)
    requires
        state != StageState::AwaitingFirst,
    ensures
        continuations(state, events) == 0,
    decreases events.len(),
{
    if events.len() > 0 && event_fits(state, events[0]) {
        let (next, _) = spec_stage_step(state, events[0]);
        law_no_continuation_after_first(next, events.drop_first());
    }
}

/// Whatever the polling schedule, the continuation runs at most once.
pub proof fn law_continuation_at_most_once<A, B, E>(events: Seq<StageEvent<A, B, E>>)
    ensures
        continuations(StageState::AwaitingFirst, events) <= 1,
    decreases events.len(),
{
    if events.len() > 0 && event_fits(StageState::AwaitingFirst, events[0]) {
        let (next, action) = spec_stage_step(StageState::AwaitingFirst, events[0]);
        if next == StageState::AwaitingFirst {
            law_continuation_at_most_once(events.drop_first());
        } else {
            law_no_continuation_after_first(next, events.drop_first());
        }
    }
}

/// The continuation runs only on a successful first result, and a rejected
/// first result completes the composition with that rejection.
pub proof fn law_continuation_only_after_success<A, B, E>(
    progress: Progress<Result<A, E>>,
)
    ensures
        spec_stage_step::<A, B, E>(StageState::AwaitingFirst, StageEvent::FirstPolled(progress)).1 is Continue
            <==> progress matches Progress::Ready(Ok(_)),
        progress matches Progress::Ready(Err(e)) ==> spec_stage_step::<A, B, E>(
            StageState::AwaitingFirst,
            StageEvent::FirstPolled(progress),
        ) == (StageState::Finished, StageAction::<A, B, E>::Complete(Err(e))),
{
}

/// A pending poll of the current stage waits and keeps the state, so that
/// stage is polled again; the composition is finished exactly when it
/// completes with a result, and a finished second stage completes with
/// exactly its result.
pub proof fn law_pending_waits_and_finishing_completes<A, B, E>(
    state: StageState,
    event: StageEvent<A, B, E>,
)
    requires
        event_fits(state, event),
    ensures
        (event matches StageEvent::FirstPolled(Progress::Pending) || event matches StageEvent::SecondPolled(Progress::Pending))
            ==> spec_stage_step(state, event) == (state, StageAction::<A, B, E>::Wait),
        (spec_stage_step(state, event).0 == StageState::Finished) <==> (spec_stage_step(state, event).1 is Complete),
        spec_stage_step(state, event).0 != state ==> !(spec_stage_step(state, event).1 is Wait),
        event matches StageEvent::SecondPolled(Progress::Ready(result)) ==> spec_stage_step(state, event).1
            == StageAction::<A, B, E>::Complete(result),
{
}

/// A stage that is pending on its first poll, asking to be polled again,
/// and then yields its value.
#[derive(Debug, Clone, Copy, PartialEq, Eq)]
pub struct PendingOnce {
    pub waited: bool,
    pub value: u32,
}

impl PendingOnce {
    /// One poll: the first one reports pending and requests a wake-up; every
    /// later one yields the value and requests nothing. The second component
    /// of the result is the wake-up request.
    pub fn poll(&mut self) -> (step: (Progress<Result<u32, &'static str>>, bool))
        ensures
            final(self).waited,
            final(self).value == old(self).value,
            old(self).waited ==> step == (Progress::Ready(Ok::<u32, &'static str>(old(self).value)), false),
            !old(self).waited ==> step == (Progress::<Result<u32, &'static str>>::Pending, true),
    {
        if self.waited {
            (Progress::Ready(Ok(self.value)), false)
        } else {
            self.waited = true;
            (Progress::Pending, true)
        }
    }
}

} // verus!
