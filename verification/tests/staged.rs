use std::cell::Cell;
use std::future::{ready, Future};
use std::pin::Pin;
use std::rc::Rc;
use std::sync::Arc;
use std::task::{Context, Poll, Wake, Waker};

use functional_rust::staged::{self, and_then_step, Progress, StageAction, StageEvent, StageState};

/// Drives the library's decisions with `.await`, as the application does.
async fn and_then_async<A, B, E, First, Next, Second>(first: First, next: Next) -> Result<B, E>
where
    First: Future<Output = Result<A, E>>,
    Next: FnOnce(A) -> Second,
    Second: Future<Output = Result<B, E>>,
{
    let first_result = first.await;
    match and_then_step(
        StageState::AwaitingFirst,
        StageEvent::FirstPolled(Progress::Ready(first_result)),
    ) {
        (_, StageAction::Continue(value)) => {
            let second_result = next(value).await;
            match and_then_step(
                StageState::AwaitingSecond,
                StageEvent::<A, B, E>::SecondPolled(Progress::Ready(second_result)),
            ) {
                (_, StageAction::Complete(result)) => result,
                _ => unreachable!(),
            }
        }
        (_, StageAction::Complete(result)) => result,
        (_, StageAction::Wait) => unreachable!(),
    }
}

struct ReadyFixtureWake;

impl Wake for ReadyFixtureWake {
    fn wake(self: Arc<Self>) {}
}

/// The library's pending-once stage behind the `Future` trait.
struct PendingOnce(staged::PendingOnce);

impl Future for PendingOnce {
    type Output = Result<u32, &'static str>;

    fn poll(mut self: Pin<&mut Self>, context: &mut Context<'_>) -> Poll<Self::Output> {
        let (progress, wake) = self.0.poll();
        if wake {
            context.waker().wake_by_ref();
        }
        match progress {
            Progress::Ready(result) => Poll::Ready(result),
            Progress::Pending => Poll::Pending,
        }
    }
}

#[test]
fn pending_stages_preserve_order_and_call_the_continuation_once() {
    let calls = Cell::new(0);
    let future = and_then_async(
        PendingOnce(staged::PendingOnce {
            waited: false,
            value: 7,
        }),
        |value| {
            calls.set(calls.get() + 1);
            PendingOnce(staged::PendingOnce {
                waited: false,
                value: value * 2,
            })
        },
    );
    let waker = Waker::from(Arc::new(ReadyFixtureWake));
    let mut context = Context::from_waker(&waker);
    let mut future = Box::pin(future);
    assert_eq!(future.as_mut().poll(&mut context), Poll::Pending);
    assert_eq!(calls.get(), 0);
    assert_eq!(future.as_mut().poll(&mut context), Poll::Pending);
    assert_eq!(calls.get(), 1);
    assert_eq!(future.as_mut().poll(&mut context), Poll::Ready(Ok(14)));
    assert_eq!(calls.get(), 1);
}

struct PendingResource(Rc<Cell<bool>>);

impl Future for PendingResource {
    type Output = Result<u32, &'static str>;

    fn poll(self: Pin<&mut Self>, _: &mut Context<'_>) -> Poll<Self::Output> {
        Poll::Pending
    }
}

impl Drop for PendingResource {
    fn drop(&mut self) {
        self.0.set(true);
    }
}

#[test]
fn cancellation_drops_the_owned_pending_input_without_running_the_next_stage() {
    let dropped = Rc::new(Cell::new(false));
    let calls = Cell::new(0);
    let future = and_then_async(PendingResource(Rc::clone(&dropped)), |value| {
        calls.set(calls.get() + 1);
        ready(Ok(value))
    });
    let waker = Waker::from(Arc::new(ReadyFixtureWake));
    let mut context = Context::from_waker(&waker);
    let mut future = Box::pin(future);
    assert_eq!(future.as_mut().poll(&mut context), Poll::Pending);
    drop(future);
    assert!(dropped.get());
    assert_eq!(calls.get(), 0);
}

#[test]
fn ready_stages_compose_and_rejection_skips_the_continuation() {
    let waker = Waker::from(Arc::new(ReadyFixtureWake));
    let mut context = Context::from_waker(&waker);

    let successful = and_then_async(ready(Ok::<u32, &str>(7)), |value| {
        ready(Ok(value.to_string()))
    });
    let mut successful = Box::pin(successful);
    assert_eq!(
        successful.as_mut().poll(&mut context),
        Poll::Ready(Ok(String::from("7"))),
    );

    let calls = Cell::new(0);
    let rejected = and_then_async(ready(Err::<u32, &str>("rejected")), |value| {
        calls.set(calls.get() + 1);
        ready(Ok(value))
    });
    let mut rejected = Box::pin(rejected);
    assert_eq!(
        rejected.as_mut().poll(&mut context),
        Poll::Ready(Err("rejected")),
    );
    drop(rejected);
    assert_eq!(calls.get(), 0);
}

#[test]
fn the_step_function_follows_the_stage_protocol() {
    let wait: (StageState, StageAction<u32, u32, &str>) =
        and_then_step(StageState::AwaitingFirst, StageEvent::FirstPolled(Progress::Pending));
    assert_eq!(wait, (StageState::AwaitingFirst, StageAction::Wait));
    let next: (StageState, StageAction<u32, u32, &str>) = and_then_step(
        StageState::AwaitingFirst,
        StageEvent::FirstPolled(Progress::Ready(Ok(7))),
    );
    assert_eq!(next, (StageState::AwaitingSecond, StageAction::Continue(7)));
    let failed: (StageState, StageAction<u32, u32, &str>) = and_then_step(
        StageState::AwaitingFirst,
        StageEvent::FirstPolled(Progress::Ready(Err("no"))),
    );
    assert_eq!(failed, (StageState::Finished, StageAction::Complete(Err("no"))));
    let done: (StageState, StageAction<u32, u32, &str>) = and_then_step(
        StageState::AwaitingSecond,
        StageEvent::SecondPolled(Progress::Ready(Ok(14))),
    );
    assert_eq!(done, (StageState::Finished, StageAction::Complete(Ok(14))));
}
