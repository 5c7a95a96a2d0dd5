use std::sync::atomic::{AtomicUsize, Ordering};
use std::sync::Arc;
use std::task::{Poll, Wake, Waker};

use borrow_mutex::atomic_waiter::{AtomicWaiter, PollStep, WakeStep};
use borrow_mutex::atomic_waker;
use borrow_mutex::atomic_waker::{AWOKEN, IDLING, REGISTERING, WAKING};

struct Counter(AtomicUsize);

impl Wake for Counter {
    fn wake(self: Arc<Self>) {
        self.0.fetch_add(1, Ordering::SeqCst);
    }
}

/// A waker, and how often it was woken.
fn counting_waker() -> (Arc<Counter>, Waker) {
    let counter = Arc::new(Counter(AtomicUsize::new(0)));
    (counter.clone(), Waker::from(counter))
}

fn count(counter: &Counter) -> usize {
    counter.0.load(Ordering::SeqCst)
}

#[test]
fn wake_before_poll_succeeds_once() {
    let (counter, waker) = counting_waker();
    let mut waiter = AtomicWaiter::new();
    waiter.wake();
    waiter.wake();
    assert_eq!(waiter.poll_const(&waker), Poll::Ready(()));
    assert_eq!(waiter.poll_const(&waker), Poll::Pending);
    assert_eq!(count(&counter), 0);
}

#[test]
fn wake_reaches_the_task_that_waits() {
    let (counter, waker) = counting_waker();
    let mut waiter = AtomicWaiter::default();
    assert_eq!(waiter.poll_const(&waker), Poll::Pending);
    assert_eq!(count(&counter), 0);
    waiter.wake();
    assert_eq!(count(&counter), 1);
    // not again before the next poll
    waiter.wake();
    assert_eq!(count(&counter), 1);
    assert_eq!(waiter.poll_const(&waker), Poll::Ready(()));
    assert_eq!(waiter.poll_const(&waker), Poll::Pending);
    waiter.wake();
    assert_eq!(count(&counter), 2);
}

#[test]
fn latest_task_is_woken() {
    let (first, first_waker) = counting_waker();
    let (second, second_waker) = counting_waker();
    let mut waiter = AtomicWaiter::new();
    assert_eq!(waiter.poll_const(&first_waker), Poll::Pending);
    assert_eq!(waiter.poll_const(&second_waker), Poll::Pending);
    waiter.wake();
    assert_eq!(count(&first), 0);
    assert_eq!(count(&second), 1);
}

#[test]
fn waiter_in_words() {
    let mut waiter = AtomicWaiter::new();
    assert_eq!(waiter.debug_text(), "AsyncCbStream { ready: false }");
    waiter.wake();
    assert_eq!(waiter.debug_text(), "AsyncCbStream { ready: true }");
}

/// A wake that comes between the first look at the flag and the registration is not lost.
#[test]
fn wake_in_the_middle_of_a_poll() {
    let (counter, waker) = counting_waker();
    let mut waiter = AtomicWaiter::new();
    let step = waiter.advance_poll(PollStep::Check, &waker);
    assert_eq!(step, PollStep::Register);
    waiter.wake();
    let step = waiter.advance_poll(step, &waker);
    assert_eq!(step, PollStep::Recheck);
    let step = waiter.advance_poll(step, &waker);
    assert_eq!(step, PollStep::Ready);
    assert_eq!(count(&counter), 0);
}

/// A poll that registers between the two accesses of a wake is told to go on by one of them.
#[test]
fn poll_in_the_middle_of_a_wake() {
    let (counter, waker) = counting_waker();
    let mut waiter = AtomicWaiter::new();
    let step = waiter.advance_wake(WakeStep::Mark);
    assert!(matches!(step, WakeStep::Take));
    assert_eq!(waiter.poll_const(&waker), Poll::Ready(()));
    assert_eq!(waiter.poll_const(&waker), Poll::Pending);
    let step = waiter.advance_wake(step);
    assert!(matches!(step, WakeStep::Notify { .. }));
    assert_eq!(count(&counter), 0);
    let step = waiter.advance_wake(step);
    assert!(matches!(step, WakeStep::Done));
    // a spurious wake, which does no harm
    assert_eq!(count(&counter), 1);
}

/// Two polls overlap, and one wake lets one of them succeed.
#[test]
fn one_wake_is_for_one_of_two_polls() {
    let (_, waker) = counting_waker();
    let mut waiter = AtomicWaiter::new();
    let first = waiter.advance_poll(PollStep::Check, &waker);
    let second = waiter.advance_poll(PollStep::Check, &waker);
    let first = waiter.advance_poll(first, &waker);
    waiter.wake();
    let second = waiter.advance_poll(second, &waker);
    assert_eq!(waiter.advance_poll(first, &waker), PollStep::Ready);
    assert_eq!(waiter.advance_poll(second, &waker), PollStep::Pending);
}

#[test]
fn cell_answers_an_earlier_wake() {
    let (counter, waker) = counting_waker();
    let mut cell: Option<Waker> = None;
    let mut state = IDLING;
    atomic_waker::wake(&mut cell, &mut state);
    assert_eq!(state, AWOKEN);
    assert_eq!(atomic_waker::poll_const(&mut cell, &mut state, &waker), Poll::Ready(()));
    assert_eq!(state, IDLING);
    assert!(cell.is_none());
    assert_eq!(count(&counter), 0);
}

#[test]
fn cell_wakes_the_task_that_waits() {
    let (first, first_waker) = counting_waker();
    let (second, second_waker) = counting_waker();
    let mut cell: Option<Waker> = None;
    let mut state = IDLING;
    assert_eq!(atomic_waker::poll_const(&mut cell, &mut state, &first_waker), Poll::Pending);
    assert_eq!(atomic_waker::poll_const(&mut cell, &mut state, &second_waker), Poll::Pending);
    assert_eq!(state, IDLING);
    atomic_waker::wake(&mut cell, &mut state);
    assert_eq!((count(&first), count(&second)), (0, 1));
    assert!(cell.is_none());
    // an unanswered wake is not repeated
    atomic_waker::wake(&mut cell, &mut state);
    assert_eq!(state, AWOKEN | WAKING);
    assert_eq!((count(&first), count(&second)), (0, 1));
    assert_eq!(atomic_waker::poll_const(&mut cell, &mut state, &first_waker), Poll::Ready(()));
    assert_eq!(state, IDLING);
}

#[test]
fn cell_leaves_other_polls_alone() {
    let (_, waker) = counting_waker();
    let mut cell: Option<Waker> = None;
    let mut state = REGISTERING;
    assert_eq!(atomic_waker::poll_const(&mut cell, &mut state, &waker), Poll::Pending);
    assert_eq!(state, REGISTERING);
    assert!(cell.is_none());
}

/// A poll that overlaps a wake waits for its end, and is the only one that answers it.
#[test]
fn one_wake_lets_one_poll_succeed() {
    let (counter, waker) = counting_waker();
    let mut cell: Option<Waker> = None;
    let mut state = IDLING;
    assert_eq!(atomic_waker::poll_const(&mut cell, &mut state, &waker), Poll::Pending);

    let wake = atomic_waker::WakeStep::Enter;
    let wake = atomic_waker::advance_wake(&mut cell, &mut state, wake);
    assert!(matches!(wake, atomic_waker::WakeStep::Take));
    let poll = atomic_waker::PollStep::Enter;
    let mut poll = atomic_waker::advance_poll(&mut cell, &mut state, poll, &waker);
    for _ in 0..5 {
        assert_eq!(poll, atomic_waker::PollStep::Await);
        poll = atomic_waker::advance_poll(&mut cell, &mut state, poll, &waker);
    }
    let wake = atomic_waker::advance_wake(&mut cell, &mut state, wake);
    let poll = atomic_waker::advance_poll(&mut cell, &mut state, poll, &waker);
    assert_eq!(poll, atomic_waker::PollStep::Await);
    let wake = atomic_waker::advance_wake(&mut cell, &mut state, wake);
    assert_eq!(state, AWOKEN);
    let poll = atomic_waker::advance_poll(&mut cell, &mut state, poll, &waker);
    assert_eq!(poll, atomic_waker::PollStep::Consume);
    let poll = atomic_waker::advance_poll(&mut cell, &mut state, poll, &waker);
    assert_eq!(poll, atomic_waker::PollStep::Ready);
    let wake = atomic_waker::advance_wake(&mut cell, &mut state, wake);
    assert!(matches!(wake, atomic_waker::WakeStep::Done));
    assert_eq!(count(&counter), 1);

    assert_eq!(atomic_waker::poll_const(&mut cell, &mut state, &waker), Poll::Pending);
    assert_eq!(state, IDLING);
}

#[test]
fn waiting_poll_follows_the_state() {
    assert_eq!(
        atomic_waker::PollStep::on_await(WAKING | REGISTERING),
        atomic_waker::PollStep::Await
    );
    assert_eq!(
        atomic_waker::PollStep::on_await(AWOKEN),
        atomic_waker::PollStep::Consume
    );
    assert_eq!(
        atomic_waker::PollStep::on_await(AWOKEN | WAKING),
        atomic_waker::PollStep::Consume
    );
    // another poll was faster
    assert_eq!(
        atomic_waker::PollStep::on_await(AWOKEN | REGISTERING),
        atomic_waker::PollStep::Pending
    );
    assert_eq!(
        atomic_waker::PollStep::on_await(IDLING),
        atomic_waker::PollStep::Register
    );
}

#[test]
fn cell_poll_sees_a_wake_that_comes_in_between() {
    let (counter, waker) = counting_waker();
    let mut cell: Option<Waker> = None;
    let mut state = IDLING;
    let step = atomic_waker::PollStep::Enter;
    let step = atomic_waker::advance_poll(&mut cell, &mut state, step, &waker);
    assert_eq!(step, atomic_waker::PollStep::Register);
    assert!(matches!(
        atomic_waker::advance_wake(&mut cell, &mut state, atomic_waker::WakeStep::Enter),
        atomic_waker::WakeStep::Done
    ));
    let step = atomic_waker::advance_poll(&mut cell, &mut state, step, &waker);
    assert_eq!(step, atomic_waker::PollStep::Leave);
    let step = atomic_waker::advance_poll(&mut cell, &mut state, step, &waker);
    assert_eq!(step, atomic_waker::PollStep::Ready);
    assert_eq!(state, IDLING);
    assert_eq!(count(&counter), 0);
}
