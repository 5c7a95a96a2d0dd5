use std::sync::atomic::{AtomicUsize, Ordering};
use std::sync::Arc;
use std::task::{Poll, Wake, Waker};

use borrow_mutex::borrow_mutex::steps::{
    LendStep, LenderStep, OfferStep, ReleaseStep, RequestOp, RequestStep, TakeBackStep,
    TerminateStep,
};
use borrow_mutex::borrow_mutex::UnarmedState;
use borrow_mutex::{
    BorrowMutex, BorrowMutexAbort, BorrowMutexError, BorrowMutexGuardArmed,
    BorrowMutexGuardUnarmed,
};

type Mutex = BorrowMutex<16, &'static str>;

struct Counter(AtomicUsize);

impl Wake for Counter {
    fn wake(self: Arc<Self>) {
        self.0.fetch_add(1, Ordering::SeqCst);
    }
}

fn counting_waker() -> (Arc<Counter>, Waker) {
    let counter = Arc::new(Counter(AtomicUsize::new(0)));
    (counter.clone(), Waker::from(counter))
}

fn count(counter: &Counter) -> usize {
    counter.0.load(Ordering::SeqCst)
}

fn noop() -> Waker {
    futures::task::noop_waker()
}

/// A request that is queued.
fn queue<const M: usize, T: Copy>(mutex: &mut BorrowMutex<M, T>) -> BorrowMutexGuardUnarmed {
    let mut request = mutex.request_borrow();
    assert!(matches!(request.poll(mutex, &noop()), Poll::Pending));
    request
}

fn armed<const M: usize, T: Copy>(
    request: &mut BorrowMutexGuardUnarmed,
    mutex: &mut BorrowMutex<M, T>,
) -> BorrowMutexGuardArmed<T> {
    match request.poll(mutex, &noop()) {
        Poll::Ready(Ok(guard)) => guard,
        _ => panic!("the reference was not handed over"),
    }
}

fn error<const M: usize, T: Copy>(
    request: &mut BorrowMutexGuardUnarmed,
    mutex: &mut BorrowMutex<M, T>,
) -> BorrowMutexError {
    match request.poll(mutex, &noop()) {
        Poll::Ready(Err(error)) => error,
        _ => panic!("the request did not fail"),
    }
}

#[test]
fn reference_goes_round() {
    let (borrower, borrower_waker) = counting_waker();
    let (lender, lender_waker) = counting_waker();
    let mut mutex = Mutex::new();
    let mut wait = mutex.wait_to_lend();
    assert_eq!(wait.poll(&mut mutex, &lender_waker), Poll::Pending);

    let mut request = mutex.request_borrow();
    assert_eq!(count(&lender), 0);
    assert!(matches!(request.poll(&mut mutex, &borrower_waker), Poll::Pending));
    assert_eq!(count(&lender), 1);
    assert_eq!(wait.poll(&mut mutex, &lender_waker), Poll::Ready(()));

    assert_eq!(mutex.debug_text(), "BorrowMutex { available_for_borrow: false }");
    let mut lend = wait.lend(&mut mutex, "value").unwrap().unwrap();
    assert_eq!(mutex.debug_text(), "BorrowMutex { available_for_borrow: true }");
    assert_eq!(count(&borrower), 0);
    // the reference is offered by the first poll
    assert!(matches!(request.poll(&mut mutex, &borrower_waker), Poll::Pending));
    assert_eq!(lend.poll(&mut mutex, &lender_waker), Poll::Pending);
    assert_eq!(count(&borrower), 1);

    let guard = armed(&mut request, &mut mutex);
    assert_eq!(guard.get(), "value");
    request.drop(&mut mutex);
    assert_eq!(lend.poll(&mut mutex, &lender_waker), Poll::Pending);
    assert_eq!(count(&lender), 1);

    guard.drop(&mut mutex);
    assert_eq!(count(&lender), 2);
    assert_eq!(lend.poll(&mut mutex, &lender_waker), Poll::Ready(()));
    assert_eq!(lend.drop(&mut mutex), Ok(()));
    assert_eq!(mutex.debug_text(), "BorrowMutex { available_for_borrow: false }");
    assert_eq!(mutex.wait_to_lend().poll(&mut mutex, &lender_waker), Poll::Pending);
}

#[test]
fn as_many_requests_as_named_can_be_pending() {
    let mut mutex = Mutex::new();
    let mut requests: Vec<BorrowMutexGuardUnarmed> = Vec::new();
    for _ in 0..16 {
        requests.push(queue(&mut mutex));
    }
    let mut refused = mutex.request_borrow();
    assert_eq!(error(&mut refused, &mut mutex), BorrowMutexError::TooManyBorrows);
    assert_eq!(error(&mut refused, &mut mutex), BorrowMutexError::TooManyBorrows);

    // it gets its place once the first is gone, and leaves nothing behind otherwise
    requests.remove(0).drop(&mut mutex);
    assert_eq!(error(&mut refused, &mut mutex), BorrowMutexError::TooManyBorrows);
    let mut lend = mutex.lend("value").unwrap().unwrap();
    assert_eq!(lend.poll(&mut mutex, &noop()), Poll::Ready(()));
    assert_eq!(lend.drop(&mut mutex), Ok(()));
    assert!(matches!(refused.poll(&mut mutex, &noop()), Poll::Pending));

    let mut smallest = BorrowMutex::<2, u8>::new();
    let _first = queue(&mut smallest);
    let _second = queue(&mut smallest);
    let mut refused = smallest.request_borrow();
    assert_eq!(error(&mut refused, &mut smallest), BorrowMutexError::TooManyBorrows);
    refused.drop(&mut smallest);
}

#[test]
fn lend_without_request_does_nothing() {
    let mut mutex = Mutex::new();
    assert!(matches!(mutex.lend("value"), Ok(None)));
    assert_eq!(mutex.debug_text(), "BorrowMutex { available_for_borrow: false }");
    // so the next lender is not the second one
    let _request = queue(&mut mutex);
    assert!(matches!(mutex.lend("value"), Ok(Some(_))));
}

#[test]
fn second_lender_ends_the_process() {
    let mut mutex = Mutex::new();
    let _request = queue(&mut mutex);
    let _lend = mutex.lend("value").unwrap().unwrap();
    assert!(matches!(
        mutex.lend("other"),
        Err(BorrowMutexAbort::MultipleLenders)
    ));
}

#[test]
fn lending_after_termination_ends_the_process() {
    let mut mutex = Mutex::new();
    let mut termination = mutex.terminate();
    assert_eq!(termination.poll(&mut mutex, &noop()), Poll::Ready(Ok(())));
    assert!(matches!(
        mutex.lend("value"),
        Err(BorrowMutexAbort::LendedWhileTerminated)
    ));
}

#[test]
fn termination_while_lended_ends_the_process() {
    let mut mutex = Mutex::new();
    let _request = queue(&mut mutex);
    let _lend = mutex.lend("value").unwrap().unwrap();
    let mut termination = mutex.terminate();
    assert_eq!(
        termination.poll(&mut mutex, &noop()),
        Poll::Ready(Err(BorrowMutexAbort::TerminatedWhileLended))
    );
}

#[test]
fn reference_is_not_taken_back_from_a_borrower() {
    let mut mutex = Mutex::new();
    let mut request = queue(&mut mutex);
    let mut lend = mutex.lend("value").unwrap().unwrap();
    assert_eq!(lend.poll(&mut mutex, &noop()), Poll::Pending);
    let _guard = armed(&mut request, &mut mutex);
    assert_eq!(
        lend.drop(&mut mutex),
        Err(BorrowMutexAbort::LendGuardDropped)
    );
}

#[test]
fn unoffered_request_waits_for_the_next_lender() {
    let mut mutex = Mutex::new();
    let mut request = queue(&mut mutex);
    let lend = mutex.lend("first").unwrap().unwrap();
    assert_eq!(lend.drop(&mut mutex), Ok(()));
    assert!(matches!(request.poll(&mut mutex, &noop()), Poll::Pending));
    let mut lend = mutex.lend("second").unwrap().unwrap();
    assert_eq!(lend.poll(&mut mutex, &noop()), Poll::Pending);
    assert_eq!(armed(&mut request, &mut mutex).get(), "second");
}

#[test]
fn dropped_request_does_not_hold_the_lender_up() {
    let mut mutex = Mutex::new();
    let first = queue(&mut mutex);
    let mut second = queue(&mut mutex);
    first.drop(&mut mutex);

    let mut lend = mutex.lend("value").unwrap().unwrap();
    assert_eq!(lend.poll(&mut mutex, &noop()), Poll::Ready(()));
    assert_eq!(lend.drop(&mut mutex), Ok(()));

    let mut lend = mutex.lend("value").unwrap().unwrap();
    assert_eq!(lend.poll(&mut mutex, &noop()), Poll::Pending);
    armed(&mut second, &mut mutex).drop(&mut mutex);
    assert_eq!(lend.poll(&mut mutex, &noop()), Poll::Ready(()));
    assert_eq!(lend.drop(&mut mutex), Ok(()));
}

#[test]
fn only_the_oldest_request_is_served() {
    let mut mutex = Mutex::new();
    let mut first = queue(&mut mutex);
    let mut second = queue(&mut mutex);
    let mut lend = mutex.lend("value").unwrap().unwrap();
    assert_eq!(lend.poll(&mut mutex, &noop()), Poll::Pending);
    assert!(matches!(second.poll(&mut mutex, &noop()), Poll::Pending));
    let guard = armed(&mut first, &mut mutex);
    assert!(matches!(second.poll(&mut mutex, &noop()), Poll::Pending));
    // the first is over
    assert_eq!(error(&mut first, &mut mutex), BorrowMutexError::Terminated);
    guard.drop(&mut mutex);
}

#[test]
fn guard_for_a_component() {
    let mut mutex = BorrowMutex::<4, (u8, &'static str)>::new();
    let mut request = queue(&mut mutex);
    let mut lend = mutex.lend((7, "seven")).unwrap().unwrap();
    assert_eq!(lend.poll(&mut mutex, &noop()), Poll::Pending);
    let guard = armed(&mut request, &mut mutex);
    let guard = BorrowMutexGuardArmed::map(guard, |pair| pair.1);
    assert_eq!(guard.get(), "seven");
    guard.drop(&mut mutex);
    assert_eq!(lend.poll(&mut mutex, &noop()), Poll::Ready(()));
}

#[test]
fn requests_fail_after_termination() {
    let (told, told_waker) = counting_waker();
    let (lender, lender_waker) = counting_waker();
    let mut mutex = Mutex::new();
    let mut unpolled = mutex.request_borrow();
    let mut pending = mutex.request_borrow();
    assert!(matches!(pending.poll(&mut mutex, &told_waker), Poll::Pending));

    let mut termination = mutex.terminate();
    assert_eq!(termination.poll(&mut mutex, &lender_waker), Poll::Pending);
    assert_eq!(count(&told), 1);
    assert_eq!(error(&mut pending, &mut mutex), BorrowMutexError::Terminated);
    assert_eq!(error(&mut unpolled, &mut mutex), BorrowMutexError::Terminated);
    unpolled.drop(&mut mutex);
    assert_eq!(termination.poll(&mut mutex, &lender_waker), Poll::Pending);

    assert_eq!(count(&lender), 0);
    pending.drop(&mut mutex);
    assert_eq!(count(&lender), 1);
    assert_eq!(termination.poll(&mut mutex, &lender_waker), Poll::Ready(Ok(())));

    // a second termination has nothing to do
    let mut again = mutex.terminate();
    assert_eq!(again.poll(&mut mutex, &noop()), Poll::Ready(Ok(())));
    let mut late = mutex.try_borrow();
    assert_eq!(error(&mut late, &mut mutex), BorrowMutexError::Terminated);
}

#[test]
fn only_dropped_requests_leave_a_terminated_mutex() {
    let (second_told, second_waker) = counting_waker();
    let (fourth_told, fourth_waker) = counting_waker();
    let mut mutex = Mutex::new();
    let first = queue(&mut mutex);
    let mut second = mutex.request_borrow();
    assert!(matches!(second.poll(&mut mutex, &second_waker), Poll::Pending));
    let third = queue(&mut mutex);
    let mut fourth = mutex.request_borrow();
    assert!(matches!(fourth.poll(&mut mutex, &fourth_waker), Poll::Pending));
    first.drop(&mut mutex);
    third.drop(&mut mutex);

    let mut termination = mutex.terminate();
    assert_eq!(termination.poll(&mut mutex, &noop()), Poll::Pending);
    assert_eq!((count(&second_told), count(&fourth_told)), (1, 0));
    second.drop(&mut mutex);
    assert_eq!(termination.poll(&mut mutex, &noop()), Poll::Pending);
    assert_eq!((count(&second_told), count(&fourth_told)), (1, 1));
    fourth.drop(&mut mutex);
    assert_eq!(termination.poll(&mut mutex, &noop()), Poll::Ready(Ok(())));
}

#[test]
fn second_termination_changes_nothing() {
    let mut mutex = Mutex::new();
    let pending = queue(&mut mutex);
    let mut first = mutex.terminate();
    let mut second = mutex.terminate();
    assert_eq!(first.poll(&mut mutex, &noop()), Poll::Pending);
    assert_eq!(second.poll(&mut mutex, &noop()), Poll::Ready(Ok(())));
    assert_eq!(first.poll(&mut mutex, &noop()), Poll::Pending);
    pending.drop(&mut mutex);
    assert_eq!(first.poll(&mut mutex, &noop()), Poll::Ready(Ok(())));
}

/// Two tasks have found no request and are about to wait when one comes. Only one of them lends.
#[test]
fn two_tasks_that_wait_do_not_lend_twice() {
    let mut mutex = Mutex::new();
    let first = mutex.advance_lender(LenderStep::CheckQueue, &noop());
    let second = mutex.advance_lender(LenderStep::CheckQueue, &noop());
    assert_eq!(first, LenderStep::PollWaiter);
    assert_eq!(second, LenderStep::PollWaiter);
    let mut request = queue(&mut mutex);

    let first = mutex.advance_lender(first, &noop());
    assert_eq!(first, LenderStep::CheckQueue);
    assert_eq!(mutex.advance_lender(first, &noop()), LenderStep::Ready);
    let mut lend = mutex.lend("first").unwrap().unwrap();
    assert_eq!(lend.poll(&mut mutex, &noop()), Poll::Pending);
    let guard = armed(&mut request, &mut mutex);

    // the first has taken the wake
    assert_eq!(mutex.advance_lender(second, &noop()), LenderStep::Pending);
    assert!(matches!(
        mutex.lend("second"),
        Err(BorrowMutexAbort::MultipleLenders)
    ));
    assert_eq!(guard.get(), "first");
}

#[test]
fn termination_given_up_while_a_request_is_told() {
    let mut mutex = Mutex::new();
    let _pending = queue(&mut mutex);
    let mut termination = mutex.terminate();
    assert_eq!(termination.poll(&mut mutex, &noop()), Poll::Pending);
    assert_eq!(
        termination.drop(&mut mutex),
        Err(BorrowMutexAbort::LendGuardDropped)
    );

    let mut mutex = Mutex::new();
    assert_eq!(mutex.terminate().drop(&mut mutex), Ok(()));
    let pending = queue(&mut mutex);
    let mut termination = mutex.terminate();
    assert_eq!(termination.poll(&mut mutex, &noop()), Poll::Pending);
    pending.drop(&mut mutex);
    assert_eq!(termination.drop(&mut mutex), Ok(()));
}

#[test]
fn reasons_in_words() {
    assert_eq!(
        BorrowMutexError::TooManyBorrows.message(),
        "Too many borrow requests that are still pending"
    );
    assert_eq!(
        BorrowMutexError::Terminated.message(),
        "The mutex was terminated and won't be ever lend-ed to again"
    );
    assert_eq!(
        BorrowMutexAbort::MultipleLenders.message(),
        "multiple distinct references lended to a BorrowMutex"
    );
    assert_eq!(
        BorrowMutexAbort::LendedWhileTerminated.message(),
        "BorrowMutex lended to while terminated"
    );
    assert_eq!(
        BorrowMutexAbort::TerminatedWhileLended.message(),
        "BorrowMutex terminated while a reference is lended"
    );
    assert_eq!(
        BorrowMutexAbort::LendGuardDropped.message(),
        "LendGuard dropped while the reference is still borrowed"
    );
}

/// A request that is queued just after the mutex was terminated does not wait for ever.
#[test]
fn request_sees_a_termination_that_comes_in_between() {
    let mut mutex = Mutex::new();
    let mut op = RequestOp::begin(UnarmedState {
        slot: None,
        spent: false,
    });
    mutex.advance_request(&mut op, &noop());
    assert!(matches!(op.step, RequestStep::Push));
    let mut termination = mutex.terminate();
    assert_eq!(termination.poll(&mut mutex, &noop()), Poll::Ready(Ok(())));
    while !op.step.finished() {
        mutex.advance_request(&mut op, &noop());
    }
    assert!(matches!(
        op.step,
        RequestStep::Failed {
            error: BorrowMutexError::Terminated
        }
    ));
    // it is in the queue until it is dropped
    assert_eq!(op.guard.slot, Some(0));
    assert!(!op.guard.spent);
}

/// A request that is woken by the termination does not look for a reference.
#[test]
fn request_is_woken_by_the_termination() {
    let mut mutex = Mutex::new();
    let mut op = RequestOp::begin(UnarmedState {
        slot: None,
        spent: false,
    });
    for _ in 0..3 {
        mutex.advance_request(&mut op, &noop());
    }
    assert!(matches!(op.step, RequestStep::PollEntry { slot: 0 }));
    let mut termination = mutex.terminate();
    assert_eq!(termination.poll(&mut mutex, &noop()), Poll::Pending);
    mutex.advance_request(&mut op, &noop());
    assert!(matches!(op.step, RequestStep::LoadLended { slot: 0 }));
    mutex.advance_request(&mut op, &noop());
    assert!(matches!(
        op.step,
        RequestStep::Failed {
            error: BorrowMutexError::Terminated
        }
    ));
    let step = mutex.advance_release(ReleaseStep::StoreGone { slot: 0 });
    assert_eq!(step, ReleaseStep::WakeLender);
    assert_eq!(mutex.advance_release(step), ReleaseStep::Done);
    assert_eq!(termination.poll(&mut mutex, &noop()), Poll::Ready(Ok(())));
}

/// A borrower that comes and goes while the lender looks for it does not leave it waiting.
#[test]
fn lend_guard_sees_a_borrower_that_leaves_in_between() {
    let mut mutex = Mutex::new();
    let request = queue(&mut mutex);
    let _lend = mutex.lend("value").unwrap().unwrap();
    let step = mutex.advance_offer(0, OfferStep::SwapAcquired, &noop());
    assert_eq!(step, OfferStep::WakeBorrower);
    let step = mutex.advance_offer(0, step, &noop());
    assert_eq!(step, OfferStep::LoadGuard);
    let step = mutex.advance_offer(0, step, &noop());
    assert_eq!(step, OfferStep::PollWaiter);
    request.drop(&mut mutex);
    let step = mutex.advance_offer(0, step, &noop());
    assert_eq!(step, OfferStep::LoadGuard);
    let step = mutex.advance_offer(0, step, &noop());
    assert_eq!(step, OfferStep::Ready);

    let mut step = TakeBackStep::LoadGuard;
    while !step.finished() {
        step = mutex.advance_take_back(0, step);
    }
    assert_eq!(step, TakeBackStep::Done);
    assert!(matches!(mutex.lend("value"), Ok(None)));
}

#[test]
fn steps_follow_what_an_access_gives_back() {
    let present = LendStep::Aborted {
        reason: BorrowMutexAbort::MultipleLenders,
    };
    assert_eq!(LendStep::on_present(true), present);
    assert_eq!(LendStep::on_present(false), LendStep::LoadTerminated);
    let terminated = LendStep::Aborted {
        reason: BorrowMutexAbort::LendedWhileTerminated,
    };
    assert_eq!(LendStep::on_terminated(true), terminated);
    assert_eq!(LendStep::on_terminated(false), LendStep::WriteRef);
    assert_eq!(LendStep::on_peek(Some(3)), LendStep::Lended { slot: 3 });
    assert_eq!(LendStep::on_peek(None), LendStep::ClearLended);

    assert_eq!(LenderStep::on_check(true), LenderStep::PollWaiter);
    assert_eq!(LenderStep::on_check(false), LenderStep::Ready);
    assert_eq!(LenderStep::on_poll(true), LenderStep::CheckQueue);
    assert_eq!(LenderStep::on_poll(false), LenderStep::Pending);

    let leave = TakeBackStep::ClearLended { leave: true };
    let stay = TakeBackStep::ClearLended { leave: false };
    assert_eq!(TakeBackStep::on_guard(true), TakeBackStep::LoadAcquired);
    assert_eq!(TakeBackStep::on_guard(false), leave);
    assert_eq!(TakeBackStep::on_acquired(true), TakeBackStep::Aborted);
    assert_eq!(TakeBackStep::on_acquired(false), stay);
    assert_eq!(TakeBackStep::on_clear(true), TakeBackStep::Pop);
    assert_eq!(TakeBackStep::on_clear(false), TakeBackStep::ClearPresent);

    let lended = TerminateStep::Aborted {
        reason: BorrowMutexAbort::TerminatedWhileLended,
    };
    assert_eq!(TerminateStep::on_swap(true), TerminateStep::Finished);
    assert_eq!(TerminateStep::on_swap(false), TerminateStep::LoadPresent);
    assert_eq!(TerminateStep::on_present(true), lended);
    assert_eq!(TerminateStep::on_present(false), TerminateStep::Peek);
    assert_eq!(TerminateStep::on_peek(Some(1)), TerminateStep::Drain { slot: 1 });
    assert_eq!(TerminateStep::on_peek(None), TerminateStep::Finished);
}
