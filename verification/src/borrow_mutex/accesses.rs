//! What each single access does, in terms of what the mutex holds: which field it changes, and
//! what decides on the access that comes next.

use crate::atomic_waiter::WaiterState;
use crate::borrow_mutex::steps::{
    lend_next, lender_next, offer_next, release_next, request_next, take_back_next,
    terminate_next, LendStep, LenderStep, OfferStep, ReleaseStep, RequestOp, RequestStep,
    TakeBackStep, TerminateStep,
};
use crate::borrow_mutex::{
    BorrowMutexAbort, BorrowMutexError, BorrowState, MutexState, UnarmedState,
};
use core::task::Waker;
use vstd::prelude::*;

verus! {

/// The accesses of a poll of a request that only look change nothing, and what they find decides:
/// the termination flag at the start and before waiting, the lended flag before the reference is
/// read. A request that goes on keeps its slot.
pub proof fn law_request_looks<T>(
    mutex: MutexState<T>,
    guard: UnarmedState,
    slot: usize,
    waker: Option<Waker>,
    refused: bool,
)
    ensures
        RequestOp::<T>::begun(guard) == (RequestOp::<T> {
            guard,
            step: RequestStep::LoadTerminated,
        }),
        ({
            let (after, next) = request_next(
                mutex,
                RequestOp { guard, step: RequestStep::LoadTerminated },
                waker,
                refused,
            );
            let over = mutex.terminated || guard.spent;
            &&& after == mutex
            &&& next.guard.slot == guard.slot
            &&& next.guard.spent == (guard.spent || mutex.terminated && guard.slot is None)
            &&& over <==> next.step == (RequestStep::<T>::Failed {
                error: BorrowMutexError::Terminated,
            })
            &&& !over && guard.slot is None <==> next.step is Push
            &&& !over ==> (guard.slot matches Some(s) ==> next.step == (RequestStep::<
                T,
            >::PollEntry { slot: s }))
        }),
        ({
            let (after, next) = request_next(
                mutex,
                RequestOp { guard, step: RequestStep::CheckAgain { slot } },
                waker,
                refused,
            );
            &&& after == mutex
            &&& next.guard == guard
            &&& mutex.terminated <==> next.step == (RequestStep::<T>::Failed {
                error: BorrowMutexError::Terminated,
            })
            &&& !mutex.terminated <==> next.step is Pending
        }),
        ({
            let (after, next) = request_next(
                mutex,
                RequestOp { guard, step: RequestStep::LoadLended { slot } },
                waker,
                refused,
            );
            &&& after == mutex
            &&& next.guard == guard
            &&& mutex.lender_lended <==> next.step == (RequestStep::<T>::ReadRef { slot })
            &&& !mutex.lender_lended <==> next.step == (RequestStep::<T>::Failed {
                error: BorrowMutexError::Terminated,
            })
        }),
        ({
            let (after, next) = request_next(
                mutex,
                RequestOp { guard, step: RequestStep::ReadRef { slot } },
                waker,
                refused,
            );
            &&& after == mutex
            &&& next.guard == (UnarmedState { slot: guard.slot, spent: true })
            &&& next.step matches RequestStep::Armed { guard: armed }
            &&& armed.slot == slot
            &&& mutex.inner_ref is Some ==> mutex.inner_ref == Some(armed.inner_ref)
        }),
{
}

/// Queueing a request fails if and only if there is no room, or the queue refuses it while another
/// is leaving, and changes nothing then. Otherwise the request comes behind all others, in the next
/// slot, and the lender is woken next.
pub proof fn law_request_push<T>(
    mutex: MutexState<T>,
    guard: UnarmedState,
    waker: Option<Waker>,
    refused: bool,
)
    requires
        0 < mutex.max <= usize::MAX,
    ensures
        ({
            let (after, next) = request_next(
                mutex,
                RequestOp { guard, step: RequestStep::Push },
                waker,
                refused,
            );
            let full = mutex.borrowers.len() == mutex.max || refused;
            &&& full <==> next.step == (RequestStep::<T>::Failed {
                error: BorrowMutexError::TooManyBorrows,
            })
            &&& full ==> after == mutex && next.guard == guard
            &&& !full ==> {
                &&& next.step matches RequestStep::WakeLender { slot }
                &&& slot == (mutex.front + mutex.borrowers.len()) % mutex.max
                &&& next.guard == (UnarmedState { slot: Some(slot), spent: guard.spent })
                &&& after == (MutexState {
                    borrowers: mutex.borrowers.push(
                        BorrowState {
                            waiter: WaiterState { awoken: false, waker: None },
                            ref_acquired: false,
                            guard_present: true,
                        },
                    ),
                    ..mutex
                })
            }
        }),
{
    vstd::arithmetic::div_mod::lemma_mod_bound(
        mutex.front + mutex.borrowers.len(),
        mutex.max,
    );
}

/// Waking the lender changes its waiter and nothing else, and leads a request on to its own waiter.
/// Polling that succeeds if and only if it was woken, and changes nothing but that waiter: it is
/// not woken any more, and has the polling task registered.
pub proof fn law_request_waits<T>(
    mutex: MutexState<T>,
    guard: UnarmedState,
    slot: usize,
    waker: Option<Waker>,
    refused: bool,
)
    requires
        mutex.max > 0,
        0 <= (slot - mutex.front) % mutex.max < mutex.borrowers.len(),
    ensures
        ({
            let (after, next) = request_next(
                mutex,
                RequestOp { guard, step: RequestStep::WakeLender { slot } },
                waker,
                refused,
            );
            &&& after.lend_waiter.awoken
            &&& after == (MutexState { lend_waiter: after.lend_waiter, ..mutex })
            &&& next == (RequestOp::<T> { guard, step: RequestStep::PollEntry { slot } })
        }),
        ({
            let (after, next) = request_next(
                mutex,
                RequestOp { guard, step: RequestStep::PollEntry { slot } },
                waker,
                refused,
            );
            let k = (slot - mutex.front) % mutex.max;
            let entry = mutex.borrowers[k];
            &&& next.guard == guard
            &&& entry.waiter.awoken <==> next.step == (RequestStep::<T>::LoadLended { slot })
            &&& !entry.waiter.awoken <==> next.step == (RequestStep::<T>::CheckAgain { slot })
            &&& after == (MutexState {
                borrowers: mutex.borrowers.update(
                    k,
                    BorrowState { waiter: WaiterState { awoken: false, waker }, ..entry },
                ),
                ..mutex
            })
        }),
{
}

/// Dropping a guard marks its entry as gone first, which changes nothing else, and wakes the lender
/// then.
pub proof fn law_release_accesses<T>(mutex: MutexState<T>, slot: usize)
    requires
        mutex.max > 0,
        0 <= (slot - mutex.front) % mutex.max < mutex.borrowers.len(),
    ensures
        ({
            let (after, next) = release_next(mutex, ReleaseStep::StoreGone { slot });
            let k = (slot - mutex.front) % mutex.max;
            &&& next is WakeLender
            &&& after == (MutexState {
                borrowers: mutex.borrowers.update(
                    k,
                    BorrowState { guard_present: false, ..mutex.borrowers[k] },
                ),
                ..mutex
            })
        }),
        ({
            let (after, next) = release_next(mutex, ReleaseStep::WakeLender);
            &&& next is Done
            &&& after.lend_waiter.awoken
            &&& after.lend_waiter.waker == if mutex.lend_waiter.awoken {
                mutex.lend_waiter.waker
            } else {
                None
            }
            &&& after == (MutexState { lend_waiter: after.lend_waiter, ..mutex })
        }),
{
}

/// A poll for a request is over if and only if it finds one. Where it finds none, it polls the
/// waiter of the lender; that changes nothing else, and the poll is told to wait if and only if the
/// waiter was not woken, and looks again otherwise.
pub proof fn law_lender_accesses<T>(mutex: MutexState<T>, waker: Option<Waker>)
    ensures
        lender_next(mutex, LenderStep::CheckQueue, waker).0 == mutex,
        lender_next(mutex, LenderStep::CheckQueue, waker).1 is Ready <==> mutex.borrowers.len() > 0,
        lender_next(mutex, LenderStep::CheckQueue, waker).1 is PollWaiter
            <==> mutex.borrowers.len() == 0,
        lender_next(mutex, LenderStep::PollWaiter, waker).0 == (MutexState {
            lend_waiter: WaiterState { awoken: false, waker },
            ..mutex
        }),
        lender_next(mutex, LenderStep::PollWaiter, waker).1 is Pending
            <==> !mutex.lend_waiter.awoken,
        lender_next(mutex, LenderStep::PollWaiter, waker).1 is CheckQueue
            <==> mutex.lend_waiter.awoken,
{
}

/// A call that lends goes on if and only if it is the only lender and the mutex was not terminated;
/// it lends to the oldest request if and only if it finds one; and what it has set, it clears again
/// where it finds none.
pub proof fn law_lend_accesses<T>(mutex: MutexState<T>, value: T)
    requires
        0 <= mutex.front <= usize::MAX,
    ensures
        ({
            let (after, next) = lend_next(mutex, value, LendStep::SwapPresent);
            &&& after == (MutexState { lender_present: true, ..mutex })
            &&& !mutex.lender_present <==> next is LoadTerminated
            &&& mutex.lender_present <==> next == (LendStep::Aborted {
                reason: BorrowMutexAbort::MultipleLenders,
            })
        }),
        ({
            let (after, next) = lend_next(mutex, value, LendStep::LoadTerminated);
            &&& after == mutex
            &&& !mutex.terminated <==> next is WriteRef
            &&& mutex.terminated <==> next == (LendStep::Aborted {
                reason: BorrowMutexAbort::LendedWhileTerminated,
            })
        }),
        lend_next(mutex, value, LendStep::WriteRef) == (
            MutexState { inner_ref: Some(value), ..mutex },
            LendStep::SetLended,
        ),
        lend_next(mutex, value, LendStep::SetLended) == (
            MutexState { lender_lended: true, ..mutex },
            LendStep::Peek,
        ),
        ({
            let (after, next) = lend_next(mutex, value, LendStep::Peek);
            &&& after == mutex
            &&& mutex.borrowers.len() > 0 <==> (next matches LendStep::Lended { slot } && slot
                == mutex.front)
            &&& mutex.borrowers.len() == 0 <==> next is ClearLended
        }),
        lend_next(mutex, value, LendStep::ClearLended) == (
            MutexState { lender_lended: false, ..mutex },
            LendStep::ClearRef,
        ),
        lend_next(mutex, value, LendStep::ClearRef) == (
            MutexState { inner_ref: None, ..mutex },
            LendStep::ClearPresent,
        ),
        lend_next(mutex, value, LendStep::ClearPresent) == (
            MutexState { lender_present: false, ..mutex },
            LendStep::NoRequest,
        ),
{
}

/// A poll of a lend guard marks its request as offered; wakes it if and only if it was not marked
/// before; is over only where it finds its guard gone; and is told to wait if and only if the
/// waiter of the lender was not woken.
pub proof fn law_offer_accesses<T>(mutex: MutexState<T>, slot: usize, waker: Option<Waker>)
    requires
        mutex.max > 0,
        0 <= (slot - mutex.front) % mutex.max < mutex.borrowers.len(),
    ensures
        ({
            let (after, next) = offer_next(mutex, slot, OfferStep::SwapAcquired, waker);
            let k = (slot - mutex.front) % mutex.max;
            &&& after == (MutexState {
                borrowers: mutex.borrowers.update(
                    k,
                    BorrowState { ref_acquired: true, ..mutex.borrowers[k] },
                ),
                ..mutex
            })
            &&& mutex.borrowers[k].ref_acquired <==> next is PollWaiter
            &&& !mutex.borrowers[k].ref_acquired <==> next is WakeBorrower
        }),
        ({
            let (after, next) = offer_next(mutex, slot, OfferStep::WakeBorrower, waker);
            let k = (slot - mutex.front) % mutex.max;
            let entry = mutex.borrowers[k];
            &&& next is LoadGuard
            &&& after == (MutexState {
                borrowers: mutex.borrowers.update(
                    k,
                    BorrowState { waiter: after.borrowers[k].waiter, ..entry },
                ),
                ..mutex
            })
            &&& after.borrowers[k].waiter.awoken
            &&& after.borrowers[k].waiter.waker == if entry.waiter.awoken {
                entry.waiter.waker
            } else {
                None
            }
        }),
        ({
            let (after, next) = offer_next(mutex, slot, OfferStep::LoadGuard, waker);
            let k = (slot - mutex.front) % mutex.max;
            &&& after == mutex
            &&& !mutex.borrowers[k].guard_present <==> next is Ready
            &&& mutex.borrowers[k].guard_present <==> next is PollWaiter
        }),
        ({
            let (after, next) = offer_next(mutex, slot, OfferStep::PollWaiter, waker);
            &&& after == (MutexState { lend_waiter: WaiterState { awoken: false, waker }, ..mutex })
            &&& !mutex.lend_waiter.awoken <==> next is Pending
            &&& mutex.lend_waiter.awoken <==> next is LoadGuard
        }),
{
    let k = (slot - mutex.front) % mutex.max;
    assert(mutex.borrowers.update(k, mutex.borrowers[k]) =~= mutex.borrowers);
}

/// A lend guard that is dropped ends the process if and only if it finds the guard of its request
/// there and the reference offered; otherwise it clears the lended flag, the reference and, at the
/// end, the flag that a lender is present; and takes the oldest request out if and only if it found
/// the guard gone.
pub proof fn law_take_back_accesses<T>(mutex: MutexState<T>, slot: usize, leave: bool)
    requires
        mutex.max > 0,
        0 <= (slot - mutex.front) % mutex.max < mutex.borrowers.len(),
    ensures
        ({
            let (after, next) = take_back_next(mutex, slot, TakeBackStep::LoadGuard);
            let k = (slot - mutex.front) % mutex.max;
            &&& after == mutex
            &&& mutex.borrowers[k].guard_present <==> next is LoadAcquired
            &&& !mutex.borrowers[k].guard_present <==> next == (TakeBackStep::ClearLended {
                leave: true,
            })
        }),
        ({
            let (after, next) = take_back_next(mutex, slot, TakeBackStep::LoadAcquired);
            let k = (slot - mutex.front) % mutex.max;
            &&& after == mutex
            &&& mutex.borrowers[k].ref_acquired <==> next is Aborted
            &&& !mutex.borrowers[k].ref_acquired <==> next == (TakeBackStep::ClearLended {
                leave: false,
            })
        }),
        take_back_next(mutex, slot, TakeBackStep::ClearLended { leave }) == (
            MutexState { lender_lended: false, ..mutex },
            TakeBackStep::ClearRef { leave },
        ),
        ({
            let (after, next) = take_back_next(mutex, slot, TakeBackStep::ClearRef { leave });
            &&& after == (MutexState { inner_ref: None, ..mutex })
            &&& leave <==> next is Pop
            &&& !leave <==> next is ClearPresent
        }),
        ({
            let (after, next) = take_back_next(mutex, slot, TakeBackStep::Pop);
            &&& next is ClearPresent
            &&& after == (MutexState {
                borrowers: mutex.borrowers.subrange(1, mutex.borrowers.len() as int),
                front: (mutex.front + 1) % mutex.max,
                ..mutex
            })
        }),
        take_back_next(mutex, slot, TakeBackStep::ClearPresent) == (
            MutexState { lender_present: false, ..mutex },
            TakeBackStep::Done,
        ),
{
    assert(mutex.borrowers.drop_first() =~= mutex.borrowers.subrange(
        1,
        mutex.borrowers.len() as int,
    ));
}

/// A termination sets the termination flag with its first access, and no other access of it changes
/// anything. It is over at once if and only if the flag was set; ends the process if and only if it
/// finds a lender; and then goes on to the oldest request until it finds none.
pub proof fn law_terminate_accesses<T>(mutex: MutexState<T>)
    requires
        0 <= mutex.front <= usize::MAX,
    ensures
        ({
            let (after, next) = terminate_next(mutex, TerminateStep::SwapTerminated);
            &&& after == (MutexState { terminated: true, ..mutex })
            &&& mutex.terminated <==> next is Finished
            &&& !mutex.terminated <==> next is LoadPresent
        }),
        ({
            let (after, next) = terminate_next(mutex, TerminateStep::LoadPresent);
            &&& after == mutex
            &&& !mutex.lender_present <==> next is Peek
            &&& mutex.lender_present <==> next == (TerminateStep::Aborted {
                reason: BorrowMutexAbort::TerminatedWhileLended,
            })
        }),
        ({
            let (after, next) = terminate_next(mutex, TerminateStep::Peek);
            &&& after == mutex
            &&& mutex.borrowers.len() == 0 <==> next is Finished
            &&& mutex.borrowers.len() > 0 <==> (next matches TerminateStep::Drain { slot } && slot
                == mutex.front)
        }),
{
}

} // verus!
