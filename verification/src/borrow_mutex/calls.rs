//! What each whole call does, in terms of what the mutex holds before and after it: the flags, the
//! reference, and the sequence of requests.

use crate::atomic_waiter::WaiterState;
use crate::borrow_mutex::{
    entry_waker, lend_slot, ArmedState, BorrowMutexAbort, BorrowMutexError, BorrowMutexLendGuard,
    BorrowState, MutexState, TerminateStage, UnarmedState,
};
use crate::counter;
use core::task::{Poll, Waker};
use vstd::prelude::*;

verus! {

/// A poll of a request fails for two reasons, and fails whenever there is one of them, whatever
/// else the mutex is doing: it was terminated or the request is over; or the request is not queued
/// and the queue is full. Such a poll changes nothing, but that a request which was never queued
/// is over when the mutex is terminated.
pub proof fn law_request_fails<T>(mutex: MutexState<T>, guard: UnarmedState, waker: Option<Waker>)
    ensures
        ({
            let (after, request, polled) = mutex.unarmed_polled(guard, waker);
            let over = mutex.terminated || guard.spent;
            let refused = !over && guard.slot is None && mutex.borrowers.len() == mutex.max;
            &&& over <==> (polled matches Poll::Ready(Err(e)) && e is Terminated)
            &&& refused <==> (polled matches Poll::Ready(Err(e)) && e is TooManyBorrows)
            &&& over || refused ==> after == mutex && request.slot == guard.slot
            &&& over || refused ==> request.spent == (guard.spent || mutex.terminated
                && guard.slot is None)
        }),
{
}

/// A first poll that finds room queues the request behind all others, in the next slot, with the
/// polling task registered in it; marks the lender as woken, and hands out the waker of the lender
/// unless that was marked before; and is told to wait.
pub proof fn law_request_is_queued<T>(
    mutex: MutexState<T>,
    guard: UnarmedState,
    waker: Option<Waker>,
)
    requires
        2 <= mutex.max <= usize::MAX,
        0 <= mutex.front < mutex.max,
        mutex.borrowers.len() < mutex.max,
        !mutex.terminated,
        !guard.spent,
        guard.slot is None,
    ensures
        ({
            let (after, request, polled) = mutex.unarmed_polled(guard, waker);
            &&& polled is Pending
            &&& !request.spent
            &&& request.slot matches Some(slot)
            &&& slot == (mutex.front + mutex.borrowers.len()) % mutex.max
            &&& after.borrowers == mutex.borrowers.push(
                BorrowState {
                    waiter: WaiterState { awoken: false, waker },
                    ref_acquired: false,
                    guard_present: true,
                },
            )
            &&& after.lend_waiter.awoken
            &&& after.lend_waiter.waker == if mutex.lend_waiter.awoken {
                mutex.lend_waiter.waker
            } else {
                None
            }
            &&& after == (MutexState {
                borrowers: after.borrowers,
                lend_waiter: after.lend_waiter,
                ..mutex
            })
        }),
{
    let len = mutex.borrowers.len() as int;
    counter::lemma_position_of_slot(mutex.front, len, mutex.max);
    vstd::arithmetic::div_mod::lemma_mod_bound(mutex.front + len, mutex.max);
    let (after, _, _) = mutex.unarmed_polled(guard, waker);
    assert(after.borrowers =~= mutex.borrowers.push(after.borrowers[len]));
}

/// A poll of a queued request succeeds if and only if its waiter was woken. It then gives the
/// lended reference, and the request is over; otherwise the polling task is left registered in the
/// entry of the request. Either way that entry keeps its place and its marks, and nothing else
/// changes.
pub proof fn law_queued_request<T>(
    mutex: MutexState<T>,
    slot: usize,
    waker: Option<Waker>,
)
    requires
        mutex.max > 0,
        !mutex.terminated,
        0 <= (slot - mutex.front) % mutex.max < mutex.borrowers.len(),
    ensures
        ({
            let (after, request, polled) = mutex.unarmed_polled(
                UnarmedState { slot: Some(slot), spent: false },
                waker,
            );
            let k = (slot - mutex.front) % mutex.max;
            let entry = mutex.borrowers[k];
            &&& request.slot == Some(slot)
            &&& request.spent == entry.waiter.awoken
            &&& !entry.waiter.awoken ==> polled is Pending
            &&& entry.waiter.awoken ==> {
                &&& polled matches Poll::Ready(Ok(armed))
                &&& armed.slot == slot
                &&& mutex.inner_ref is Some ==> mutex.inner_ref == Some(armed.inner_ref)
            }
            &&& after == (MutexState { borrowers: after.borrowers, ..mutex })
            &&& after.borrowers.len() == mutex.borrowers.len()
            &&& after.borrowers[k] == (BorrowState {
                waiter: WaiterState { awoken: false, waker },
                ..entry
            })
            &&& forall|i: int|
                0 <= i < mutex.borrowers.len() && i != k ==> #[trigger] after.borrowers[i]
                    == mutex.borrowers[i]
        }),
{
}

/// A request that is told to wait is in the queue, with the polling task registered in its entry
/// and its guard not gone.
pub proof fn law_pending_request_is_queued<T>(
    mutex: MutexState<T>,
    guard: UnarmedState,
    waker: Option<Waker>,
)
    requires
        2 <= mutex.max <= usize::MAX,
        0 <= mutex.front < mutex.max,
        mutex.borrowers.len() <= mutex.max,
        guard.slot matches Some(slot) ==> !guard.spent ==> {
            &&& 0 <= (slot - mutex.front) % mutex.max < mutex.borrowers.len()
            &&& mutex.borrowers[(slot - mutex.front) % mutex.max].guard_present
        },
        mutex.unarmed_polled(guard, waker).2 is Pending,
    ensures
        ({
            let (after, request, _) = mutex.unarmed_polled(guard, waker);
            &&& !request.spent
            &&& request.slot matches Some(slot)
            &&& guard.slot is Some ==> guard.slot == request.slot
            &&& {
                let k = (slot - after.front) % after.max;
                &&& 0 <= k < after.borrowers.len()
                &&& after.borrowers[k].waiter == (WaiterState { awoken: false, waker })
                &&& after.borrowers[k].guard_present
            }
        }),
{
    law_request_fails(mutex, guard, waker);
    if let Some(slot) = guard.slot {
        law_queued_request(mutex, slot, waker);
    } else {
        let len = mutex.borrowers.len() as int;
        law_request_is_queued(mutex, guard, waker);
        counter::lemma_position_of_slot(mutex.front, len, mutex.max);
    }
}

/// Which polls of a request get as far as its entry, and which waker that has: those that do not
/// fail register their task in it.
pub proof fn law_request_registers<T>(mutex: MutexState<T>, guard: UnarmedState)
    requires
        2 <= mutex.max <= usize::MAX,
        0 <= mutex.front < mutex.max,
    ensures
        mutex.admits(guard) <==> !mutex.terminated && !guard.spent && (guard.slot is Some
            || mutex.borrowers.len() != mutex.max),
        guard.slot matches Some(slot) ==> {
            let (arrived, at) = mutex.arrival(guard);
            &&& arrived == mutex
            &&& at == slot
            &&& entry_waker(mutex, guard) == mutex.borrowers[(slot - mutex.front)
                % mutex.max].waiter.waker
            &&& mutex.entry(slot as int) == mutex.borrowers[(slot - mutex.front) % mutex.max]
        },
        guard.slot is None && mutex.borrowers.len() < mutex.max ==> {
            let (arrived, at) = mutex.arrival(guard);
            &&& at == (mutex.front + mutex.borrowers.len()) % mutex.max
            &&& arrived.entry(at as int).waiter == (WaiterState { awoken: false, waker: None })
        },
{
    if guard.slot is None && mutex.borrowers.len() < mutex.max {
        let len = mutex.borrowers.len() as int;
        counter::lemma_position_of_slot(mutex.front, len, mutex.max);
        vstd::arithmetic::div_mod::lemma_mod_bound(mutex.front + len, mutex.max);
    }
}

/// Dropping a request that is queued and not over, or the borrowed reference that came of it,
/// marks the guard of its entry as gone, and the lender as woken; nothing else changes. Dropping
/// any other request does nothing.
pub proof fn law_release<T>(mutex: MutexState<T>, slot: usize)
    requires
        mutex.max > 0,
        0 <= (slot - mutex.front) % mutex.max < mutex.borrowers.len(),
    ensures
        mutex.unarmed_dropped(UnarmedState { slot: Some(slot), spent: true }) == mutex,
        mutex.unarmed_dropped(UnarmedState { slot: None, spent: true }) == mutex,
        mutex.unarmed_dropped(UnarmedState { slot: None, spent: false }) == mutex,
        mutex.unarmed_dropped(UnarmedState { slot: Some(slot), spent: false }) == mutex.released(
            slot as int,
        ),
        ({
            let after = mutex.released(slot as int);
            let k = (slot - mutex.front) % mutex.max;
            &&& after.lend_waiter.awoken
            &&& after.lend_waiter.waker == if mutex.lend_waiter.awoken {
                mutex.lend_waiter.waker
            } else {
                None
            }
            &&& after == (MutexState {
                borrowers: after.borrowers,
                lend_waiter: after.lend_waiter,
                ..mutex
            })
            &&& after.borrowers.len() == mutex.borrowers.len()
            &&& after.borrowers[k] == (BorrowState { guard_present: false, ..mutex.borrowers[k] })
            &&& forall|i: int|
                0 <= i < mutex.borrowers.len() && i != k ==> #[trigger] after.borrowers[i]
                    == mutex.borrowers[i]
        }),
{
}

/// A poll for a request is over if and only if there is one, however many there are, and changes
/// nothing then; where there is none, the polling task is left registered, and nothing else
/// changes but that earlier wakes are used up.
pub proof fn law_wait_to_lend<T>(mutex: MutexState<T>, waker: Option<Waker>)
    ensures
        mutex.lender_polled(waker).1 <==> mutex.borrowers.len() > 0,
        mutex.borrowers.len() > 0 ==> mutex.lender_polled(waker).0 == mutex,
        mutex.borrowers.len() == 0 ==> mutex.lender_polled(waker).0 == (MutexState {
            lend_waiter: WaiterState { awoken: false, waker },
            ..mutex
        }),
{
}

/// Lending gives a lend guard for the oldest request, and leaves the reference lended, if and only
/// if nothing is lended, the mutex was not terminated, and there is a request, however many there
/// are. It gives `None`, and changes nothing, if and only if there is no request but the rest
/// holds. Otherwise the process has to end.
pub proof fn law_lend<T>(mutex: MutexState<T>, value: T)
    ensures
        ({
            let (after, lended) = mutex.lend_called(value);
            &&& lended == Err::<Option<int>, BorrowMutexAbort>(BorrowMutexAbort::MultipleLenders)
                <==> mutex.lender_present
            &&& lended == Err::<Option<int>, BorrowMutexAbort>(
                BorrowMutexAbort::LendedWhileTerminated,
            ) <==> !mutex.lender_present && mutex.terminated
            &&& lended == Ok::<Option<int>, BorrowMutexAbort>(None) <==> !mutex.lender_present
                && !mutex.terminated && mutex.borrowers.len() == 0
            &&& lended == Ok::<Option<int>, BorrowMutexAbort>(Some(mutex.front))
                <==> !mutex.lender_present && !mutex.terminated && mutex.borrowers.len() > 0
            &&& lended is Ok && mutex.borrowers.len() > 0 ==> after == (MutexState {
                inner_ref: Some(value),
                lender_present: true,
                lender_lended: true,
                ..mutex
            })
            &&& lended is Ok && mutex.borrowers.len() == 0 ==> after == mutex
            &&& mutex.lender_present ==> after == mutex
            &&& lended is Err && !mutex.lender_present ==> after == (MutexState {
                lender_present: true,
                ..mutex
            })
        }),
{
}

/// What a call that lends gives back says which request its guard is for.
pub proof fn law_lend_guard_slot(
    guard: BorrowMutexLendGuard,
    abort: BorrowMutexAbort,
)
    ensures
        lend_slot(Ok(Some(guard))) == Ok::<Option<int>, BorrowMutexAbort>(Some(guard@ as int)),
        lend_slot(Ok(None)) == Ok::<Option<int>, BorrowMutexAbort>(None),
        lend_slot(Err(abort)) == Err::<Option<int>, BorrowMutexAbort>(abort),
{
}

/// A poll of a lend guard leaves the oldest request offered; a request that was not offered the
/// reference before is woken, and its waker handed out. The poll is over only where the guard of
/// that request is gone, and is over then if the lender was woken or the offer is new. Where it is
/// not over, the polling task is left registered. No other request, and no flag, changes.
pub proof fn law_offer<T>(mutex: MutexState<T>, waker: Option<Waker>)
    requires
        mutex.borrowers.len() > 0,
    ensures
        ({
            let (after, ready) = mutex.lend_polled(waker);
            let first = mutex.borrowers[0];
            &&& ready <==> !first.guard_present && (mutex.lend_waiter.awoken
                || !first.ref_acquired)
            &&& after == (MutexState {
                borrowers: after.borrowers,
                lend_waiter: after.lend_waiter,
                ..mutex
            })
            &&& after.borrowers.len() == mutex.borrowers.len()
            &&& forall|i: int|
                0 < i < mutex.borrowers.len() ==> #[trigger] after.borrowers[i]
                    == mutex.borrowers[i]
            &&& after.borrowers[0].guard_present == first.guard_present
            &&& after.borrowers[0].ref_acquired
            &&& first.ref_acquired ==> after.borrowers[0].waiter == first.waiter
            &&& !first.ref_acquired ==> after.borrowers[0].waiter.awoken
            &&& !first.ref_acquired ==> after.borrowers[0].waiter.waker == if first.waiter.awoken {
                first.waiter.waker
            } else {
                None
            }
            &&& !ready ==> after.lend_waiter == (WaiterState { awoken: false, waker })
            &&& ready ==> after.lend_waiter.waker == mutex.lend_waiter.waker
            &&& ready && first.ref_acquired ==> !after.lend_waiter.awoken
            &&& ready && !first.ref_acquired ==> after.lend_waiter == mutex.lend_waiter
        }),
{
}

/// Taking the reference back is refused if and only if the oldest request was offered it and its
/// guard is not gone. Otherwise nothing is lended afterwards; the oldest request leaves if and only
/// if its guard is gone, the others stay in their order; and neither the termination flag nor a
/// waiter changes.
pub proof fn law_take_back<T>(mutex: MutexState<T>)
    requires
        mutex.borrowers.len() > 0,
    ensures
        mutex.still_borrowed() <==> mutex.borrowers[0].guard_present
            && mutex.borrowers[0].ref_acquired,
        ({
            let after = mutex.lend_dropped();
            let gone = !mutex.borrowers[0].guard_present;
            &&& !after.lender_present
            &&& !after.lender_lended
            &&& after.inner_ref is None
            &&& after.terminated == mutex.terminated
            &&& after.lend_waiter == mutex.lend_waiter
            &&& after.max == mutex.max
            &&& !gone ==> after.borrowers == mutex.borrowers && after.front == mutex.front
            &&& gone ==> after.borrowers == mutex.borrowers.subrange(
                1,
                mutex.borrowers.len() as int,
            ) && after.front == (mutex.front + 1) % mutex.max
        }),
{
    assert(mutex.borrowers.drop_first() =~= mutex.borrowers.subrange(
        1,
        mutex.borrowers.len() as int,
    ));
}

/// What draining leaves of the rest of the mutex.
proof fn lemma_drained<T>(mutex: MutexState<T>, waker: Option<Waker>)
    requires
        0 <= mutex.front < mutex.max,
        !mutex.lender_present,
        !mutex.lender_lended,
        mutex.inner_ref is None,
    ensures
        ({
            let (after, empty) = mutex.drained(waker);
            let gone = mutex.borrowers.len() - after.borrowers.len();
            &&& gone >= 0
            &&& empty <==> after.borrowers.len() == 0
            &&& after == (MutexState {
                borrowers: after.borrowers,
                front: after.front,
                lend_waiter: after.lend_waiter,
                ..mutex
            })
            &&& after.front == (mutex.front + gone) % mutex.max
            &&& forall|k: int| 0 <= k < gone ==> !(#[trigger] mutex.borrowers[k]).guard_present
            &&& forall|k: int|
                0 < k < after.borrowers.len() ==> #[trigger] after.borrowers[k]
                    == mutex.borrowers[gone + k]
            &&& empty ==> after.lend_waiter.waker == mutex.lend_waiter.waker
            &&& !empty ==> {
                let first = mutex.borrowers[gone];
                &&& after.lend_waiter == (WaiterState { awoken: false, waker })
                &&& !first.guard_present ==> first.ref_acquired && (gone > 0
                    || !mutex.lend_waiter.awoken)
                &&& after.borrowers[0].guard_present == first.guard_present
                &&& after.borrowers[0].ref_acquired
                &&& !first.ref_acquired ==> after.borrowers[0].waiter.awoken
                &&& first.ref_acquired ==> after.borrowers[0].waiter == first.waiter
            }
        }),
    decreases mutex.borrowers.len(),
{
    vstd::arithmetic::div_mod::lemma_small_mod(mutex.front as nat, mutex.max as nat);
    if mutex.borrowers.len() > 0 {
        let (polled, ready) = mutex.lend_polled(waker);
        law_offer(mutex, waker);
        if ready {
            let dropped = polled.lend_dropped();
            law_take_back(polled);
            vstd::arithmetic::div_mod::lemma_mod_bound(mutex.front + 1, mutex.max);
            lemma_drained(dropped, waker);
            let (after, _) = dropped.drained(waker);
            let gone = dropped.borrowers.len() - after.borrowers.len();
            vstd::arithmetic::div_mod::lemma_add_mod_noop(mutex.front + 1, gone, mutex.max);
            vstd::arithmetic::div_mod::lemma_add_mod_noop(
                (mutex.front + 1) % mutex.max,
                gone,
                mutex.max,
            );
            vstd::arithmetic::div_mod::lemma_mod_twice(mutex.front + 1, mutex.max);
            assert forall|k: int| 0 < k < mutex.borrowers.len() implies #[trigger]
                mutex.borrowers[k] == dropped.borrowers[k - 1] by {}
        }
    }
}

/// Draining a terminated mutex leaves it terminated.
proof fn lemma_drained_terminated<T>(mutex: MutexState<T>, waker: Option<Waker>)
    requires
        mutex.terminated,
    ensures
        mutex.drained(waker).0.terminated,
    decreases mutex.borrowers.len(),
{
    if mutex.borrowers.len() > 0 && mutex.lend_polled(waker).1 {
        law_offer(mutex, waker);
        law_take_back(mutex.lend_polled(waker).0);
        lemma_drained_terminated(mutex.lend_polled(waker).0.lend_dropped(), waker);
    }
}

/// Every poll of a termination leaves the mutex terminated, whatever its stage, whatever the state
/// of the mutex and whatever the poll gives; and so every request that is polled afterwards fails.
pub proof fn law_terminate_terminates<T>(
    mutex: MutexState<T>,
    stage: TerminateStage,
    waker: Option<Waker>,
    guard: UnarmedState,
    other: Option<Waker>,
)
    ensures
        mutex.terminate_polled(stage, waker).0.terminated,
        mutex.terminate_polled(stage, waker).0.unarmed_polled(guard, other).2 == Poll::<
            Result<ArmedState<T>, BorrowMutexError>,
        >::Ready(Err(BorrowMutexError::Terminated)),
{
    lemma_drained_terminated(MutexState { terminated: true, ..mutex }, waker);
    law_request_fails(mutex.terminate_polled(stage, waker).0, guard, other);
}

/// A first poll of a termination that finds the mutex terminated is over, and changes nothing; one
/// that finds a lender sets the flag, and the process has to end. Any other poll of a termination
/// takes the requests out whose guards are gone, oldest first, up to the first that is not gone or
/// waits to be told; is over if and only if none is left; and otherwise leaves the first that is
/// left offered and woken, and the polling task registered. Nothing else changes.
pub proof fn law_terminate<T>(mutex: MutexState<T>, stage: TerminateStage, waker: Option<Waker>)
    requires
        0 <= mutex.front < mutex.max,
        mutex.lender_present || !mutex.lender_lended && mutex.inner_ref is None,
        stage is Draining ==> !mutex.lender_present,
        !(stage is Finished),
    ensures
        ({
            let (after, next, polled) = mutex.terminate_polled(stage, waker);
            let again = stage is Unstarted && mutex.terminated;
            let refused = stage is Unstarted && !mutex.terminated && mutex.lender_present;
            let gone = mutex.borrowers.len() - after.borrowers.len();
            &&& again ==> after == mutex && polled == Poll::<
                Result<(), BorrowMutexAbort>,
            >::Ready(Ok(()))
            &&& refused <==> (polled matches Poll::Ready(Err(_)))
            &&& refused ==> {
                &&& polled matches Poll::Ready(Err(abort))
                &&& abort is TerminatedWhileLended
                &&& after == (MutexState { terminated: true, ..mutex })
            }
            &&& next is Draining <==> polled is Pending
            &&& next is Finished <==> !(polled is Pending)
            &&& !again && !refused ==> {
                &&& polled is Pending <==> after.borrowers.len() > 0
                &&& gone >= 0
                &&& after == (MutexState {
                    borrowers: after.borrowers,
                    front: (mutex.front + gone) % mutex.max,
                    lend_waiter: after.lend_waiter,
                    terminated: true,
                    ..mutex
                })
                &&& forall|k: int|
                    0 <= k < gone ==> !(#[trigger] mutex.borrowers[k]).guard_present
                &&& forall|k: int|
                    0 < k < after.borrowers.len() ==> #[trigger] after.borrowers[k]
                        == mutex.borrowers[gone + k]
                &&& polled is Pending ==> {
                    let first = mutex.borrowers[gone];
                    &&& after.lend_waiter == (WaiterState { awoken: false, waker })
                    &&& !first.guard_present ==> first.ref_acquired && (gone > 0
                        || !mutex.lend_waiter.awoken)
                    &&& after.borrowers[0].guard_present == first.guard_present
                    &&& after.borrowers[0].ref_acquired
                    &&& !first.ref_acquired ==> after.borrowers[0].waiter.awoken
                    &&& first.ref_acquired ==> after.borrowers[0].waiter == first.waiter
                }
                &&& !(polled is Pending) ==> after.lend_waiter.waker == mutex.lend_waiter.waker
            }
        }),
{
    if !(stage is Unstarted && mutex.lender_present) {
        lemma_drained(MutexState { terminated: true, ..mutex }, waker);
    }
}

/// Those that were told have been woken: where the waiter of a request was neither woken nor
/// offered the reference before, a wake of the waker that it held has returned.
pub proof fn law_told<T>(mutex: MutexState<T>, n: int, k: int)
    requires
        mutex.told(n),
        0 <= k < n,
        !mutex.borrowers[k].ref_acquired,
        !mutex.borrowers[k].waiter.awoken,
        mutex.borrowers[k].waiter.waker is Some,
    ensures
        call_ensures(Waker::wake, (mutex.borrowers[k].waiter.waker->0,), ()),
{
    let entry = mutex.borrowers[k];
}

/// When a request, a lend guard and a termination belong to a mutex: nothing is asked for but that
/// the request is in the queue, that the lend guard is for the oldest request while one is owed,
/// and that a termination that waits has someone to wait for.
pub proof fn law_belongs<T>(mutex: MutexState<T>, guard: UnarmedState, slot: int)
    requires
        mutex.max > 0,
    ensures
        mutex.holds(slot) <==> 0 <= slot < mutex.max && (slot - mutex.front) % mutex.max
            < mutex.borrowers.len(),
        mutex.has_unarmed(guard) <==> (guard.spent || guard.slot is None || 0 <= guard.slot->0
            < mutex.max && (guard.slot->0 - mutex.front) % mutex.max < mutex.borrowers.len()
            && mutex.borrowers[(guard.slot->0 - mutex.front) % mutex.max].guard_present),
        mutex.has_lend(slot) <==> mutex.borrowers.len() > 0 && slot == mutex.front && (
        mutex.lender_present || mutex.terminated),
        mutex.has_termination(TerminateStage::Unstarted),
        mutex.has_termination(TerminateStage::Finished),
        mutex.has_termination(TerminateStage::Draining) <==> mutex.terminated
            && mutex.borrowers.len() > 0,
{
}

/// A new mutex has nothing lended, was not terminated, and takes as many requests as it is made
/// for.
pub proof fn law_new<T>(max: int)
    ensures
        ({
            let mutex = MutexState::<T>::init(max);
            &&& mutex.max == max
            &&& mutex.borrowers.len() == 0
            &&& mutex.front == 0
            &&& mutex.inner_ref is None
            &&& !mutex.lender_present
            &&& !mutex.lender_lended
            &&& !mutex.terminated
            &&& !mutex.lend_waiter.awoken
            &&& mutex.lend_waiter.waker is None
        }),
{
}

/// The reference goes round: what is lended is what the oldest request gets, once the lend guard
/// was polled; as long as it has it, the lender neither goes on nor takes it back; and when it is
/// given back, the lender goes on, and the next request is the oldest. Nothing of this depends on
/// how many requests there are.
pub proof fn law_round_trip<T>(
    mutex: MutexState<T>,
    value: T,
    waker: Option<Waker>,
    other: Option<Waker>,
)
    requires
        2 <= mutex.max <= usize::MAX,
        0 <= mutex.front < mutex.max,
        0 < mutex.borrowers.len() <= mutex.max,
        !mutex.lender_present,
        !mutex.terminated,
        mutex.borrowers[0].guard_present,
        !mutex.borrowers[0].ref_acquired,
        !mutex.borrowers[0].waiter.awoken,
    ensures
        ({
            let slot = mutex.front as usize;
            let request = UnarmedState { slot: Some(slot), spent: false };
            let lended = mutex.lend_called(value).0;
            let (offered, early) = lended.lend_polled(waker);
            let (taken, spent, polled) = offered.unarmed_polled(request, other);
            let returned = taken.released(slot as int);
            let (told, ready) = returned.lend_polled(waker);
            let ended = told.lend_dropped();
            &&& lended.unarmed_polled(request, other).2 is Pending
            &&& !early
            &&& polled == Poll::<Result<ArmedState<T>, BorrowMutexError>>::Ready(
                Ok(ArmedState { inner_ref: value, slot }),
            )
            &&& spent.spent
            &&& !taken.lend_polled(waker).1
            &&& taken.still_borrowed()
            &&& ready
            &&& !told.still_borrowed()
            &&& ended.borrowers == mutex.borrowers.subrange(1, mutex.borrowers.len() as int)
            &&& ended.front == (mutex.front + 1) % mutex.max
            &&& ended == (MutexState {
                borrowers: ended.borrowers,
                front: ended.front,
                lend_waiter: ended.lend_waiter,
                inner_ref: None,
                lender_lended: false,
                ..mutex
            })
        }),
{
    let slot = mutex.front as usize;
    vstd::arithmetic::div_mod::lemma_small_mod(0, mutex.max as nat);
    law_lend(mutex, value);
    let lended = mutex.lend_called(value).0;
    law_queued_request(lended, slot, other);
    law_offer(lended, waker);
    let offered = lended.lend_polled(waker).0;
    law_queued_request(offered, slot, other);
    let taken = offered.unarmed_polled(UnarmedState { slot: Some(slot), spent: false }, other).0;
    law_offer(taken, waker);
    law_take_back(taken);
    law_release(taken, slot);
    let returned = taken.released(slot as int);
    law_offer(returned, waker);
    let told = returned.lend_polled(waker).0;
    law_take_back(told);
    assert(told.borrowers.subrange(1, told.borrowers.len() as int) =~= mutex.borrowers.subrange(
        1,
        mutex.borrowers.len() as int,
    ));
}

} // verus!
