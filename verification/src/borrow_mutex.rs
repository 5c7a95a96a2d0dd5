//! A mutex that lends a reference out instead of owning what it guards.
//!
//! The methods here work on a mutex that the caller has to itself, and say what they do to its
//! state. They are made of the accesses in [`steps`], which tasks that share a mutex can make in
//! any order; [`threads`] says what holds then. [`calls`] and [`accesses`] say of each whole call
//! and of each single access what it is for.

use crate::atomic_waiter::{AtomicWaiter, WaiterState};
use crate::borrow_mutex::steps::{
    lend_next, lender_next, offer_next, release_next, request_next, take_back_next, LendStep,
    LenderStep, OfferStep, ReleaseStep, RequestOp, RequestStep, TakeBackStep, TerminateStep,
};
use crate::counter;
use crate::mpmc::ring::Ring;
use crate::task;
use crate::text;
use core::task::{Poll, Waker};
use vstd::prelude::*;
use vstd::string::StringExecFns;

pub mod accesses;
pub mod calls;
pub mod interleaving;
pub mod steps;
pub mod threads;

verus! {

/// Why a borrow fails.
#[derive(Clone, Copy, Debug, PartialEq, Eq, Structural)]
pub enum BorrowMutexError {
    TooManyBorrows,
    Terminated,
}

/// Why the process has to end: going on would leave two owners of one mutable reference.
#[derive(Clone, Copy, Debug, PartialEq, Eq, Structural)]
pub enum BorrowMutexAbort {
    /// A reference is lended while another one is.
    MultipleLenders,
    /// A reference is lended to a mutex that was terminated.
    LendedWhileTerminated,
    /// The mutex is terminated while a reference is lended.
    TerminatedWhileLended,
    /// The lender takes its reference back while it is still borrowed.
    LendGuardDropped,
}

impl BorrowMutexError {
    pub open spec fn text(self) -> Seq<char> {
        match self {
            BorrowMutexError::TooManyBorrows => "Too many borrow requests that are still pending"@,
            BorrowMutexError::Terminated =>
                "The mutex was terminated and won't be ever lend-ed to again"@,
        }
    }

    /// The error in words.
    pub fn message(&self) -> (r: &'static str)
        ensures
            r@ == self.text(),
    {
        match self {
            BorrowMutexError::TooManyBorrows => "Too many borrow requests that are still pending",
            BorrowMutexError::Terminated =>
                "The mutex was terminated and won't be ever lend-ed to again",
        }
    }
}

impl BorrowMutexAbort {
    pub open spec fn text(self) -> Seq<char> {
        match self {
            BorrowMutexAbort::MultipleLenders =>
                "multiple distinct references lended to a BorrowMutex"@,
            BorrowMutexAbort::LendedWhileTerminated => "BorrowMutex lended to while terminated"@,
            BorrowMutexAbort::TerminatedWhileLended =>
                "BorrowMutex terminated while a reference is lended"@,
            BorrowMutexAbort::LendGuardDropped =>
                "LendGuard dropped while the reference is still borrowed"@,
        }
    }

    /// What is printed before the process ends.
    pub fn message(&self) -> (r: &'static str)
        ensures
            r@ == self.text(),
    {
        match self {
            BorrowMutexAbort::MultipleLenders =>
                "multiple distinct references lended to a BorrowMutex",
            BorrowMutexAbort::LendedWhileTerminated => "BorrowMutex lended to while terminated",
            BorrowMutexAbort::TerminatedWhileLended =>
                "BorrowMutex terminated while a reference is lended",
            BorrowMutexAbort::LendGuardDropped =>
                "LendGuard dropped while the reference is still borrowed",
        }
    }
}

/// What a borrow request holds while it is queued.
pub struct BorrowState {
    /// Woken when the reference can be taken.
    pub waiter: WaiterState,
    /// The lender has offered the reference to this request.
    pub ref_acquired: bool,
    /// The guard of this request has not been dropped yet.
    pub guard_present: bool,
}

impl BorrowState {
    /// A request that nobody has answered.
    pub open spec fn new() -> BorrowState {
        BorrowState {
            waiter: WaiterState { awoken: false, waker: None },
            ref_acquired: false,
            guard_present: true,
        }
    }
}

/// What a mutex holds.
pub struct MutexState<T> {
    /// The lended reference.
    pub inner_ref: Option<T>,
    /// Woken when a request comes in and when a guard is dropped.
    pub lend_waiter: WaiterState,
    pub lender_present: bool,
    pub lender_lended: bool,
    pub terminated: bool,
    /// The requests, oldest first.
    pub borrowers: Seq<BorrowState>,
    /// The slot of the oldest request.
    pub front: int,
    /// How many requests can be pending at a time: as many as there are slots.
    pub max: int,
}

/// A request for a borrow, from its making to its end.
#[derive(Clone, Copy, Debug, PartialEq, Eq, Structural)]
pub struct UnarmedState {
    /// The slot of the request, once it is queued.
    pub slot: Option<usize>,
    /// The request is over, and dropping it does nothing.
    pub spent: bool,
}

/// A borrowed reference.
pub struct ArmedState<T> {
    pub inner_ref: T,
    pub slot: usize,
}

/// How far a termination has come.
#[derive(Clone, Copy, Debug, PartialEq, Eq, Structural)]
pub enum TerminateStage {
    Unstarted,
    /// The oldest request was told, and its guard is still there.
    Draining,
    Finished,
}

impl<T> MutexState<T> {
    pub open spec fn is_full(self) -> bool {
        self.borrowers.len() == self.max
    }

    /// How many requests are ahead of the one in `slot`.
    pub open spec fn position(self, slot: int) -> int {
        counter::slot_of(slot - self.front, self.max)
    }

    /// `slot` holds a request.
    pub open spec fn holds(self, slot: int) -> bool {
        0 <= slot < self.max && self.position(slot) < self.borrowers.len()
    }

    pub open spec fn entry(self, slot: int) -> BorrowState {
        self.borrowers[self.position(slot)]
    }

    pub open spec fn with_entry(self, slot: int, entry: BorrowState) -> MutexState<T> {
        MutexState { borrowers: self.borrowers.update(self.position(slot), entry), ..self }
    }

    /// The slot of the next request to come.
    pub open spec fn next_slot(self) -> int {
        counter::slot_of(self.front + self.borrowers.len(), self.max)
    }

    /// What holds of every mutex: only the oldest request is ever offered the reference, only
    /// one that was offered it is woken, and it is offered only while the reference is lended or
    /// after the mutex was terminated.
    pub open spec fn wf(self) -> bool {
        &&& counter::valid_size(self.max)
        &&& self.max <= usize::MAX
        &&& 0 <= self.front < self.max
        &&& self.borrowers.len() <= self.max
        &&& self.lender_lended == self.lender_present
        &&& self.lender_lended == self.inner_ref is Some
        &&& self.lender_present ==> !self.terminated && self.borrowers.len() > 0
        &&& forall|k: int|
            0 <= k < self.borrowers.len() ==> ((#[trigger] self.borrowers[k]).ref_acquired ==> k
                == 0 && (self.lender_present || self.terminated))
        &&& forall|k: int|
            0 <= k < self.borrowers.len() ==> ((#[trigger] self.borrowers[k]).waiter.awoken
                ==> self.borrowers[k].ref_acquired)
    }

    /// The mutex without any request, as it is made.
    pub open spec fn init(max: int) -> MutexState<T> {
        MutexState {
            inner_ref: None,
            lend_waiter: WaiterState { awoken: false, waker: None },
            lender_present: false,
            lender_lended: false,
            terminated: false,
            borrowers: Seq::empty(),
            front: 0,
            max,
        }
    }

    /// A request is queued.
    pub open spec fn queued(self) -> MutexState<T> {
        MutexState { borrowers: self.borrowers.push(BorrowState::new()), ..self }
    }

    /// The lender is woken.
    pub open spec fn lender_woken(self) -> MutexState<T> {
        MutexState { lend_waiter: self.lend_waiter.woken(), ..self }
    }

    /// The waiter of the lender is polled, and `waker` is left registered.
    pub open spec fn lender_registered(self, waker: Option<Waker>) -> MutexState<T> {
        MutexState { lend_waiter: self.lend_waiter.polled(waker), ..self }
    }

    /// The slot of the oldest request.
    pub open spec fn oldest(self) -> Option<usize> {
        if self.borrowers.len() > 0 {
            Some(self.front as usize)
        } else {
            None
        }
    }

    /// A request is queued, and the lender is woken.
    pub open spec fn requested(self) -> MutexState<T> {
        self.queued().lender_woken()
    }

    /// The guard of the request in `slot` is dropped, and the lender is woken.
    pub open spec fn released(self, slot: int) -> MutexState<T> {
        MutexState {
            lend_waiter: self.lend_waiter.woken(),
            ..self.with_entry(slot, BorrowState { guard_present: false, ..self.entry(slot) })
        }
    }

    /// `value` is lended.
    pub open spec fn lended(self, value: T) -> MutexState<T> {
        MutexState {
            inner_ref: Some(value),
            lender_present: true,
            lender_lended: true,
            ..self
        }
    }

    /// What lending `value` does, and the slot of the request that it is lended to, if any. The
    /// flag that a lender is present is set before the termination flag is looked at.
    pub open spec fn lend_called(self, value: T) -> (
        MutexState<T>,
        Result<Option<int>, BorrowMutexAbort>,
    ) {
        if self.lender_present {
            (self, Err(BorrowMutexAbort::MultipleLenders))
        } else if self.terminated {
            (
                MutexState { lender_present: true, ..self },
                Err(BorrowMutexAbort::LendedWhileTerminated),
            )
        } else if self.borrowers.len() == 0 {
            (self, Ok(None))
        } else {
            (self.lended(value), Ok(Some(self.front)))
        }
    }

    /// The slot of the oldest request holds it.
    pub proof fn lemma_front(self)
        requires
            self.wf(),
            self.borrowers.len() > 0,
        ensures
            self.holds(self.front),
            self.position(self.front) == 0,
    {
        vstd::arithmetic::div_mod::lemma_small_mod(0, self.max as nat);
    }

    /// The lended reference is taken back.
    pub open spec fn unlended(self) -> MutexState<T> {
        MutexState { inner_ref: None, lender_present: false, lender_lended: false, ..self }
    }

    /// The oldest request leaves.
    pub open spec fn popped(self) -> MutexState<T> {
        MutexState {
            borrowers: self.borrowers.drop_first(),
            front: counter::slot_of(self.front + 1, self.max),
            ..self
        }
    }

    /// A poll of the lend guard: it offers the reference to the oldest request once, and is
    /// over when the guard of that request is gone. `waker` is what it leaves registered if it
    /// is not.
    pub open spec fn lend_polled(self, waker: Option<Waker>) -> (MutexState<T>, bool) {
        let entry = self.borrowers[0];
        let offered = if entry.ref_acquired {
            self
        } else {
            MutexState {
                borrowers: self.borrowers.update(
                    0,
                    BorrowState { ref_acquired: true, waiter: entry.waiter.woken(), ..entry },
                ),
                ..self
            }
        };
        if !entry.guard_present && !entry.ref_acquired {
            (offered, true)
        } else if !entry.guard_present && self.lend_waiter.awoken {
            (
                MutexState {
                    lend_waiter: self.lend_waiter.polled(self.lend_waiter.waker),
                    ..offered
                },
                true,
            )
        } else {
            (MutexState { lend_waiter: self.lend_waiter.polled(waker), ..offered }, false)
        }
    }

    /// The lend guard is dropped. The oldest request leaves with it, unless it was never
    /// offered the reference and still waits for it.
    pub open spec fn lend_dropped(self) -> MutexState<T> {
        if self.borrowers[0].guard_present {
            self.unlended()
        } else {
            self.unlended().popped()
        }
    }

    /// The first `n` requests have been told that the reference is there, or that it never will
    /// be: the tasks of those that had not been offered it yet were woken.
    pub open spec fn told(self, n: int) -> bool {
        forall|k: int|
            0 <= k < n && !(#[trigger] self.borrowers[k]).ref_acquired
                ==> self.borrowers[k].waiter.task_woken()
    }

    /// Dropping the lend guard would take the reference away from a borrower.
    pub open spec fn still_borrowed(self) -> bool {
        self.borrowers[0].guard_present && self.borrowers[0].ref_acquired
    }

    /// A poll of a lender: it is over when there is a request. `waker` is what it leaves
    /// registered if there is none.
    pub open spec fn lender_polled(self, waker: Option<Waker>) -> (MutexState<T>, bool) {
        if self.borrowers.len() > 0 {
            (self, true)
        } else {
            (MutexState { lend_waiter: self.lend_waiter.polled(waker), ..self }, false)
        }
    }

    /// A lend guard for the request in `slot` belongs to this mutex: the request is the oldest
    /// one, and the reference is lended or the mutex was terminated.
    pub open spec fn has_lend(self, slot: int) -> bool {
        &&& self.borrowers.len() > 0
        &&& slot == self.front
        &&& self.lender_present || self.terminated
    }

    /// A poll of a terminated mutex by the task that terminates it: requests leave, oldest
    /// first, as far as their guards are gone, and the first that is left is told.
    pub open spec fn drained(self, waker: Option<Waker>) -> (MutexState<T>, bool)
        decreases self.borrowers.len(),
    {
        if self.borrowers.len() == 0 {
            (self, true)
        } else {
            let (polled, ready) = self.lend_polled(waker);
            if ready {
                polled.lend_dropped().drained(waker)
            } else {
                (polled, false)
            }
        }
    }

    /// A poll by the task that terminates the mutex.
    pub open spec fn terminate_polled(self, stage: TerminateStage, waker: Option<Waker>) -> (
        MutexState<T>,
        TerminateStage,
        Poll<Result<(), BorrowMutexAbort>>,
    ) {
        if stage is Unstarted && self.terminated {
            (self, TerminateStage::Finished, Poll::Ready(Ok(())))
        } else if stage is Unstarted && self.lender_present {
            (
                MutexState { terminated: true, ..self },
                TerminateStage::Finished,
                Poll::Ready(Err(BorrowMutexAbort::TerminatedWhileLended)),
            )
        } else {
            let (drained, empty) = (MutexState { terminated: true, ..self }).drained(waker);
            if empty {
                (drained, TerminateStage::Finished, Poll::Ready(Ok(())))
            } else {
                (drained, TerminateStage::Draining, Poll::Pending)
            }
        }
    }

    /// A termination that has come to `stage` belongs to this mutex.
    pub open spec fn has_termination(self, stage: TerminateStage) -> bool {
        stage is Draining ==> self.terminated && self.borrowers.len() > 0
    }

    /// The mutex that a poll of a request finds its entry in, and the slot of the entry: one
    /// that is not queued yet is queued first.
    pub open spec fn arrival(self, guard: UnarmedState) -> (MutexState<T>, usize) {
        match guard.slot {
            Some(slot) => (self, slot),
            None => (self.requested(), self.next_slot() as usize),
        }
    }

    /// A poll of the request gets as far as its entry.
    pub open spec fn admits(self, guard: UnarmedState) -> bool {
        &&& !self.terminated
        &&& !guard.spent
        &&& guard.slot is Some || !self.is_full()
    }

    /// A poll of a request, with `waker` left registered in its entry.
    pub open spec fn unarmed_polled(self, guard: UnarmedState, waker: Option<Waker>) -> (
        MutexState<T>,
        UnarmedState,
        Poll<Result<ArmedState<T>, BorrowMutexError>>,
    ) {
        if self.terminated {
            (
                self,
                UnarmedState { spent: guard.spent || guard.slot is None, ..guard },
                Poll::Ready(Err(BorrowMutexError::Terminated)),
            )
        } else if guard.spent {
            (self, guard, Poll::Ready(Err(BorrowMutexError::Terminated)))
        } else if guard.slot is None && self.is_full() {
            (self, guard, Poll::Ready(Err(BorrowMutexError::TooManyBorrows)))
        } else {
            let (mutex, slot) = self.arrival(guard);
            let entry = mutex.entry(slot as int);
            let polled = mutex.with_entry(
                slot as int,
                BorrowState { waiter: entry.waiter.polled(waker), ..entry },
            );
            if entry.waiter.awoken {
                (
                    polled,
                    UnarmedState { slot: Some(slot), spent: true },
                    Poll::Ready(Ok(ArmedState { inner_ref: mutex.inner_ref->0, slot })),
                )
            } else {
                (polled, UnarmedState { slot: Some(slot), spent: false }, Poll::Pending)
            }
        }
    }

    /// The request is dropped. One that was never queued leaves nothing behind.
    pub open spec fn unarmed_dropped(self, guard: UnarmedState) -> MutexState<T> {
        match guard.slot {
            Some(slot) if !guard.spent => self.released(slot as int),
            _ => self,
        }
    }

    /// The request belongs to this mutex: once queued, it is in the queue until it is over.
    pub open spec fn has_unarmed(self, guard: UnarmedState) -> bool {
        guard.slot matches Some(slot) ==> !guard.spent ==> {
            &&& self.holds(slot as int)
            &&& self.entry(slot as int).guard_present
        }
    }
}

/// The waker that is registered in the entry of a request.
pub open spec fn entry_waker<T>(mutex: MutexState<T>, guard: UnarmedState) -> Option<Waker> {
    match guard.slot {
        Some(slot) => mutex.entry(slot as int).waiter.waker,
        None => None,
    }
}

/// A queued request. It stays in the queue of its mutex until both sides are done with it.
struct BorrowMutexRef {
    borrow_waiter: AtomicWaiter,
    ref_acquired: bool,
    guard_present: bool,
}

impl BorrowMutexRef {
    closed spec fn view(&self) -> BorrowState {
        BorrowState {
            waiter: self.borrow_waiter@,
            ref_acquired: self.ref_acquired,
            guard_present: self.guard_present,
        }
    }

    fn new() -> (r: BorrowMutexRef)
        ensures
            r@ == BorrowState::new(),
    {
        BorrowMutexRef {
            borrow_waiter: AtomicWaiter::new(),
            ref_acquired: false,
            guard_present: true,
        }
    }
}

spec fn entries(borrowers: Seq<BorrowMutexRef>) -> Seq<BorrowState> {
    Seq::new(borrowers.len(), |k: int| borrowers[k]@)
}

/// A request that `start` admitted as `guard` was polled in `slot` and found its waiter woken.
spec fn granted<T>(
    start: MutexState<T>,
    guard: UnarmedState,
    now: MutexState<T>,
    slot: usize,
    waker: Waker,
) -> bool {
    let (mutex, arrived) = start.arrival(guard);
    let entry = mutex.entry(slot as int);
    let after = now.entry(slot as int).waiter.waker;
    &&& start.admits(guard)
    &&& arrived == slot
    &&& entry.waiter.awoken
    &&& entry.waiter.registers(waker, after)
    &&& now == mutex.with_entry(
        slot as int,
        BorrowState { waiter: entry.waiter.polled(after), ..entry },
    )
    &&& now.holds(slot as int)
    &&& now.entry(slot as int).guard_present
    &&& guard.slot is None ==> start.lend_waiter.task_woken()
    &&& now.lender_lended
    &&& now.inner_ref is Some
    &&& now.wf()
}

/// What a poll of the request `guard` has done to `start` when it is over.
spec fn request_done<T>(
    start: MutexState<T>,
    guard: UnarmedState,
    now: MutexState<T>,
    op: RequestOp<T>,
    waker: Waker,
) -> bool {
    let after = entry_waker(now, op.guard);
    let (state, request, polled) = start.unarmed_polled(guard, after);
    &&& now == state
    &&& now.wf()
    &&& op.guard == request
    &&& now.has_unarmed(request)
    &&& match (op.step, polled) {
        (RequestStep::Pending, Poll::Pending) => true,
        (RequestStep::Failed { error }, Poll::Ready(Err(e))) => error == e,
        (RequestStep::Armed { guard }, Poll::Ready(Ok(g))) => guard == g,
        _ => false,
    }
    &&& start.admits(guard) ==> {
        let (mutex, slot) = start.arrival(guard);
        mutex.entry(slot as int).waiter.registers(waker, after)
    }
    &&& start.admits(guard) && guard.slot is None ==> start.lend_waiter.task_woken()
}

/// How far a poll of the request `guard` has come, in a mutex that was `start` when it began.
spec fn request_progress<T>(
    start: MutexState<T>,
    guard: UnarmedState,
    now: MutexState<T>,
    op: RequestOp<T>,
    waker: Waker,
) -> bool {
    match op.step {
        RequestStep::LoadTerminated => now == start && op.guard == guard,
        RequestStep::Push => {
            &&& now == start
            &&& op.guard == guard
            &&& guard.slot is None
            &&& !guard.spent
            &&& !start.terminated
        },
        RequestStep::WakeLender { slot } => {
            &&& start.admits(guard)
            &&& guard.slot is None
            &&& now == start.queued()
            &&& slot == start.next_slot()
            &&& op.guard == (UnarmedState { slot: Some(slot), spent: false })
            &&& now.holds(slot as int)
            &&& now.position(slot as int) == start.borrowers.len()
        },
        RequestStep::PollEntry { slot } => {
            &&& start.admits(guard)
            &&& (now, slot) == start.arrival(guard)
            &&& op.guard == (UnarmedState { slot: Some(slot), spent: false })
            &&& now.wf()
            &&& now.holds(slot as int)
            &&& now.entry(slot as int).guard_present
            &&& guard.slot is None ==> start.lend_waiter.task_woken()
        },
        RequestStep::CheckAgain { .. } => {
            &&& !start.terminated
            &&& request_done(
                start,
                guard,
                now,
                RequestOp { step: RequestStep::Pending, ..op },
                waker,
            )
        },
        RequestStep::LoadLended { slot } | RequestStep::ReadRef { slot } => {
            &&& granted(start, guard, now, slot, waker)
            &&& op.guard == (UnarmedState { slot: Some(slot), spent: false })
        },
        _ => request_done(start, guard, now, op, waker),
    }
}

/// How far a call that lends `value` has come, in a mutex that was `start` when it began.
spec fn lend_progress<T>(
    start: MutexState<T>,
    value: T,
    now: MutexState<T>,
    step: LendStep,
) -> bool {
    let present = MutexState { lender_present: true, ..start };
    let (after, called) = start.lend_called(value);
    &&& !(step is SwapPresent) && !(step is Aborted) ==> !start.lender_present
    &&& match step {
        LendStep::SwapPresent => now == start,
        LendStep::LoadTerminated => now == present,
        LendStep::WriteRef => now == present && !start.terminated,
        LendStep::SetLended => {
            &&& now == (MutexState { inner_ref: Some(value), ..present })
            &&& !start.terminated
        },
        LendStep::Peek => now == start.lended(value) && !start.terminated,
        LendStep::ClearLended => {
            &&& now == start.lended(value)
            &&& called == Ok::<Option<int>, BorrowMutexAbort>(None)
        },
        LendStep::ClearRef => {
            &&& now == (MutexState { inner_ref: Some(value), ..present })
            &&& called == Ok::<Option<int>, BorrowMutexAbort>(None)
        },
        LendStep::ClearPresent => {
            &&& now == present
            &&& called == Ok::<Option<int>, BorrowMutexAbort>(None)
        },
        LendStep::Lended { slot } => {
            &&& now == after
            &&& called == Ok::<Option<int>, BorrowMutexAbort>(Some(slot as int))
        },
        LendStep::NoRequest => {
            &&& now == after
            &&& called == Ok::<Option<int>, BorrowMutexAbort>(None)
        },
        LendStep::Aborted { reason } => {
            &&& now == after
            &&& called == Err::<Option<int>, BorrowMutexAbort>(reason)
        },
    }
}

/// How far a poll of a lend guard has come, in a mutex that was `start` when it began.
spec fn offer_progress<T>(
    start: MutexState<T>,
    now: MutexState<T>,
    step: OfferStep,
    waker: Waker,
) -> bool {
    let first = start.borrowers[0];
    let marked = MutexState {
        borrowers: start.borrowers.update(0, BorrowState { ref_acquired: true, ..first }),
        ..start
    };
    let offered = start.lend_polled(None).0.borrowers;
    &&& now.front == start.front
    &&& now.max == start.max
    &&& now.borrowers.len() == start.borrowers.len()
    &&& !(step is SwapAcquired) && !(step is WakeBorrower) ==> {
        &&& start.told(1)
        &&& now == (MutexState { borrowers: offered, lend_waiter: now.lend_waiter, ..start })
    }
    &&& match step {
        OfferStep::SwapAcquired => now == start,
        OfferStep::WakeBorrower => now == marked && !first.ref_acquired,
        OfferStep::LoadGuard => {
            ||| !first.ref_acquired && now.lend_waiter == start.lend_waiter
            ||| start.lend_waiter.awoken && now.lend_waiter == start.lend_waiter.polled(
                start.lend_waiter.waker,
            ) && (first.ref_acquired || first.guard_present)
        },
        OfferStep::PollWaiter => {
            ||| now.lend_waiter == start.lend_waiter && (first.ref_acquired || first.guard_present)
            ||| start.lend_waiter.awoken && first.guard_present && now.lend_waiter
                == start.lend_waiter.polled(start.lend_waiter.waker)
        },
        OfferStep::Ready => (now, true) == start.lend_polled(now.lend_waiter.waker),
        OfferStep::Pending => {
            &&& (now, false) == start.lend_polled(now.lend_waiter.waker)
            &&& task::registers(start.lend_waiter.waker, waker, now.lend_waiter.waker)
        },
    }
}

/// How far dropping a lend guard has come, in a mutex that was `start` when it began.
spec fn take_back_progress<T>(
    start: MutexState<T>,
    now: MutexState<T>,
    step: TakeBackStep,
) -> bool {
    let first = start.borrowers[0];
    match step {
        TakeBackStep::LoadGuard => now == start,
        TakeBackStep::LoadAcquired => now == start && first.guard_present,
        TakeBackStep::ClearLended { leave } => {
            &&& now == start
            &&& leave == !first.guard_present
            &&& !start.still_borrowed()
        },
        TakeBackStep::ClearRef { leave } => {
            &&& now == (MutexState { lender_lended: false, ..start })
            &&& leave == !first.guard_present
            &&& !start.still_borrowed()
        },
        TakeBackStep::Pop => {
            &&& now == (MutexState { lender_lended: false, inner_ref: None, ..start })
            &&& !first.guard_present
        },
        TakeBackStep::ClearPresent => {
            &&& now == (MutexState {
                lender_present: start.lender_present,
                ..start.lend_dropped()
            })
            &&& !start.still_borrowed()
        },
        TakeBackStep::Done => now == start.lend_dropped() && !start.still_borrowed(),
        TakeBackStep::Aborted => now == start && start.still_borrowed(),
    }
}

/// A mutex to which a reference can be lended for others to borrow, one at a time and in the
/// order in which they asked. `T` is the reference: a plain value that stands for it.
///
/// `MAX_BORROWERS` requests can be pending at a time. They are queued in place: nothing is
/// allocated.
pub struct BorrowMutex<const MAX_BORROWERS: usize, T> {
    inner_ref: Option<T>,
    lend_waiter: AtomicWaiter,
    lender_present: bool,
    lender_lended: bool,
    terminated: bool,
    borrowers: Ring<MAX_BORROWERS, BorrowMutexRef>,
}

/// A request for a borrow. It is queued when it is first polled, and succeeds once the
/// reference is lended to it.
pub struct BorrowMutexGuardUnarmed {
    request: UnarmedState,
}

/// A borrowed reference.
pub struct BorrowMutexGuardArmed<T> {
    guard: ArmedState<T>,
}

/// The slot of the request that a lend guard is for.
pub open spec fn lend_slot(
    r: Result<Option<BorrowMutexLendGuard>, BorrowMutexAbort>,
) -> Result<Option<int>, BorrowMutexAbort> {
    match r {
        Ok(Some(guard)) => Ok(Some(guard@ as int)),
        Ok(None) => Ok(None),
        Err(abort) => Err(abort),
    }
}

/// Waits for a request.
pub struct BorrowMutexLender;

/// A lended reference. It waits for the oldest request to take the reference and give it back.
pub struct BorrowMutexLendGuard {
    borrow: usize,
}

/// Terminates a mutex. It waits for every pending request to be dropped.
pub struct BorrowMutexTerminate {
    stage: TerminateStage,
}

impl BorrowMutexTerminate {
    pub closed spec fn view(&self) -> TerminateStage {
        self.stage
    }
}

impl BorrowMutexGuardUnarmed {
    pub closed spec fn view(&self) -> UnarmedState {
        self.request
    }
}

impl<T> BorrowMutexGuardArmed<T> {
    pub closed spec fn view(&self) -> ArmedState<T> {
        self.guard
    }
}

impl BorrowMutexLendGuard {
    /// The slot of the request that the reference is lended to.
    pub closed spec fn view(&self) -> usize {
        self.borrow
    }
}

impl<const M: usize, T: Copy> BorrowMutex<M, T> {
    pub closed spec fn state(&self) -> MutexState<T> {
        MutexState {
            inner_ref: self.inner_ref,
            lend_waiter: self.lend_waiter@,
            lender_present: self.lender_present,
            lender_lended: self.lender_lended,
            terminated: self.terminated,
            borrowers: entries(self.borrowers@),
            front: self.borrowers.state().front(),
            max: M as int,
        }
    }

    /// The queue is in order. This holds between any two accesses.
    pub closed spec fn sized(&self) -> bool {
        &&& self.borrowers.wf()
        &&& self.borrowers.state().size == M
        &&& self.borrowers.state().capacity == M
        &&& counter::valid_size(M as int)
    }

    /// What holds between any two operations.
    pub open spec fn wf(&self) -> bool {
        &&& self.sized()
        &&& self.state().wf()
    }

    /// A mutex that nothing is lended to.
    pub fn new() -> (r: Self)
        requires
            counter::valid_size(M as int),
        ensures
            r.wf(),
            r.state() == MutexState::<T>::init(M as int),
    {
        proof {
            vstd::arithmetic::div_mod::lemma_small_mod(0, M as nat);
        }
        let r = BorrowMutex {
            inner_ref: None,
            lend_waiter: AtomicWaiter::new(),
            lender_present: false,
            lender_lended: false,
            terminated: false,
            borrowers: Ring::new(M),
        };
        assert(r.state().borrowers =~= Seq::empty());
        r
    }

    /// A request that succeeds when a reference is lended to it.
    pub fn request_borrow(&self) -> (guard: BorrowMutexGuardUnarmed)
        ensures
            guard@ == (UnarmedState { slot: None, spent: false }),
    {
        BorrowMutexGuardUnarmed { request: UnarmedState { slot: None, spent: false } }
    }

    /// The same as [`BorrowMutex::request_borrow`].
    pub fn try_borrow(&self) -> (guard: BorrowMutexGuardUnarmed)
        ensures
            guard@ == (UnarmedState { slot: None, spent: false }),
    {
        self.request_borrow()
    }

    /// Succeeds when a request is pending.
    pub fn wait_to_lend(&self) -> (lender: BorrowMutexLender)
        ensures
            lender == BorrowMutexLender,
    {
        BorrowMutexLender
    }

    /// Lends `value` to the oldest request. Gives `None`, and lends nothing, where there is
    /// none. An error says that the process must not go on.
    pub fn lend(&mut self, value: T) -> (r: Result<
        Option<BorrowMutexLendGuard>,
        BorrowMutexAbort,
    >)
        requires
            old(self).wf(),
        ensures
            final(self).sized(),
            r is Ok ==> final(self).wf(),
            (final(self).state(), lend_slot(r)) == old(self).state().lend_called(value),
            old(self).state().lender_present ==> r == Err::<
                Option<BorrowMutexLendGuard>,
                BorrowMutexAbort,
            >(BorrowMutexAbort::MultipleLenders),
            !old(self).state().lender_present && old(self).state().terminated ==> r == Err::<
                Option<BorrowMutexLendGuard>,
                BorrowMutexAbort,
            >(BorrowMutexAbort::LendedWhileTerminated),
            !old(self).state().lender_present && !old(self).state().terminated ==> if old(
                self,
            ).state().borrowers.len() == 0 {
                r matches Ok(None)
            } else {
                &&& r matches Ok(Some(guard))
                &&& guard@ == old(self).state().front
                &&& final(self).state().inner_ref == Some(value)
                &&& final(self).state().lender_lended
            },
    {
        let mut step = LendStep::SwapPresent;
        while !step.finished()
            invariant
                old(self).wf(),
                self.sized(),
                lend_progress(old(self).state(), value, self.state(), step),
            decreases step.remaining(),
        {
            step = self.advance_lend(value, step);
        }
        match step {
            LendStep::Lended { slot } => Ok(Some(BorrowMutexLendGuard { borrow: slot })),
            LendStep::Aborted { reason } => Err(reason),
            _ => Ok(None),
        }
    }

    /// Marks the mutex as terminated, once the result is polled: every request, pending or yet
    /// to come, fails with [`BorrowMutexError::Terminated`].
    pub fn terminate(&self) -> (termination: BorrowMutexTerminate)
        ensures
            termination@ == TerminateStage::Unstarted,
    {
        BorrowMutexTerminate { stage: TerminateStage::Unstarted }
    }

    /// The mutex in words.
    pub fn debug_text(&self) -> (r: String)
        ensures
            r@ == "BorrowMutex { available_for_borrow: "@ + text::flag(
                self.state().lender_lended,
            ) + " }"@,
    {
        let mut r = "BorrowMutex { available_for_borrow: ".to_owned();
        r.append(text::flag_text(self.lender_lended));
        r.append(" }");
        r
    }
}

impl<const M: usize, T: Copy> BorrowMutex<M, T> {
    /// An entry of the queue is the same entry of the state.
    proof fn lemma_entry(mutex: Self, slot: int)
        requires
            mutex.sized(),
            mutex.state().holds(slot),
        ensures
            mutex.borrowers.state().holds(slot),
            mutex.state().entry(slot) == mutex.borrowers@[mutex.borrowers.state().position(slot)]@,
    {
        counter::lemma_slot_position(mutex.borrowers.state().front(), slot, M as int);
    }

    /// Replacing an entry of the queue replaces the same entry of the state.
    proof fn lemma_entry_updated(before: Self, after: Self, slot: int, entry: BorrowMutexRef)
        requires
            before.sized(),
            before.borrowers.state().holds(slot),
            after.borrowers@ == before.borrowers@.update(
                before.borrowers.state().position(slot),
                entry,
            ),
        ensures
            before.state().holds(slot),
            before.state().entry(slot) == before.borrowers@[before.borrowers.state().position(
                slot,
            )]@,
            after.state().borrowers == before.state().borrowers.update(
                before.state().position(slot),
                entry@,
            ),
    {
        let k = before.borrowers.state().position(slot);
        counter::lemma_slot_position(before.borrowers.state().front(), slot, M as int);
        assert(after.state().borrowers =~= before.state().borrowers.update(k, entry@));
    }

    /// At most `MAX_BORROWERS` requests are pending, between any two accesses.
    pub proof fn law_bounded(self)
        requires
            self.sized(),
        ensures
            self.state().max == M,
            self.state().borrowers.len() <= M,
            counter::valid_size(M as int),
            self.state().max <= usize::MAX,
            0 <= self.state().front < self.state().max,
    {
        vstd::arithmetic::div_mod::lemma_mod_bound(
            self.borrowers.state().cons_tail as int,
            M as int,
        );
    }

    /// Makes the next access of a poll of a request by the task of `waker`.
    pub fn advance_request(&mut self, op: &mut RequestOp<T>, waker: &Waker)
        requires
            old(self).sized(),
            old(op).step matches RequestStep::PollEntry { slot } ==> old(op).guard.slot == Some(
                slot,
            ) && old(self).state().holds(slot as int),
            old(op).step is ReadRef ==> old(self).state().inner_ref is Some,
        ensures
            final(self).sized(),
            (final(self).state(), *final(op)) == request_next(
                old(self).state(),
                *old(op),
                entry_waker(final(self).state(), final(op).guard),
                false,
            ),
            old(op).step is WakeLender ==> old(self).state().lend_waiter.task_woken(),
            old(op).step matches RequestStep::PollEntry { slot } ==> old(self).state().entry(
                slot as int,
            ).waiter.registers(*waker, final(self).state().entry(slot as int).waiter.waker),
    {
        let ghost before = *self;
        proof {
            self.law_bounded();
        }
        match op.step {
            RequestStep::LoadTerminated => op.on_terminated(self.terminated),
            RequestStep::Push => {
                match self.borrowers.push(BorrowMutexRef::new()) {
                    Ok(slot) => op.on_push(Some(slot)),
                    Err(_) => op.on_push(None),
                }
                proof {
                    if !before.state().is_full() {
                        assert(self.state().borrowers =~= before.state().queued().borrowers);
                    }
                }
            },
            RequestStep::WakeLender { .. } => {
                self.lend_waiter.wake();
                op.on_wake();
            },
            RequestStep::PollEntry { slot } => {
                let entry = self.borrowers.slot_mut(slot);
                let ready = matches!(entry.borrow_waiter.poll_const(waker), Poll::Ready(_));
                op.on_poll(ready);
                proof {
                    let k = before.borrowers.state().position(slot as int);
                    Self::lemma_entry_updated(before, *self, slot as int, self.borrowers@[k]);
                }
            },
            RequestStep::CheckAgain { .. } => op.on_check(self.terminated),
            RequestStep::LoadLended { .. } => op.on_lended(self.lender_lended),
            RequestStep::ReadRef { .. } => op.on_read(self.inner_ref.unwrap()),
            _ => {},
        }
    }

    /// Makes the next access of a guard that is dropped.
    pub fn advance_release(&mut self, step: ReleaseStep) -> (next: ReleaseStep)
        requires
            old(self).sized(),
            step matches ReleaseStep::StoreGone { slot } ==> old(self).state().holds(slot as int),
        ensures
            final(self).sized(),
            (final(self).state(), next) == release_next(old(self).state(), step),
            step is WakeLender ==> old(self).state().lend_waiter.task_woken(),
    {
        let ghost before = *self;
        match step {
            ReleaseStep::StoreGone { slot } => {
                let entry = self.borrowers.slot_mut(slot);
                entry.guard_present = false;
                proof {
                    let k = before.borrowers.state().position(slot as int);
                    Self::lemma_entry_updated(before, *self, slot as int, self.borrowers@[k]);
                }
                ReleaseStep::WakeLender
            },
            ReleaseStep::WakeLender => {
                self.lend_waiter.wake();
                ReleaseStep::Done
            },
            ReleaseStep::Done => ReleaseStep::Done,
        }
    }

    /// Makes the next access of a poll for a request, by the task of `waker`.
    pub fn advance_lender(&mut self, step: LenderStep, waker: &Waker) -> (next: LenderStep)
        requires
            old(self).sized(),
        ensures
            final(self).sized(),
            (final(self).state(), next) == lender_next(
                old(self).state(),
                step,
                final(self).state().lend_waiter.waker,
            ),
            step is PollWaiter ==> old(self).state().lend_waiter.registers(
                *waker,
                final(self).state().lend_waiter.waker,
            ),
    {
        match step {
            LenderStep::CheckQueue => LenderStep::on_check(self.borrowers.len() == 0),
            LenderStep::PollWaiter => LenderStep::on_poll(
                matches!(self.lend_waiter.poll_const(waker), Poll::Ready(_)),
            ),
            _ => step,
        }
    }

    /// The slot of the oldest request.
    fn peek_slot(&self) -> (r: Option<usize>)
        requires
            self.sized(),
        ensures
            r == self.state().oldest(),
    {
        if self.borrowers.len() == 0 {
            None
        } else {
            Some(self.borrowers.front_slot())
        }
    }

    /// Makes the next access of a call that lends `value`.
    pub fn advance_lend(&mut self, value: T, step: LendStep) -> (next: LendStep)
        requires
            old(self).sized(),
        ensures
            final(self).sized(),
            (final(self).state(), next) == lend_next(old(self).state(), value, step),
    {
        match step {
            LendStep::SwapPresent => {
                let was_present = self.lender_present;
                self.lender_present = true;
                LendStep::on_present(was_present)
            },
            LendStep::LoadTerminated => LendStep::on_terminated(self.terminated),
            LendStep::WriteRef => {
                self.inner_ref = Some(value);
                LendStep::SetLended
            },
            LendStep::SetLended => {
                self.lender_lended = true;
                LendStep::Peek
            },
            LendStep::Peek => LendStep::on_peek(self.peek_slot()),
            LendStep::ClearLended => {
                self.lender_lended = false;
                LendStep::ClearRef
            },
            LendStep::ClearRef => {
                self.inner_ref = None;
                LendStep::ClearPresent
            },
            LendStep::ClearPresent => {
                self.lender_present = false;
                LendStep::NoRequest
            },
            _ => step,
        }
    }

    /// Makes the next access of a poll, by the task of `waker`, of the lend guard for the
    /// request in `slot`.
    pub fn advance_offer(&mut self, slot: usize, step: OfferStep, waker: &Waker) -> (next:
        OfferStep)
        requires
            old(self).sized(),
            old(self).state().holds(slot as int),
        ensures
            final(self).sized(),
            (final(self).state(), next) == offer_next(
                old(self).state(),
                slot,
                step,
                final(self).state().lend_waiter.waker,
            ),
            step is WakeBorrower ==> old(self).state().entry(slot as int).waiter.task_woken(),
            step is PollWaiter ==> old(self).state().lend_waiter.registers(
                *waker,
                final(self).state().lend_waiter.waker,
            ),
    {
        let ghost before = *self;
        let ghost k = self.borrowers.state().position(slot as int);
        match step {
            OfferStep::SwapAcquired => {
                let entry = self.borrowers.slot_mut(slot);
                let was_acquired = entry.ref_acquired;
                entry.ref_acquired = true;
                proof {
                    Self::lemma_entry_updated(before, *self, slot as int, self.borrowers@[k]);
                }
                OfferStep::on_swap(was_acquired)
            },
            OfferStep::WakeBorrower => {
                let entry = self.borrowers.slot_mut(slot);
                entry.borrow_waiter.wake();
                proof {
                    Self::lemma_entry_updated(before, *self, slot as int, self.borrowers@[k]);
                }
                OfferStep::LoadGuard
            },
            OfferStep::LoadGuard => {
                proof {
                    Self::lemma_entry(*self, slot as int);
                }
                OfferStep::on_load(self.borrowers.slot(slot).guard_present)
            },
            OfferStep::PollWaiter => OfferStep::on_poll(
                matches!(self.lend_waiter.poll_const(waker), Poll::Ready(_)),
            ),
            _ => step,
        }
    }

    /// Makes the next access of the lend guard for the request in `slot`, when it is dropped.
    pub fn advance_take_back(&mut self, slot: usize, step: TakeBackStep) -> (next: TakeBackStep)
        requires
            old(self).sized(),
            step is LoadGuard || step is LoadAcquired ==> old(self).state().holds(slot as int),
            step is Pop ==> old(self).state().borrowers.len() > 0,
        ensures
            final(self).sized(),
            (final(self).state(), next) == take_back_next(old(self).state(), slot, step),
    {
        let ghost before = *self;
        match step {
            TakeBackStep::LoadGuard => {
                proof {
                    Self::lemma_entry(*self, slot as int);
                }
                TakeBackStep::on_guard(self.borrowers.slot(slot).guard_present)
            },
            TakeBackStep::LoadAcquired => {
                proof {
                    Self::lemma_entry(*self, slot as int);
                }
                TakeBackStep::on_acquired(self.borrowers.slot(slot).ref_acquired)
            },
            TakeBackStep::ClearLended { leave } => {
                self.lender_lended = false;
                TakeBackStep::ClearRef { leave }
            },
            TakeBackStep::ClearRef { leave } => {
                self.inner_ref = None;
                TakeBackStep::on_clear(leave)
            },
            TakeBackStep::Pop => {
                let _ = self.borrowers.pop();
                assert(self.state().borrowers =~= before.state().borrowers.drop_first());
                TakeBackStep::ClearPresent
            },
            TakeBackStep::ClearPresent => {
                self.lender_present = false;
                TakeBackStep::Done
            },
            _ => step,
        }
    }

    /// Makes every access of a guard that is dropped: the request in `slot` is marked as gone,
    /// and the lender is woken.
    fn release(&mut self, slot: usize)
        requires
            old(self).wf(),
            old(self).state().holds(slot as int),
        ensures
            final(self).wf(),
            final(self).state() == old(self).state().released(slot as int),
            old(self).state().lend_waiter.task_woken(),
    {
        let gone = self.advance_release(ReleaseStep::StoreGone { slot });
        self.advance_release(gone);
    }
}

impl BorrowMutexGuardUnarmed {
    /// Polls the request for the task of `waker`. A first poll queues it, if there is room, and
    /// wakes the lender.
    pub fn poll<const M: usize, T: Copy>(
        &mut self,
        mutex: &mut BorrowMutex<M, T>,
        waker: &Waker,
    ) -> (r: Poll<Result<BorrowMutexGuardArmed<T>, BorrowMutexError>>)
        requires
            old(mutex).wf(),
            old(mutex).state().has_unarmed(old(self)@),
        ensures
            final(mutex).wf(),
            final(mutex).state().has_unarmed(final(self)@),
            ({
                let after = entry_waker(final(mutex).state(), final(self)@);
                let (state, guard, polled) = old(mutex).state().unarmed_polled(old(self)@, after);
                &&& final(mutex).state() == state
                &&& final(self)@ == guard
                &&& match (r, polled) {
                    (Poll::Pending, Poll::Pending) => true,
                    (Poll::Ready(Err(e)), Poll::Ready(Err(f))) => e == f,
                    (Poll::Ready(Ok(g)), Poll::Ready(Ok(h))) => g@ == h,
                    _ => false,
                }
                &&& old(mutex).state().admits(old(self)@) ==> {
                    let (mutex, slot) = old(mutex).state().arrival(old(self)@);
                    mutex.entry(slot as int).waiter.registers(*waker, after)
                }
                &&& old(mutex).state().admits(old(self)@) && old(self)@.slot is None ==> old(
                    mutex,
                ).state().lend_waiter.task_woken()
            }),
            final(mutex).state().terminated == old(mutex).state().terminated,
            old(mutex).state().terminated || old(self)@.spent ==> (r matches Poll::Ready(Err(e))
                && e is Terminated),
            !old(mutex).state().terminated && !old(self)@.spent && old(self)@.slot is None && old(
                mutex,
            ).state().borrowers.len() == M ==> (r matches Poll::Ready(Err(e))
                && e is TooManyBorrows),
            !old(mutex).state().terminated && !old(self)@.spent ==> (
            old(self)@.slot matches Some(slot) ==> {
                let start = old(mutex).state();
                let entry = start.borrowers[(slot - start.front) % (M as int)];
                &&& r is Ready <==> entry.waiter.awoken
                &&& r is Ready ==> {
                    &&& r matches Poll::Ready(Ok(g))
                    &&& g@.slot == slot
                    &&& start.inner_ref == Some(g@.inner_ref)
                }
            }),
            r is Pending ==> {
                let start = old(mutex).state();
                let end = final(mutex).state();
                &&& final(self)@.slot matches Some(slot)
                &&& !final(self)@.spent
                &&& 0 <= (slot - end.front) % (M as int) < end.borrowers.len()
                &&& task::registers(
                    if old(self)@.slot is Some {
                        start.borrowers[(slot - start.front) % (M as int)].waiter.waker
                    } else {
                        None
                    },
                    *waker,
                    end.borrowers[(slot - end.front) % (M as int)].waiter.waker,
                )
            },
    {
        let mut op = RequestOp::begin(self.request);
        let ghost start = mutex.state();
        while !op.step.finished()
            invariant
                mutex.sized(),
                start.wf(),
                start.max == M,
                start.has_unarmed(old(self)@),
                request_progress(start, old(self)@, mutex.state(), op, *waker),
            decreases op.step.remaining(),
        {
            let ghost before = mutex.state();
            proof {
                if let RequestStep::PollEntry { slot } = op.step {
                    counter::lemma_slot_position(before.front, slot as int, M as int);
                }
                if op.step is Push && !before.is_full() {
                    counter::lemma_position_of_slot(
                        before.front,
                        before.borrowers.len() as int,
                        M as int,
                    );
                }
            }
            mutex.advance_request(&mut op, waker);
        }
        self.request = op.guard;
        proof {
            if op.step is Pending {
                let waker = entry_waker(mutex.state(), op.guard);
                calls::law_request_registers(start, old(self)@);
                calls::law_request_registers(mutex.state(), op.guard);
                calls::law_pending_request_is_queued(start, old(self)@, waker);
            }
        }
        match op.step {
            RequestStep::Armed { guard } => Poll::Ready(Ok(BorrowMutexGuardArmed { guard })),
            RequestStep::Failed { error } => Poll::Ready(Err(error)),
            _ => Poll::Pending,
        }
    }

    /// Drops the request. If it is queued and not over, the lender is told that it is gone.
    pub fn drop<const M: usize, T: Copy>(self, mutex: &mut BorrowMutex<M, T>)
        requires
            old(mutex).wf(),
            old(mutex).state().has_unarmed(self@),
        ensures
            final(mutex).wf(),
            final(mutex).state() == old(mutex).state().unarmed_dropped(self@),
            self@.slot is Some && !self@.spent ==> old(mutex).state().lend_waiter.task_woken(),
    {
        if !self.request.spent {
            if let Some(slot) = self.request.slot {
                mutex.release(slot);
            }
        }
    }
}

impl<T: Copy> BorrowMutexGuardArmed<T> {
    /// The borrowed reference.
    pub fn get(&self) -> (r: T)
        ensures
            r == self@.inner_ref,
    {
        self.guard.inner_ref
    }

    /// Makes a guard for a component of what is borrowed.
    pub fn map<U, F: FnOnce(T) -> U>(orig: Self, f: F) -> (r: BorrowMutexGuardArmed<U>)
        requires
            f.requires((orig@.inner_ref,)),
        ensures
            f.ensures((orig@.inner_ref,), r@.inner_ref),
            r@.slot == orig@.slot,
    {
        let inner_ref = f(orig.guard.inner_ref);
        BorrowMutexGuardArmed { guard: ArmedState { inner_ref, slot: orig.guard.slot } }
    }

    /// Gives the reference back, and wakes the lender.
    pub fn drop<const M: usize, R: Copy>(self, mutex: &mut BorrowMutex<M, R>)
        requires
            old(mutex).wf(),
            old(mutex).state().holds(self@.slot as int),
        ensures
            final(mutex).wf(),
            final(mutex).state() == old(mutex).state().released(self@.slot as int),
            old(mutex).state().lend_waiter.task_woken(),
    {
        mutex.release(self.guard.slot);
    }
}

impl BorrowMutexLender {
    /// Polls for a request, for the task of `waker`.
    pub fn poll<const M: usize, T: Copy>(
        &mut self,
        mutex: &mut BorrowMutex<M, T>,
        waker: &Waker,
    ) -> (r: Poll<()>)
        requires
            old(mutex).wf(),
        ensures
            final(mutex).wf(),
            ({
                let after = final(mutex).state().lend_waiter.waker;
                let (state, ready) = old(mutex).state().lender_polled(after);
                &&& r is Ready <==> old(mutex).state().borrowers.len() > 0
                &&& r is Pending ==> task::registers(
                    old(mutex).state().lend_waiter.waker,
                    *waker,
                    after,
                )
                &&& final(mutex).state() == state
                &&& r is Ready == ready
                &&& !ready ==> task::registers(
                    old(mutex).state().lend_waiter.waker,
                    *waker,
                    after,
                )
            }),
    {
        let mut step = LenderStep::CheckQueue;
        let ghost start = mutex.state();
        while !step.finished()
            invariant
                start == old(mutex).state(),
                mutex.wf(),
                mutex.state() == (MutexState { lend_waiter: mutex.state().lend_waiter, ..start }),
                !(step is Pending) ==> {
                    ||| mutex.state().lend_waiter == start.lend_waiter
                    ||| start.lend_waiter.awoken && start.borrowers.len() == 0
                        && mutex.state().lend_waiter == start.lend_waiter.polled(
                        start.lend_waiter.waker,
                    )
                },
                step is PollWaiter ==> start.borrowers.len() == 0,
                step is Ready ==> start.borrowers.len() > 0,
                step is Pending ==> {
                    &&& start.borrowers.len() == 0
                    &&& !mutex.state().lend_waiter.awoken
                    &&& task::registers(
                        start.lend_waiter.waker,
                        *waker,
                        mutex.state().lend_waiter.waker,
                    )
                },
            decreases
                    mutex.state().lend_waiter.awoken as int,
                    if step is CheckQueue {
                        2int
                    } else if step is PollWaiter {
                        1
                    } else {
                        0
                    },
        {
            step = mutex.advance_lender(step, waker);
        }
        match step {
            LenderStep::Ready => Poll::Ready(()),
            _ => Poll::Pending,
        }
    }

    /// The same as [`BorrowMutex::lend`].
    pub fn lend<const M: usize, T: Copy>(&self, mutex: &mut BorrowMutex<M, T>, value: T) -> (r:
        Result<Option<BorrowMutexLendGuard>, BorrowMutexAbort>)
        requires
            old(mutex).wf(),
        ensures
            final(mutex).sized(),
            r is Ok ==> final(mutex).wf(),
            (final(mutex).state(), lend_slot(r)) == old(mutex).state().lend_called(value),
            old(mutex).state().lender_present ==> r == Err::<
                Option<BorrowMutexLendGuard>,
                BorrowMutexAbort,
            >(BorrowMutexAbort::MultipleLenders),
            !old(mutex).state().lender_present && old(mutex).state().terminated ==> r == Err::<
                Option<BorrowMutexLendGuard>,
                BorrowMutexAbort,
            >(BorrowMutexAbort::LendedWhileTerminated),
            !old(mutex).state().lender_present && !old(mutex).state().terminated ==> if old(
                mutex,
            ).state().borrowers.len() == 0 {
                r matches Ok(None)
            } else {
                &&& r matches Ok(Some(guard))
                &&& guard@ == old(mutex).state().front
                &&& final(mutex).state().inner_ref == Some(value)
                &&& final(mutex).state().lender_lended
            },
    {
        mutex.lend(value)
    }
}

impl BorrowMutexLendGuard {
    /// Polls for the end of the borrow, for the task of `waker`. The first poll offers the
    /// reference to the oldest request.
    pub fn poll<const M: usize, T: Copy>(
        &mut self,
        mutex: &mut BorrowMutex<M, T>,
        waker: &Waker,
    ) -> (r: Poll<()>)
        requires
            old(mutex).wf(),
            old(mutex).state().has_lend(old(self)@ as int),
        ensures
            final(mutex).wf(),
            final(self)@ == old(self)@,
            final(mutex).state().has_lend(final(self)@ as int),
            old(mutex).state().told(1),
            ({
                let after = final(mutex).state().lend_waiter.waker;
                let (state, ready) = old(mutex).state().lend_polled(after);
                let first = old(mutex).state().borrowers[0];
                &&& r is Ready <==> !first.guard_present && (old(mutex).state().lend_waiter.awoken
                    || !first.ref_acquired)
                &&& r is Pending ==> task::registers(
                    old(mutex).state().lend_waiter.waker,
                    *waker,
                    after,
                )
                &&& final(mutex).state().terminated == old(mutex).state().terminated
                &&& final(mutex).state() == state
                &&& r is Ready == ready
                &&& !ready ==> task::registers(
                    old(mutex).state().lend_waiter.waker,
                    *waker,
                    after,
                )
            }),
    {
        let mut step = OfferStep::SwapAcquired;
        let ghost start = mutex.state();
        proof {
            start.lemma_front();
        }
        while !step.finished()
            invariant
                start == old(mutex).state(),
                start.wf(),
                start.has_lend(self.borrow as int),
                start.holds(self.borrow as int),
                start.position(self.borrow as int) == 0,
                self.borrow == old(self).borrow,
                mutex.sized(),
                offer_progress(start, mutex.state(), step, *waker),
            decreases
                    mutex.state().lend_waiter.awoken as int,
                    match step {
                        OfferStep::SwapAcquired => 4int,
                        OfferStep::WakeBorrower => 3,
                        OfferStep::LoadGuard => 2,
                        OfferStep::PollWaiter => 1,
                        _ => 0,
                    },
        {
            step = mutex.advance_offer(self.borrow, step, waker);
            proof {
                if !(step is WakeBorrower) {
                    assert(mutex.state().borrowers =~= start.lend_polled(None).0.borrowers);
                }
            }
        }
        match step {
            OfferStep::Ready => Poll::Ready(()),
            _ => Poll::Pending,
        }
    }

    /// Takes the lended reference back. An error says that it is still borrowed, so that the
    /// process must not go on, and changes nothing.
    pub fn drop<const M: usize, T: Copy>(self, mutex: &mut BorrowMutex<M, T>) -> (r: Result<
        (),
        BorrowMutexAbort,
    >)
        requires
            old(mutex).wf(),
            old(mutex).state().has_lend(self@ as int),
        ensures
            final(mutex).wf(),
            old(mutex).state().still_borrowed() ==> {
                &&& r == Err::<(), BorrowMutexAbort>(BorrowMutexAbort::LendGuardDropped)
                &&& final(mutex).state() == old(mutex).state()
            },
            !old(mutex).state().still_borrowed() ==> {
                &&& r == Ok::<(), BorrowMutexAbort>(())
                &&& final(mutex).state() == old(mutex).state().lend_dropped()
            },
            r is Err <==> old(mutex).state().borrowers[0].guard_present && old(
                mutex,
            ).state().borrowers[0].ref_acquired,
            r is Ok ==> !final(mutex).state().lender_present && final(mutex).state().inner_ref
                is None,
            final(mutex).state().terminated == old(mutex).state().terminated,
    {
        let mut step = TakeBackStep::LoadGuard;
        let ghost start = mutex.state();
        proof {
            start.lemma_front();
        }
        while !step.finished()
            invariant
                start == old(mutex).state(),
                start.wf(),
                start.has_lend(self.borrow as int),
                start.holds(self.borrow as int),
                start.position(self.borrow as int) == 0,
                mutex.sized(),
                take_back_progress(start, mutex.state(), step),
            decreases step.remaining(),
        {
            step = mutex.advance_take_back(self.borrow, step);
        }
        proof {
            mutex.law_bounded();
        }
        match step {
            TakeBackStep::Aborted => Err(BorrowMutexAbort::LendGuardDropped),
            _ => Ok(()),
        }
    }
}

impl BorrowMutexTerminate {
    /// Polls the termination, for the task of `waker`. An error says that the process must not
    /// go on.
    pub fn poll<const M: usize, T: Copy>(
        &mut self,
        mutex: &mut BorrowMutex<M, T>,
        waker: &Waker,
    ) -> (r: Poll<Result<(), BorrowMutexAbort>>)
        requires
            old(mutex).wf(),
            !(old(self)@ is Finished),
            old(mutex).state().has_termination(old(self)@),
        ensures
            final(mutex).sized(),
            !(r matches Poll::Ready(Err(_))) ==> final(mutex).wf(),
            final(mutex).state().has_termination(final(self)@),
            final(mutex).state().terminated,
            r matches Poll::Ready(Err(_)) ==> old(mutex).state().lender_present,
            r is Pending ==> final(mutex).state().borrowers.len() > 0,
            r == Poll::<Result<(), BorrowMutexAbort>>::Ready(Ok(())) ==> {
                ||| final(mutex).state().borrowers.len() == 0
                ||| old(self)@ is Unstarted && old(mutex).state().terminated
            },
            ({
                let after = final(mutex).state().lend_waiter.waker;
                &&& (final(mutex).state(), final(self)@, r) == old(
                    mutex,
                ).state().terminate_polled(old(self)@, after)
                &&& r is Pending ==> task::registers(
                    old(mutex).state().lend_waiter.waker,
                    *waker,
                    after,
                )
                &&& old(mutex).state().told(
                    old(mutex).state().borrowers.len() - final(mutex).state().borrowers.len()
                        + if r is Pending {
                        1int
                    } else {
                        0
                    },
                )
            }),
    {
        if let TerminateStage::Unstarted = self.stage {
            let was_terminated = mutex.terminated;
            mutex.terminated = true;
            if matches!(TerminateStep::on_swap(was_terminated), TerminateStep::Finished) {
                self.stage = TerminateStage::Finished;
                return Poll::Ready(Ok(()));
            }
            if let TerminateStep::Aborted { reason } = TerminateStep::on_present(
                mutex.lender_present,
            ) {
                self.stage = TerminateStage::Finished;
                return Poll::Ready(Err(reason));
            }
        }
        let ghost start = mutex.state();
        let mut step = TerminateStep::on_peek(mutex.peek_slot());
        while matches!(step, TerminateStep::Drain { .. })
            invariant
                mutex.wf(),
                step == TerminateStep::after_peek(mutex.state().oldest()),
                mutex.state().terminated,
                start == (MutexState { terminated: true, ..old(mutex).state() }),
                !(old(self)@ is Unstarted && old(mutex).state().terminated),
                !(old(self)@ is Unstarted && old(mutex).state().lender_present),
                mutex.state().lend_waiter.waker == start.lend_waiter.waker,
                mutex.state().borrowers == start.borrowers.skip(
                    start.borrowers.len() - mutex.state().borrowers.len(),
                ),
                mutex.state().borrowers.len() <= start.borrowers.len(),
                start.told(start.borrowers.len() - mutex.state().borrowers.len()),
                forall|w: Option<Waker>| #[trigger]
                    start.drained(w) == mutex.state().drained(w),
            decreases mutex.state().borrowers.len(),
        {
            let ghost before = mutex.state();
            let mut guard = BorrowMutexLendGuard { borrow: mutex.borrowers.front_slot() };
            if matches!(guard.poll(mutex, waker), Poll::Pending) {
                self.stage = TerminateStage::Draining;
                assert(start.drained(mutex.state().lend_waiter.waker) == before.drained(
                    mutex.state().lend_waiter.waker,
                ));
                return Poll::Pending;
            }
            let ghost polled = mutex.state();
            let _ = guard.drop(mutex);
            proof {
                assert forall|w: Option<Waker>| #[trigger] start.drained(w)
                    == mutex.state().drained(w) by {
                    assert(start.drained(w) == before.drained(w));
                    assert(before.lend_polled(w) == (polled, true));
                }
            }
            step = TerminateStep::on_peek(mutex.peek_slot());
        }
        self.stage = TerminateStage::Finished;
        proof {
            let w = mutex.state().lend_waiter.waker;
            assert(start.drained(w) == mutex.state().drained(w));
        }
        Poll::Ready(Ok(()))
    }

    /// Gives the termination up. An error says that a request was told and is still there, so
    /// that the process must not go on, and changes nothing.
    pub fn drop<const M: usize, T: Copy>(self, mutex: &mut BorrowMutex<M, T>) -> (r: Result<
        (),
        BorrowMutexAbort,
    >)
        requires
            old(mutex).wf(),
            old(mutex).state().has_termination(self@),
        ensures
            final(mutex).wf(),
            !(self@ is Draining) ==> {
                &&& r == Ok::<(), BorrowMutexAbort>(())
                &&& final(mutex).state() == old(mutex).state()
            },
            self@ is Draining && old(mutex).state().still_borrowed() ==> {
                &&& r == Err::<(), BorrowMutexAbort>(BorrowMutexAbort::LendGuardDropped)
                &&& final(mutex).state() == old(mutex).state()
            },
            self@ is Draining && !old(mutex).state().still_borrowed() ==> {
                &&& r == Ok::<(), BorrowMutexAbort>(())
                &&& final(mutex).state() == old(mutex).state().lend_dropped()
            },
    {
        match self.stage {
            TerminateStage::Draining => {
                let guard = BorrowMutexLendGuard { borrow: mutex.borrowers.front_slot() };
                guard.drop(mutex)
            },
            _ => Ok(()),
        }
    }
}

} // verus!
