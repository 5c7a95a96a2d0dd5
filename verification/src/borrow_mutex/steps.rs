//! What the borrowers and the lender of a mutex do to what they share, one access at a time.
//!
//! An access is one load, store or swap of a flag, one access to the lended reference, or one
//! whole operation of the queue or of a waiter; those take effect at one moment, as
//! [`crate::mpmc::interleaving`] and [`crate::atomic_waiter::interleaving`] say. Each step says
//! which access comes next, and takes what that access gave back to the step after it. The
//! functions here hold for every value that an access may give back.

use crate::borrow_mutex::{
    ArmedState, BorrowMutexAbort, BorrowMutexError, BorrowState, MutexState, UnarmedState,
};
use core::task::Waker;
use vstd::prelude::*;

verus! {

/// The next access of a poll of a request.
pub enum RequestStep<T> {
    /// Load the termination flag.
    LoadTerminated,
    /// Queue the request.
    Push,
    /// Wake the lender.
    WakeLender { slot: usize },
    /// Poll the waiter of the request.
    PollEntry { slot: usize },
    /// Load the termination flag again: it may have been set just before the request was queued,
    /// and the termination does not come back for it.
    CheckAgain { slot: usize },
    /// Load the lended flag.
    LoadLended { slot: usize },
    /// Read the lended reference.
    ReadRef { slot: usize },
    Pending,
    Failed { error: BorrowMutexError },
    Armed { guard: ArmedState<T> },
}

/// A request and the poll of it that is under way.
pub struct RequestOp<T> {
    pub guard: UnarmedState,
    pub step: RequestStep<T>,
}

impl<T> RequestStep<T> {
    pub open spec fn is_finished(self) -> bool {
        self is Pending || self is Failed || self is Armed
    }

    /// How many accesses are left at most.
    pub open spec fn remaining(self) -> nat {
        match self {
            RequestStep::LoadTerminated => 6,
            RequestStep::Push => 5,
            RequestStep::WakeLender { .. } => 4,
            RequestStep::PollEntry { .. } => 3,
            RequestStep::LoadLended { .. } => 2,
            RequestStep::ReadRef { .. } | RequestStep::CheckAgain { .. } => 1,
            _ => 0,
        }
    }

    /// Whether the poll is over.
    pub fn finished(&self) -> (r: bool)
        ensures
            r == self.is_finished(),
    {
        matches!(
            self,
            RequestStep::Pending | RequestStep::Failed { .. } | RequestStep::Armed { .. }
        )
    }
}

impl<T> RequestOp<T> {
    pub open spec fn begun(guard: UnarmedState) -> RequestOp<T> {
        RequestOp { guard, step: RequestStep::LoadTerminated }
    }

    pub open spec fn after_terminated(self, terminated: bool) -> RequestOp<T> {
        if terminated {
            RequestOp {
                guard: UnarmedState {
                    spent: self.guard.spent || self.guard.slot is None,
                    ..self.guard
                },
                step: RequestStep::Failed { error: BorrowMutexError::Terminated },
            }
        } else if self.guard.spent {
            RequestOp {
                step: RequestStep::Failed { error: BorrowMutexError::Terminated },
                ..self
            }
        } else {
            RequestOp {
                step: match self.guard.slot {
                    Some(slot) => RequestStep::PollEntry { slot },
                    None => RequestStep::Push,
                },
                ..self
            }
        }
    }

    pub open spec fn after_push(self, pushed: Option<usize>) -> RequestOp<T> {
        match pushed {
            Some(slot) => RequestOp {
                guard: UnarmedState { slot: Some(slot), ..self.guard },
                step: RequestStep::WakeLender { slot },
            },
            None => RequestOp {
                step: RequestStep::Failed { error: BorrowMutexError::TooManyBorrows },
                ..self
            },
        }
    }

    pub open spec fn after_wake(self) -> RequestOp<T> {
        RequestOp { step: RequestStep::PollEntry { slot: self.step->WakeLender_slot }, ..self }
    }

    pub open spec fn after_poll(self, ready: bool) -> RequestOp<T> {
        RequestOp {
            step: if ready {
                RequestStep::LoadLended { slot: self.step->PollEntry_slot }
            } else {
                RequestStep::CheckAgain { slot: self.step->PollEntry_slot }
            },
            ..self
        }
    }

    pub open spec fn after_check(self, terminated: bool) -> RequestOp<T> {
        RequestOp {
            step: if terminated {
                RequestStep::Failed { error: BorrowMutexError::Terminated }
            } else {
                RequestStep::Pending
            },
            ..self
        }
    }

    pub open spec fn after_lended(self, lended: bool) -> RequestOp<T> {
        RequestOp {
            step: if lended {
                RequestStep::ReadRef { slot: self.step->LoadLended_slot }
            } else {
                RequestStep::Failed { error: BorrowMutexError::Terminated }
            },
            ..self
        }
    }

    pub open spec fn after_read(self, inner_ref: T) -> RequestOp<T> {
        RequestOp {
            guard: UnarmedState { spent: true, ..self.guard },
            step: RequestStep::Armed {
                guard: ArmedState { inner_ref, slot: self.step->ReadRef_slot },
            },
        }
    }

    /// A poll that has not started.
    pub fn begin(guard: UnarmedState) -> (op: RequestOp<T>)
        ensures
            op == RequestOp::<T>::begun(guard),
    {
        RequestOp { guard, step: RequestStep::LoadTerminated }
    }

    /// Goes on after the termination flag was loaded. A request that was never queued has
    /// nothing to take back later.
    pub fn on_terminated(&mut self, terminated: bool)
        requires
            old(self).step is LoadTerminated,
        ensures
            *final(self) == old(self).after_terminated(terminated),
    {
        if terminated {
            if self.guard.slot.is_none() {
                self.guard.spent = true;
            }
            self.step = RequestStep::Failed { error: BorrowMutexError::Terminated };
        } else if self.guard.spent {
            self.step = RequestStep::Failed { error: BorrowMutexError::Terminated };
        } else {
            self.step = match self.guard.slot {
                Some(slot) => RequestStep::PollEntry { slot },
                None => RequestStep::Push,
            };
        }
    }

    /// Goes on after the request was queued in a slot, or found no room.
    pub fn on_push(&mut self, pushed: Option<usize>)
        requires
            old(self).step is Push,
        ensures
            *final(self) == old(self).after_push(pushed),
    {
        match pushed {
            Some(slot) => {
                self.guard.slot = Some(slot);
                self.step = RequestStep::WakeLender { slot };
            },
            None => {
                self.step = RequestStep::Failed { error: BorrowMutexError::TooManyBorrows };
            },
        }
    }

    /// Goes on after the lender was woken.
    pub fn on_wake(&mut self)
        requires
            old(self).step is WakeLender,
        ensures
            *final(self) == old(self).after_wake(),
    {
        if let RequestStep::WakeLender { slot } = self.step {
            self.step = RequestStep::PollEntry { slot };
        }
    }

    /// Goes on after the waiter of the request was polled.
    pub fn on_poll(&mut self, ready: bool)
        requires
            old(self).step is PollEntry,
        ensures
            *final(self) == old(self).after_poll(ready),
    {
        if let RequestStep::PollEntry { slot } = self.step {
            self.step = if ready {
                RequestStep::LoadLended { slot }
            } else {
                RequestStep::CheckAgain { slot }
            };
        }
    }

    /// Goes on after the termination flag was loaded again.
    pub fn on_check(&mut self, terminated: bool)
        requires
            old(self).step is CheckAgain,
        ensures
            *final(self) == old(self).after_check(terminated),
    {
        self.step = if terminated {
            RequestStep::Failed { error: BorrowMutexError::Terminated }
        } else {
            RequestStep::Pending
        };
    }

    /// Goes on after the lended flag was loaded. A request that was woken although nothing is
    /// lended was woken by the termination.
    pub fn on_lended(&mut self, lended: bool)
        requires
            old(self).step is LoadLended,
        ensures
            *final(self) == old(self).after_lended(lended),
    {
        if let RequestStep::LoadLended { slot } = self.step {
            self.step = if lended {
                RequestStep::ReadRef { slot }
            } else {
                RequestStep::Failed { error: BorrowMutexError::Terminated }
            };
        }
    }

    /// Goes on after the lended reference was read.
    pub fn on_read(&mut self, inner_ref: T)
        requires
            old(self).step is ReadRef,
        ensures
            *final(self) == old(self).after_read(inner_ref),
    {
        if let RequestStep::ReadRef { slot } = self.step {
            self.guard.spent = true;
            self.step = RequestStep::Armed { guard: ArmedState { inner_ref, slot } };
        }
    }
}

/// One access of a poll of a request; `waker` is what a poll of the waiter leaves registered.
/// The queue may refuse a request although it is not full: one that is leaving it keeps its
/// place until it is gone.
pub open spec fn request_next<T>(
    mutex: MutexState<T>,
    op: RequestOp<T>,
    waker: Option<Waker>,
    refused: bool,
) -> (MutexState<T>, RequestOp<T>) {
    match op.step {
        RequestStep::LoadTerminated => (mutex, op.after_terminated(mutex.terminated)),
        RequestStep::Push => if mutex.is_full() || refused {
            (mutex, op.after_push(None))
        } else {
            (mutex.queued(), op.after_push(Some(mutex.next_slot() as usize)))
        },
        RequestStep::WakeLender { .. } => (mutex.lender_woken(), op.after_wake()),
        RequestStep::PollEntry { slot } => {
            let entry = mutex.entry(slot as int);
            (
                mutex.with_entry(
                    slot as int,
                    BorrowState { waiter: entry.waiter.polled(waker), ..entry },
                ),
                op.after_poll(entry.waiter.awoken),
            )
        },
        RequestStep::CheckAgain { .. } => (mutex, op.after_check(mutex.terminated)),
        RequestStep::LoadLended { .. } => (mutex, op.after_lended(mutex.lender_lended)),
        RequestStep::ReadRef { .. } => (mutex, op.after_read(mutex.inner_ref->0)),
        _ => (mutex, op),
    }
}

/// The next access of a guard that is dropped.
#[derive(Clone, Copy, Debug, PartialEq, Eq, Structural)]
pub enum ReleaseStep {
    /// Mark the guard of the request in `slot` as gone.
    StoreGone { slot: usize },
    /// Wake the lender.
    WakeLender,
    Done,
}

/// One access of a guard that is dropped.
pub open spec fn release_next<T>(mutex: MutexState<T>, step: ReleaseStep) -> (
    MutexState<T>,
    ReleaseStep,
) {
    match step {
        ReleaseStep::StoreGone { slot } => (
            mutex.with_entry(
                slot as int,
                BorrowState { guard_present: false, ..mutex.entry(slot as int) },
            ),
            ReleaseStep::WakeLender,
        ),
        ReleaseStep::WakeLender => (mutex.lender_woken(), ReleaseStep::Done),
        ReleaseStep::Done => (mutex, step),
    }
}

/// The next access of a lender that waits for a request.
#[derive(Clone, Copy, Debug, PartialEq, Eq, Structural)]
pub enum LenderStep {
    /// Look for a request.
    CheckQueue,
    /// Poll the waiter of the lender.
    PollWaiter,
    Ready,
    Pending,
}

impl LenderStep {
    pub open spec fn is_finished(self) -> bool {
        self is Ready || self is Pending
    }

    pub open spec fn after_check(empty: bool) -> LenderStep {
        if empty {
            LenderStep::PollWaiter
        } else {
            LenderStep::Ready
        }
    }

    pub open spec fn after_poll(ready: bool) -> LenderStep {
        if ready {
            LenderStep::CheckQueue
        } else {
            LenderStep::Pending
        }
    }

    /// The step after the queue was looked at.
    pub fn on_check(empty: bool) -> (next: LenderStep)
        ensures
            next == LenderStep::after_check(empty),
    {
        if empty {
            LenderStep::PollWaiter
        } else {
            LenderStep::Ready
        }
    }

    /// The step after the waiter was polled. It is woken for other reasons too, and a lend
    /// guard may have consumed the wake for this one, so the queue is looked at again.
    pub fn on_poll(ready: bool) -> (next: LenderStep)
        ensures
            next == LenderStep::after_poll(ready),
    {
        if ready {
            LenderStep::CheckQueue
        } else {
            LenderStep::Pending
        }
    }

    /// Whether the poll is over.
    pub fn finished(&self) -> (r: bool)
        ensures
            r == self.is_finished(),
    {
        matches!(self, LenderStep::Ready | LenderStep::Pending)
    }
}

/// One access of a lender that waits for a request; `waker` is what a poll of the waiter leaves
/// registered.
pub open spec fn lender_next<T>(mutex: MutexState<T>, step: LenderStep, waker: Option<Waker>) -> (
    MutexState<T>,
    LenderStep,
) {
    match step {
        LenderStep::CheckQueue => (mutex, LenderStep::after_check(mutex.borrowers.len() == 0)),
        LenderStep::PollWaiter => (
            mutex.lender_registered(waker),
            LenderStep::after_poll(mutex.lend_waiter.awoken),
        ),
        _ => (mutex, step),
    }
}

/// The next access of a call that lends a reference.
#[derive(Clone, Copy, Debug, PartialEq, Eq, Structural)]
pub enum LendStep {
    /// Set the flag that a lender is present, and see if it was set.
    SwapPresent,
    /// Load the termination flag.
    LoadTerminated,
    /// Write the reference.
    WriteRef,
    /// Set the lended flag.
    SetLended,
    /// Look for the oldest request.
    Peek,
    /// Clear the lended flag again: there is no request.
    ClearLended,
    /// Clear the reference again.
    ClearRef,
    /// Clear the flag that a lender is present.
    ClearPresent,
    /// The reference is lended to the request in `slot`.
    Lended { slot: usize },
    NoRequest,
    Aborted { reason: BorrowMutexAbort },
}

impl LendStep {
    pub open spec fn is_finished(self) -> bool {
        self is Lended || self is NoRequest || self is Aborted
    }

    /// How many accesses are left at most.
    pub open spec fn remaining(self) -> nat {
        match self {
            LendStep::SwapPresent => 8,
            LendStep::LoadTerminated => 7,
            LendStep::WriteRef => 6,
            LendStep::SetLended => 5,
            LendStep::Peek => 4,
            LendStep::ClearLended => 3,
            LendStep::ClearRef => 2,
            LendStep::ClearPresent => 1,
            _ => 0,
        }
    }

    pub open spec fn after_present(was_present: bool) -> LendStep {
        if was_present {
            LendStep::Aborted { reason: BorrowMutexAbort::MultipleLenders }
        } else {
            LendStep::LoadTerminated
        }
    }

    pub open spec fn after_terminated(terminated: bool) -> LendStep {
        if terminated {
            LendStep::Aborted { reason: BorrowMutexAbort::LendedWhileTerminated }
        } else {
            LendStep::WriteRef
        }
    }

    pub open spec fn after_peek(front: Option<usize>) -> LendStep {
        match front {
            Some(slot) => LendStep::Lended { slot },
            None => LendStep::ClearLended,
        }
    }

    /// The step after the flag that a lender is present was set; `was_present` is what it was
    /// before. Two lended references cannot be told apart later, so this ends the process.
    pub fn on_present(was_present: bool) -> (next: LendStep)
        ensures
            next == LendStep::after_present(was_present),
    {
        if was_present {
            LendStep::Aborted { reason: BorrowMutexAbort::MultipleLenders }
        } else {
            LendStep::LoadTerminated
        }
    }

    /// The step after the termination flag was loaded.
    pub fn on_terminated(terminated: bool) -> (next: LendStep)
        ensures
            next == LendStep::after_terminated(terminated),
    {
        if terminated {
            LendStep::Aborted { reason: BorrowMutexAbort::LendedWhileTerminated }
        } else {
            LendStep::WriteRef
        }
    }

    /// The step after the queue was looked at; `front` is the slot of the oldest request.
    pub fn on_peek(front: Option<usize>) -> (next: LendStep)
        ensures
            next == LendStep::after_peek(front),
    {
        match front {
            Some(slot) => LendStep::Lended { slot },
            None => LendStep::ClearLended,
        }
    }

    /// Whether the call is over.
    pub fn finished(&self) -> (r: bool)
        ensures
            r == self.is_finished(),
    {
        matches!(
            self,
            LendStep::Lended { .. } | LendStep::NoRequest | LendStep::Aborted { .. }
        )
    }
}

/// One access of a call that lends `value`.
pub open spec fn lend_next<T>(mutex: MutexState<T>, value: T, step: LendStep) -> (
    MutexState<T>,
    LendStep,
) {
    match step {
        LendStep::SwapPresent => (
            MutexState { lender_present: true, ..mutex },
            LendStep::after_present(mutex.lender_present),
        ),
        LendStep::LoadTerminated => (mutex, LendStep::after_terminated(mutex.terminated)),
        LendStep::WriteRef => (
            MutexState { inner_ref: Some(value), ..mutex },
            LendStep::SetLended,
        ),
        LendStep::SetLended => (MutexState { lender_lended: true, ..mutex }, LendStep::Peek),
        LendStep::Peek => (mutex, LendStep::after_peek(mutex.oldest())),
        LendStep::ClearLended => (
            MutexState { lender_lended: false, ..mutex },
            LendStep::ClearRef,
        ),
        LendStep::ClearRef => (MutexState { inner_ref: None, ..mutex }, LendStep::ClearPresent),
        LendStep::ClearPresent => (
            MutexState { lender_present: false, ..mutex },
            LendStep::NoRequest,
        ),
        _ => (mutex, step),
    }
}

/// The next access of a poll of a lend guard.
#[derive(Clone, Copy, Debug, PartialEq, Eq, Structural)]
pub enum OfferStep {
    /// Mark the reference as offered, and see if it was.
    SwapAcquired,
    /// Wake the borrower.
    WakeBorrower,
    /// See if the guard of the borrower is there.
    LoadGuard,
    /// Poll the waiter of the lender.
    PollWaiter,
    Ready,
    Pending,
}

impl OfferStep {
    pub open spec fn is_finished(self) -> bool {
        self is Ready || self is Pending
    }

    pub open spec fn after_swap(was_acquired: bool) -> OfferStep {
        if was_acquired {
            OfferStep::PollWaiter
        } else {
            OfferStep::WakeBorrower
        }
    }

    pub open spec fn after_load(guard_present: bool) -> OfferStep {
        if guard_present {
            OfferStep::PollWaiter
        } else {
            OfferStep::Ready
        }
    }

    pub open spec fn after_poll(ready: bool) -> OfferStep {
        if ready {
            OfferStep::LoadGuard
        } else {
            OfferStep::Pending
        }
    }

    /// The step after the reference was marked as offered; `was_acquired` is what the mark was
    /// before. Only the first poll wakes the borrower.
    pub fn on_swap(was_acquired: bool) -> (next: OfferStep)
        ensures
            next == OfferStep::after_swap(was_acquired),
    {
        if was_acquired {
            OfferStep::PollWaiter
        } else {
            OfferStep::WakeBorrower
        }
    }

    /// The step after the guard of the borrower was looked for. Where it was gone before the
    /// borrower was woken, it does not wake the lender again.
    pub fn on_load(guard_present: bool) -> (next: OfferStep)
        ensures
            next == OfferStep::after_load(guard_present),
    {
        if guard_present {
            OfferStep::PollWaiter
        } else {
            OfferStep::Ready
        }
    }

    /// The step after the waiter was polled. The wake may be that of a new request.
    pub fn on_poll(ready: bool) -> (next: OfferStep)
        ensures
            next == OfferStep::after_poll(ready),
    {
        if ready {
            OfferStep::LoadGuard
        } else {
            OfferStep::Pending
        }
    }

    /// Whether the poll is over.
    pub fn finished(&self) -> (r: bool)
        ensures
            r == self.is_finished(),
    {
        matches!(self, OfferStep::Ready | OfferStep::Pending)
    }
}

/// One access of a poll of the lend guard for the request in `slot`; `waker` is what a poll of
/// the waiter leaves registered.
pub open spec fn offer_next<T>(
    mutex: MutexState<T>,
    slot: usize,
    step: OfferStep,
    waker: Option<Waker>,
) -> (MutexState<T>, OfferStep) {
    let entry = mutex.entry(slot as int);
    match step {
        OfferStep::SwapAcquired => (
            mutex.with_entry(slot as int, BorrowState { ref_acquired: true, ..entry }),
            OfferStep::after_swap(entry.ref_acquired),
        ),
        OfferStep::WakeBorrower => (
            mutex.with_entry(slot as int, BorrowState { waiter: entry.waiter.woken(), ..entry }),
            OfferStep::LoadGuard,
        ),
        OfferStep::LoadGuard => (mutex, OfferStep::after_load(entry.guard_present)),
        OfferStep::PollWaiter => (
            mutex.lender_registered(waker),
            OfferStep::after_poll(mutex.lend_waiter.awoken),
        ),
        _ => (mutex, step),
    }
}

/// The next access of a lend guard that is dropped.
#[derive(Clone, Copy, Debug, PartialEq, Eq, Structural)]
pub enum TakeBackStep {
    /// See if the guard of the borrower is there.
    LoadGuard,
    /// See if the reference was offered.
    LoadAcquired,
    /// Clear the lended flag; `leave` says that the request leaves the queue.
    ClearLended { leave: bool },
    /// Clear the reference.
    ClearRef { leave: bool },
    /// Take the request out of the queue.
    Pop,
    /// Clear the flag that a lender is present.
    ClearPresent,
    Done,
    Aborted,
}

impl TakeBackStep {
    pub open spec fn is_finished(self) -> bool {
        self is Done || self is Aborted
    }

    /// How many accesses are left at most.
    pub open spec fn remaining(self) -> nat {
        match self {
            TakeBackStep::LoadGuard => 6,
            TakeBackStep::LoadAcquired => 5,
            TakeBackStep::ClearLended { .. } => 4,
            TakeBackStep::ClearRef { .. } => 3,
            TakeBackStep::Pop => 2,
            TakeBackStep::ClearPresent => 1,
            _ => 0,
        }
    }

    pub open spec fn after_guard(guard_present: bool) -> TakeBackStep {
        if guard_present {
            TakeBackStep::LoadAcquired
        } else {
            TakeBackStep::ClearLended { leave: true }
        }
    }

    pub open spec fn after_acquired(acquired: bool) -> TakeBackStep {
        if acquired {
            TakeBackStep::Aborted
        } else {
            TakeBackStep::ClearLended { leave: false }
        }
    }

    pub open spec fn after_clear(leave: bool) -> TakeBackStep {
        if leave {
            TakeBackStep::Pop
        } else {
            TakeBackStep::ClearPresent
        }
    }

    /// The step after the guard of the borrower was looked for.
    pub fn on_guard(guard_present: bool) -> (next: TakeBackStep)
        ensures
            next == TakeBackStep::after_guard(guard_present),
    {
        if guard_present {
            TakeBackStep::LoadAcquired
        } else {
            TakeBackStep::ClearLended { leave: true }
        }
    }

    /// The step after the mark of an offer was loaded, while the guard of the borrower is
    /// there. Taking an offered reference back would leave it with two owners, so this ends the
    /// process; a request that was not offered it goes on waiting.
    pub fn on_acquired(acquired: bool) -> (next: TakeBackStep)
        ensures
            next == TakeBackStep::after_acquired(acquired),
    {
        if acquired {
            TakeBackStep::Aborted
        } else {
            TakeBackStep::ClearLended { leave: false }
        }
    }

    /// The step after the reference was cleared.
    pub fn on_clear(leave: bool) -> (next: TakeBackStep)
        ensures
            next == TakeBackStep::after_clear(leave),
    {
        if leave {
            TakeBackStep::Pop
        } else {
            TakeBackStep::ClearPresent
        }
    }

    /// Whether the drop is over.
    pub fn finished(&self) -> (r: bool)
        ensures
            r == self.is_finished(),
    {
        matches!(self, TakeBackStep::Done | TakeBackStep::Aborted)
    }
}

/// One access of the lend guard for the request in `slot`, when it is dropped.
pub open spec fn take_back_next<T>(mutex: MutexState<T>, slot: usize, step: TakeBackStep) -> (
    MutexState<T>,
    TakeBackStep,
) {
    match step {
        TakeBackStep::LoadGuard => (
            mutex,
            TakeBackStep::after_guard(mutex.entry(slot as int).guard_present),
        ),
        TakeBackStep::LoadAcquired => (
            mutex,
            TakeBackStep::after_acquired(mutex.entry(slot as int).ref_acquired),
        ),
        TakeBackStep::ClearLended { leave } => (
            MutexState { lender_lended: false, ..mutex },
            TakeBackStep::ClearRef { leave },
        ),
        TakeBackStep::ClearRef { leave } => (
            MutexState { inner_ref: None, ..mutex },
            TakeBackStep::after_clear(leave),
        ),
        TakeBackStep::Pop => (mutex.popped(), TakeBackStep::ClearPresent),
        TakeBackStep::ClearPresent => (
            MutexState { lender_present: false, ..mutex },
            TakeBackStep::Done,
        ),
        _ => (mutex, step),
    }
}

/// The next access of a termination.
#[derive(Clone, Copy, Debug, PartialEq, Eq, Structural)]
pub enum TerminateStep {
    /// Set the termination flag, and see if it was set.
    SwapTerminated,
    /// Load the flag that a lender is present.
    LoadPresent,
    /// Look for the oldest request.
    Peek,
    /// Poll and drop a lend guard for the request in `slot`, though nothing is lended: the
    /// request is told, and leaves when its guard is gone.
    Drain { slot: usize },
    Finished,
    Aborted { reason: BorrowMutexAbort },
}

impl TerminateStep {
    pub open spec fn after_swap(was_terminated: bool) -> TerminateStep {
        if was_terminated {
            TerminateStep::Finished
        } else {
            TerminateStep::LoadPresent
        }
    }

    pub open spec fn after_present(present: bool) -> TerminateStep {
        if present {
            TerminateStep::Aborted { reason: BorrowMutexAbort::TerminatedWhileLended }
        } else {
            TerminateStep::Peek
        }
    }

    pub open spec fn after_peek(front: Option<usize>) -> TerminateStep {
        match front {
            Some(slot) => TerminateStep::Drain { slot },
            None => TerminateStep::Finished,
        }
    }

    /// The step after the termination flag was set; `was_terminated` is what it was before.
    pub fn on_swap(was_terminated: bool) -> (next: TerminateStep)
        ensures
            next == TerminateStep::after_swap(was_terminated),
    {
        if was_terminated {
            TerminateStep::Finished
        } else {
            TerminateStep::LoadPresent
        }
    }

    /// The step after the flag that a lender is present was loaded. There is no way to go on
    /// while a reference is lended, so this ends the process.
    pub fn on_present(present: bool) -> (next: TerminateStep)
        ensures
            next == TerminateStep::after_present(present),
    {
        if present {
            TerminateStep::Aborted { reason: BorrowMutexAbort::TerminatedWhileLended }
        } else {
            TerminateStep::Peek
        }
    }

    /// The step after the queue was looked at; `front` is the slot of the oldest request.
    pub fn on_peek(front: Option<usize>) -> (next: TerminateStep)
        ensures
            next == TerminateStep::after_peek(front),
    {
        match front {
            Some(slot) => TerminateStep::Drain { slot },
            None => TerminateStep::Finished,
        }
    }
}

/// One access of a termination.
pub open spec fn terminate_next<T>(mutex: MutexState<T>, step: TerminateStep) -> (
    MutexState<T>,
    TerminateStep,
) {
    match step {
        TerminateStep::SwapTerminated => (
            MutexState { terminated: true, ..mutex },
            TerminateStep::after_swap(mutex.terminated),
        ),
        TerminateStep::LoadPresent => (mutex, TerminateStep::after_present(mutex.lender_present)),
        TerminateStep::Peek => (mutex, TerminateStep::after_peek(mutex.oldest())),
        _ => (mutex, step),
    }
}

} // verus!
