//! A flag that a task can wait for.

use crate::task;
use crate::text;
use core::task::{Poll, Waker};
use futures::task::AtomicWaker;
use vstd::prelude::*;
use vstd::string::StringExecFns;

pub mod interleaving;

verus! {

/// What a waiter holds.
pub struct WaiterState {
    /// It was woken since the last successful poll.
    pub awoken: bool,
    /// The waker of the task that waits.
    pub waker: Option<Waker>,
}

impl WaiterState {
    /// The waiter after a wake. The waker is handed over unless an earlier wake is still
    /// waiting to be polled.
    pub open spec fn woken(self) -> WaiterState {
        WaiterState {
            awoken: true,
            waker: if self.awoken {
                self.waker
            } else {
                None
            },
        }
    }

    /// The waiter after a poll that left `waker` registered.
    pub open spec fn polled(self, waker: Option<Waker>) -> WaiterState {
        WaiterState { awoken: false, waker }
    }

    /// What a wake owes to the task that waits: it is woken, unless an earlier wake is still
    /// waiting to be polled.
    pub open spec fn task_woken(self) -> bool {
        !self.awoken ==> (self.waker matches Some(waker) ==> task::woke(waker))
    }

    /// The wakers that a poll for the task of `waker` may leave registered: a waiter that was
    /// woken keeps what it has; one that was not registers the task.
    pub open spec fn registers(self, waker: Waker, after: Option<Waker>) -> bool {
        if self.awoken {
            after == self.waker
        } else {
            task::registers(self.waker, waker, after)
        }
    }
}

/// The next access of a wake.
pub enum WakeStep {
    /// Set the flag, and see if it was set before.
    Mark,
    /// Take the registered waker.
    Take,
    /// Wake the task.
    Notify { waker: Waker },
    Done,
}

impl WakeStep {
    pub open spec fn remaining(self) -> nat {
        match self {
            WakeStep::Mark => 3,
            WakeStep::Take => 2,
            WakeStep::Notify { .. } => 1,
            WakeStep::Done => 0,
        }
    }

    pub open spec fn after_mark(was_awoken: bool) -> WakeStep {
        if was_awoken {
            WakeStep::Done
        } else {
            WakeStep::Take
        }
    }

    pub open spec fn after_take(waker: Option<Waker>) -> WakeStep {
        match waker {
            Some(waker) => WakeStep::Notify { waker },
            None => WakeStep::Done,
        }
    }

    /// The step after the flag was set; `was_awoken` is what it was before. Where an earlier
    /// wake has not been polled yet, that wake has taken care of the waker.
    pub fn on_mark(was_awoken: bool) -> (next: WakeStep)
        ensures
            next == WakeStep::after_mark(was_awoken),
    {
        if was_awoken {
            WakeStep::Done
        } else {
            WakeStep::Take
        }
    }

    /// The step after the waker was taken. Where there was none, the next poll succeeds at
    /// once, and there is nothing to do.
    pub fn on_take(waker: Option<Waker>) -> (next: WakeStep)
        ensures
            next == WakeStep::after_take(waker),
    {
        match waker {
            Some(waker) => WakeStep::Notify { waker },
            None => WakeStep::Done,
        }
    }
}

/// The next access of a poll.
#[derive(Clone, Copy, Debug, PartialEq, Eq, Structural)]
pub enum PollStep {
    /// Clear the flag, and see if it was set.
    Check,
    /// Register the waker of the polling task.
    Register,
    /// Clear the flag again: it may have been set just before the waker was registered.
    Recheck,
    Ready,
    Pending,
}

impl PollStep {
    pub open spec fn remaining(self) -> nat {
        match self {
            PollStep::Check => 3,
            PollStep::Register => 2,
            PollStep::Recheck => 1,
            PollStep::Ready | PollStep::Pending => 0,
        }
    }

    pub open spec fn after_check(self, was_awoken: bool) -> PollStep {
        if was_awoken {
            PollStep::Ready
        } else if self is Check {
            PollStep::Register
        } else {
            PollStep::Pending
        }
    }

    /// The step after the flag was cleared; `was_awoken` is what it was before.
    pub fn on_check(self, was_awoken: bool) -> (next: PollStep)
        requires
            self is Check || self is Recheck,
        ensures
            next == self.after_check(was_awoken),
    {
        match (self, was_awoken) {
            (_, true) => PollStep::Ready,
            (PollStep::Check, false) => PollStep::Register,
            (_, false) => PollStep::Pending,
        }
    }
}

/// One access of a wake.
pub open spec fn wake_next(state: WaiterState, step: WakeStep) -> (WaiterState, WakeStep) {
    match step {
        WakeStep::Mark => (
            WaiterState { awoken: true, ..state },
            WakeStep::after_mark(state.awoken),
        ),
        WakeStep::Take => (
            WaiterState { waker: None, ..state },
            WakeStep::after_take(state.waker),
        ),
        WakeStep::Notify { .. } | WakeStep::Done => (state, WakeStep::Done),
    }
}

/// One access of a poll; `waker` is what a registration leaves in the waiter.
pub open spec fn poll_next(state: WaiterState, step: PollStep, waker: Option<Waker>) -> (
    WaiterState,
    PollStep,
) {
    match step {
        PollStep::Check | PollStep::Recheck => (
            WaiterState { awoken: false, ..state },
            step.after_check(state.awoken),
        ),
        PollStep::Register => (WaiterState { waker, ..state }, PollStep::Recheck),
        PollStep::Ready | PollStep::Pending => (state, step),
    }
}

/// A thin wrapper over a [`futures::task::AtomicWaker`]. A task waits for a waiter by polling
/// it, and another task completes it by waking it. A wake that comes before any poll lets the
/// next poll succeed at once; every successful poll takes the wake back.
pub struct AtomicWaiter {
    awoken: bool,
    waker: AtomicWaker,
}

impl AtomicWaiter {
    pub closed spec fn view(&self) -> WaiterState {
        WaiterState { awoken: self.awoken, waker: task::registered(self.waker) }
    }

    /// A waiter that was not woken and that nobody waits for.
    pub fn new() -> (waiter: AtomicWaiter)
        ensures
            waiter@ == (WaiterState { awoken: false, waker: None }),
    {
        AtomicWaiter { awoken: false, waker: AtomicWaker::new() }
    }

    /// The waiter in words.
    pub fn debug_text(&self) -> (r: String)
        ensures
            r@ == "AsyncCbStream { ready: "@ + text::flag(self@.awoken) + " }"@,
    {
        let mut r = "AsyncCbStream { ready: ".to_owned();
        r.append(text::flag_text(self.awoken));
        r.append(" }");
        r
    }

    /// Makes the next access of a wake.
    pub fn advance_wake(&mut self, step: WakeStep) -> (next: WakeStep)
        ensures
            (final(self)@, next) == wake_next(old(self)@, step),
            step matches WakeStep::Notify { waker } ==> task::woke(waker),
    {
        match step {
            WakeStep::Mark => {
                let was_awoken = self.awoken;
                self.awoken = true;
                WakeStep::on_mark(was_awoken)
            },
            WakeStep::Take => WakeStep::on_take(task::take_waker(&mut self.waker)),
            WakeStep::Notify { waker } => {
                waker.wake();
                WakeStep::Done
            },
            WakeStep::Done => WakeStep::Done,
        }
    }

    /// Makes the next access of a poll by the task of `waker`.
    pub fn advance_poll(&mut self, step: PollStep, waker: &Waker) -> (next: PollStep)
        ensures
            (final(self)@, next) == poll_next(old(self)@, step, final(self)@.waker),
            step is Register ==> task::registers(old(self)@.waker, *waker, final(self)@.waker),
    {
        match step {
            PollStep::Check | PollStep::Recheck => {
                let was_awoken = self.awoken;
                self.awoken = false;
                step.on_check(was_awoken)
            },
            PollStep::Register => {
                task::register_waker(&mut self.waker, waker);
                PollStep::Recheck
            },
            PollStep::Ready | PollStep::Pending => step,
        }
    }

    /// Completes the waiter, and wakes the task that waits for it.
    pub fn wake(&mut self)
        ensures
            final(self)@ == old(self)@.woken(),
            old(self)@.task_woken(),
    {
        let mut step = WakeStep::Mark;
        while !matches!(step, WakeStep::Done)
            invariant
                match step {
                    WakeStep::Mark => self@ == old(self)@,
                    WakeStep::Take => !old(self)@.awoken && self@ == (WaiterState {
                        awoken: true,
                        ..old(self)@
                    }),
                    WakeStep::Notify { waker } => {
                        &&& self@ == old(self)@.woken()
                        &&& old(self)@.waker == Some(waker)
                    },
                    WakeStep::Done => self@ == old(self)@.woken() && old(self)@.task_woken(),
                },
            decreases step.remaining(),
        {
            step = self.advance_wake(step);
        }
    }

    /// Polls the waiter for the task of `waker`: succeeds if it was woken since the last
    /// successful poll, and otherwise leaves the task to be woken.
    pub fn poll_const(&mut self, waker: &Waker) -> (r: Poll<()>)
        ensures
            r is Ready <==> old(self)@.awoken,
            final(self)@ == old(self)@.polled(final(self)@.waker),
            old(self)@.registers(*waker, final(self)@.waker),
    {
        let mut step = PollStep::Check;
        while !matches!(step, PollStep::Ready | PollStep::Pending)
            invariant
                match step {
                    PollStep::Check => self@ == old(self)@,
                    PollStep::Register => !old(self)@.awoken && self@ == old(self)@,
                    PollStep::Recheck | PollStep::Pending => {
                        &&& !old(self)@.awoken
                        &&& !self@.awoken
                        &&& old(self)@.registers(*waker, self@.waker)
                    },
                    PollStep::Ready => old(self)@.awoken && self@ == (WaiterState {
                        awoken: false,
                        ..old(self)@
                    }),
                },
            decreases step.remaining(),
        {
            step = self.advance_poll(step, waker);
        }
        match step {
            PollStep::Ready => Poll::Ready(()),
            _ => Poll::Pending,
        }
    }
}

impl Default for AtomicWaiter {
    fn default() -> (waiter: AtomicWaiter)
        ensures
            waiter@ == (WaiterState { awoken: false, waker: None }),
    {
        AtomicWaiter::new()
    }
}

} // verus!
