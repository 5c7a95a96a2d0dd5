//! A waker cell made of a plain slot and one byte of state, so that both can be packed with
//! other data. A poll succeeds if a wake came at any time before, even if it is the first poll.

use crate::task;
use core::task::{Poll, Waker};
use vstd::prelude::*;

pub mod interleaving;

verus! {

/// Neither polling nor waking.
pub const IDLING: u8 = 0;

/// A poll is under way, and may be replacing the waker.
pub const REGISTERING: u8 = 1;

/// A wake is under way, and may be taking the waker.
pub const WAKING: u8 = 2;

/// A wake has come, and no poll has answered it yet.
pub const AWOKEN: u8 = 4;

/// What is stored.
pub struct CellState {
    pub waker: Option<Waker>,
    pub state: u8,
}

/// A poll of a cell in this state is defined: where no other poll is under way, the state is
/// made of the known bits.
pub open spec fn pollable(state: u8) -> bool {
    state & REGISTERING == 0 ==> state == IDLING || state == WAKING || state == AWOKEN || state
        == WAKING | AWOKEN
}

/// The next access of a poll.
#[derive(Clone, Copy, Debug, PartialEq, Eq, Structural)]
pub enum PollStep {
    /// Set the registering bit, and see what was set before.
    Enter,
    /// Store the waker.
    Register,
    /// Clear the state, and see what was set before.
    Leave,
    /// Clear the state, to answer an earlier wake.
    Consume,
    /// Set the registering bit again, and see what was set before, to wait out the wake that is
    /// under way.
    Await,
    Ready,
    Pending,
}

impl PollStep {
    pub open spec fn after_enter(prev: u8) -> PollStep {
        if prev == IDLING {
            PollStep::Register
        } else if prev & REGISTERING != 0 {
            PollStep::Pending
        } else if prev & AWOKEN != 0 {
            PollStep::Consume
        } else {
            PollStep::Await
        }
    }

    pub open spec fn after_leave(prev: u8) -> PollStep {
        if prev & WAKING != 0 {
            PollStep::Ready
        } else {
            PollStep::Pending
        }
    }

    pub open spec fn after_await(prev: u8) -> PollStep {
        if prev & WAKING != 0 && prev & AWOKEN == 0 {
            PollStep::Await
        } else {
            PollStep::after_enter(prev)
        }
    }

    /// The step after the registering bit was set; `prev` is the state before. Where another
    /// poll is under way, this one gives up.
    pub fn on_enter(prev: u8) -> (next: PollStep)
        requires
            pollable(prev),
        ensures
            next == PollStep::after_enter(prev),
    {
        if prev == IDLING {
            PollStep::Register
        } else if prev & REGISTERING != 0 {
            PollStep::Pending
        } else if prev & AWOKEN != 0 {
            PollStep::Consume
        } else {
            PollStep::Await
        }
    }

    /// The step after the state was cleared; `prev` is the state before. A wake that came in
    /// the meantime could not reach the waker, so the poll answers it.
    pub fn on_leave(prev: u8) -> (next: PollStep)
        ensures
            next == PollStep::after_leave(prev),
    {
        if prev & WAKING != 0 {
            PollStep::Ready
        } else {
            PollStep::Pending
        }
    }

    /// The step after the registering bit was set again; `prev` is the state before. The wake
    /// that is under way ends by setting the awoken bit in place of all others: the poll waits
    /// for that, and answers the wake then, so that no later poll answers it once more.
    pub fn on_await(prev: u8) -> (next: PollStep)
        requires
            pollable(prev),
        ensures
            next == PollStep::after_await(prev),
    {
        if prev & WAKING != 0 && prev & AWOKEN == 0 {
            PollStep::Await
        } else {
            PollStep::on_enter(prev)
        }
    }
}

/// The next access of a wake.
pub enum WakeStep {
    /// Set the waking bit, and see what was set before.
    Enter,
    /// Take the waker.
    Take,
    /// Replace the state, to leave the wake for a poll to answer.
    Leave { waker: Option<Waker> },
    /// Wake the task, if there was a waker.
    Notify { waker: Option<Waker> },
    Done,
}

impl WakeStep {
    pub open spec fn after_enter(prev: u8) -> WakeStep {
        if prev == IDLING {
            WakeStep::Take
        } else {
            WakeStep::Done
        }
    }

    /// The step after the waking bit was set; `prev` is the state before. Where a poll or
    /// another wake is under way, it sees the bit, and there is nothing to do.
    pub fn on_enter(prev: u8) -> (next: WakeStep)
        ensures
            next == WakeStep::after_enter(prev),
    {
        if prev == IDLING {
            WakeStep::Take
        } else {
            WakeStep::Done
        }
    }
}

/// One access of a poll; `waker` is what a registration leaves in the cell.
pub open spec fn poll_next(cell: CellState, step: PollStep, waker: Option<Waker>) -> (
    CellState,
    PollStep,
) {
    match step {
        PollStep::Enter => (
            CellState { state: cell.state | REGISTERING, ..cell },
            PollStep::after_enter(cell.state),
        ),
        PollStep::Register => (CellState { waker, ..cell }, PollStep::Leave),
        PollStep::Leave => (
            CellState { state: IDLING, ..cell },
            PollStep::after_leave(cell.state),
        ),
        PollStep::Consume => (CellState { state: IDLING, ..cell }, PollStep::Ready),
        PollStep::Await => (
            CellState { state: cell.state | REGISTERING, ..cell },
            PollStep::after_await(cell.state),
        ),
        PollStep::Ready | PollStep::Pending => (cell, step),
    }
}

/// One access of a wake.
pub open spec fn wake_next(cell: CellState, step: WakeStep) -> (CellState, WakeStep) {
    match step {
        WakeStep::Enter => (
            CellState { state: cell.state | WAKING, ..cell },
            WakeStep::after_enter(cell.state),
        ),
        WakeStep::Take => (
            CellState { waker: None, ..cell },
            WakeStep::Leave { waker: cell.waker },
        ),
        WakeStep::Leave { waker } => (
            CellState { state: AWOKEN, ..cell },
            WakeStep::Notify { waker },
        ),
        WakeStep::Notify { .. } | WakeStep::Done => (cell, WakeStep::Done),
    }
}

/// Stores `waker`, unless the old one wakes the same task.
pub fn register(atomic_waker: &mut Option<Waker>, waker: &Waker)
    ensures
        task::registers(*old(atomic_waker), *waker, *final(atomic_waker)),
{
    let keep = match atomic_waker {
        Some(old_waker) => old_waker.will_wake(waker),
        None => false,
    };
    if !keep {
        *atomic_waker = Some(waker.clone());
    }
}

/// Makes the next access of a poll by the task of `waker`.
pub fn advance_poll(
    atomic_waker: &mut Option<Waker>,
    state: &mut u8,
    step: PollStep,
    waker: &Waker,
) -> (next: PollStep)
    requires
        step is Enter || step is Await ==> pollable(*old(state)),
    ensures
        ((CellState { waker: *final(atomic_waker), state: *final(state) }), next) == poll_next(
            CellState { waker: *old(atomic_waker), state: *old(state) },
            step,
            *final(atomic_waker),
        ),
        step is Register ==> task::registers(*old(atomic_waker), *waker, *final(atomic_waker)),
{
    match step {
        PollStep::Enter => {
            let prev = *state;
            *state = prev | REGISTERING;
            PollStep::on_enter(prev)
        },
        PollStep::Register => {
            register(atomic_waker, waker);
            PollStep::Leave
        },
        PollStep::Leave => {
            let prev = *state;
            *state = IDLING;
            PollStep::on_leave(prev)
        },
        PollStep::Consume => {
            *state = IDLING;
            PollStep::Ready
        },
        PollStep::Await => {
            let prev = *state;
            *state = prev | REGISTERING;
            PollStep::on_await(prev)
        },
        PollStep::Ready | PollStep::Pending => step,
    }
}

/// Makes the next access of a wake.
pub fn advance_wake(atomic_waker: &mut Option<Waker>, state: &mut u8, step: WakeStep) -> (next:
    WakeStep)
    ensures
        ((CellState { waker: *final(atomic_waker), state: *final(state) }), next) == wake_next(
            CellState { waker: *old(atomic_waker), state: *old(state) },
            step,
        ),
        step matches WakeStep::Notify { waker: Some(waker) } ==> task::woke(waker),
{
    match step {
        WakeStep::Enter => {
            let prev = *state;
            *state = prev | WAKING;
            WakeStep::on_enter(prev)
        },
        WakeStep::Take => WakeStep::Leave { waker: atomic_waker.take() },
        WakeStep::Leave { waker } => {
            *state = AWOKEN;
            WakeStep::Notify { waker }
        },
        WakeStep::Notify { waker } => {
            if let Some(waker) = waker {
                waker.wake();
            }
            WakeStep::Done
        },
        WakeStep::Done => WakeStep::Done,
    }
}

/// Polls the cell for the task of `waker`: registers it where no wake has come, and answers
/// the wake where one has. The cell is not in the middle of a wake: there would be nobody to
/// bring that to its end.
pub fn poll_const(atomic_waker: &mut Option<Waker>, state: &mut u8, waker: &Waker) -> (r: Poll<()>)
    requires
        pollable(*old(state)),
        *old(state) != WAKING,
    ensures
        *old(state) == IDLING ==> {
            &&& r is Pending
            &&& *final(state) == IDLING
            &&& task::registers(*old(atomic_waker), *waker, *final(atomic_waker))
        },
        *old(state) != IDLING ==> *final(atomic_waker) == *old(atomic_waker),
        *old(state) & REGISTERING != 0 ==> r is Pending && *final(state) == *old(state),
        *old(state) == AWOKEN || *old(state) == WAKING | AWOKEN ==> r is Ready && *final(state)
            == IDLING,
{
    let ghost start = *state;
    proof {
        lemma_bits(start);
        assert(2u8 | 4u8 == 6u8) by (bit_vector);
        assert(0u8 | 1u8 == 1u8) by (bit_vector);
        assert(1u8 & 2u8 == 0u8) by (bit_vector);
        assert(4u8 & 4u8 != 0u8 && 6u8 & 4u8 != 0u8 && 4u8 & 1u8 == 0u8 && 6u8 & 1u8 == 0u8)
            by (bit_vector);
        assert(0u8 & 1u8 == 0u8) by (bit_vector);
    }
    let entered = advance_poll(atomic_waker, state, PollStep::Enter, waker);
    let registered = advance_poll(atomic_waker, state, entered, waker);
    match advance_poll(atomic_waker, state, registered, waker) {
        PollStep::Ready => Poll::Ready(()),
        _ => Poll::Pending,
    }
}

/// Wakes the task that is registered. Where a poll or another wake is under way, it is left to
/// that; and where an earlier wake has not been answered, there is nothing more to do.
pub fn wake(atomic_waker: &mut Option<Waker>, state: &mut u8)
    ensures
        *old(state) == IDLING ==> {
            &&& *final(state) == AWOKEN
            &&& *final(atomic_waker) is None
            &&& *old(atomic_waker) matches Some(waker) ==> task::woke(waker)
        },
        *old(state) != IDLING ==> *final(state) == *old(state) | WAKING && *final(atomic_waker)
            == *old(atomic_waker),
{
    let entered = advance_wake(atomic_waker, state, WakeStep::Enter);
    let taken = advance_wake(atomic_waker, state, entered);
    let left = advance_wake(atomic_waker, state, taken);
    advance_wake(atomic_waker, state, left);
}

/// What setting one bit does to the others.
pub proof fn lemma_bits(s: u8)
    ensures
        (s | REGISTERING) & REGISTERING != 0,
        (s | REGISTERING) & WAKING == s & WAKING,
        (s | REGISTERING) & AWOKEN == s & AWOKEN,
        (s | WAKING) & REGISTERING == s & REGISTERING,
        (s | WAKING) & WAKING != 0,
        (s | WAKING) & AWOKEN == s & AWOKEN,
        s & REGISTERING != 0 ==> s | REGISTERING == s,
        s <= 7 ==> s | REGISTERING <= 7 && s | WAKING <= 7,
        s <= 7 ==> (s == IDLING <==> s & REGISTERING == 0 && s & WAKING == 0 && s & AWOKEN == 0),
        s <= 7 ==> pollable(s),
        AWOKEN & REGISTERING == 0 && AWOKEN & WAKING == 0 && AWOKEN & AWOKEN != 0,
        IDLING & REGISTERING == 0 && IDLING & WAKING == 0 && IDLING & AWOKEN == 0,
{
    assert((s | 1u8) & 1u8 != 0u8) by (bit_vector);
    assert((s | 1u8) & 2u8 == s & 2u8) by (bit_vector);
    assert((s | 1u8) & 4u8 == s & 4u8) by (bit_vector);
    assert((s | 2u8) & 1u8 == s & 1u8) by (bit_vector);
    assert((s | 2u8) & 2u8 != 0u8) by (bit_vector);
    assert((s | 2u8) & 4u8 == s & 4u8) by (bit_vector);
    assert(s & 1u8 != 0u8 ==> s | 1u8 == s) by (bit_vector);
    assert(s <= 7u8 ==> s | 1u8 <= 7u8 && s | 2u8 <= 7u8) by (bit_vector);
    assert(s <= 7u8 ==> (s == 0u8 <==> s & 1u8 == 0u8 && s & 2u8 == 0u8 && s & 4u8 == 0u8))
        by (bit_vector);
    assert(s <= 7u8 && s & 1u8 == 0u8 ==> s == 0u8 || s == 2u8 || s == 4u8 || s == 2u8 | 4u8)
        by (bit_vector);
    assert(4u8 & 1u8 == 0u8 && 4u8 & 2u8 == 0u8 && 4u8 & 4u8 != 0u8) by (bit_vector);
    assert(0u8 & 1u8 == 0u8 && 0u8 & 2u8 == 0u8 && 0u8 & 4u8 == 0u8) by (bit_vector);
}

} // verus!
