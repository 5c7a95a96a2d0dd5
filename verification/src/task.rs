//! What the library takes from outside: wakers, the cell that holds one, and the result of a
//! poll. Everything stated in this file is believed of the outside code, not proved.

use core::task::{Poll, Waker};
use futures::task::AtomicWaker;
use vstd::prelude::*;

verus! {

/// [`core::task::Waker`], a handle that wakes one task.
#[verifier::external_type_specification]
#[verifier::external_body]
pub struct ExWaker(Waker);

/// [`futures::task::AtomicWaker`], a cell that holds at most one waker.
#[verifier::external_type_specification]
#[verifier::external_body]
pub struct ExAtomicWaker(AtomicWaker);

/// [`core::task::Poll`], an enum whose two variants are public.
#[verifier::external_type_specification]
#[verifier::reject_recursive_types(T)]
pub struct ExPoll<T>(Poll<T>);

/// The waker that a cell holds. The library only reaches a cell through `&mut`, so nothing
/// changes it behind this name.
pub uninterp spec fn registered(cell: AtomicWaker) -> Option<Waker>;

/// A call of [`Waker::will_wake`] on `old` has said that it wakes the task of `new`.
pub open spec fn same_task(old: Waker, new: Waker) -> bool {
    call_ensures(Waker::will_wake, (&old, &new), true)
}

/// A call of [`Waker::wake`] on this waker has returned.
pub open spec fn woke(waker: Waker) -> bool {
    call_ensures(Waker::wake, (waker,), ())
}

/// What may be kept when the task of `waker` is registered in place of `before`: a clone of
/// `waker`, or `before` where that said that it wakes the same task.
pub open spec fn registers(before: Option<Waker>, waker: Waker, after: Option<Waker>) -> bool {
    after matches Some(kept) && (cloned(waker, kept) || (before == after && same_task(
        kept,
        waker,
    )))
}

/// [`AtomicWaker::new`] makes a cell that holds no waker.
pub assume_specification[ AtomicWaker::new ]() -> (cell: AtomicWaker)
    ensures
        registered(cell) is None,
;

/// [`AtomicWaker::register`] on a cell that nobody else uses: it then holds a waker, which is a
/// clone of `waker`, or the one that it held before where that said that it wakes the same task.
#[verifier::external_body]
pub(crate) fn register_waker(cell: &mut AtomicWaker, waker: &Waker)
    ensures
        registers(registered(*old(cell)), *waker, registered(*final(cell))),
{
    cell.register(waker)
}

/// [`AtomicWaker::take`] on a cell that nobody else uses: it gives back the waker that the cell
/// held, if any, and leaves the cell without one.
#[verifier::external_body]
pub(crate) fn take_waker(cell: &mut AtomicWaker) -> (waker: Option<Waker>)
    ensures
        waker == registered(*old(cell)),
        registered(*final(cell)) is None,
{
    cell.take()
}

/// [`Waker::wake`] schedules the waker's task. Its effect is outside the library, and no clause
/// speaks of it; that it was called is what [`woke`] says.
pub assume_specification[ Waker::wake ](waker: Waker);

/// [`Waker::will_wake`] says, to the best of its knowledge, whether two wakers wake the same
/// task. It may answer `false` when they do, so no clause says what it answers; that it answered
/// `true` is what [`same_task`] says.
pub assume_specification[ Waker::will_wake ](waker: &Waker, other: &Waker) -> bool;

/// [`Waker::clone`] makes a waker for the same task. How the two compare is up to the executor,
/// and no clause speaks of it.
pub assume_specification[ <Waker as Clone>::clone ](waker: &Waker) -> Waker;

} // verus!
