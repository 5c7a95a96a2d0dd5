//! What holds of a pointer that any number of operations work on at once, whatever the order of
//! their accesses.

use crate::atomic_fat_ptr::{access_next, Access, AccessOp, AccessStep, FatPtrState};
use vstd::prelude::*;

verus! {

/// A pointer with the operations begun on it, by a number of their own.
pub struct World<T> {
    pub state: FatPtrState<T>,
    pub ops: Map<int, AccessOp<T>>,
}

pub enum Event<T> {
    Begin { id: int, access: Access<T> },
    /// An operation makes its next access; `spurious` fails to take the lock for no reason.
    Step { id: int, spurious: bool },
}

impl<T> World<T> {
    /// The world before any event.
    pub open spec fn init(value: Option<T>) -> World<T> {
        World { state: FatPtrState { inner: value, locked: false }, ops: Map::empty() }
    }

    pub open spec fn enabled(self, event: Event<T>) -> bool {
        match event {
            Event::Begin { id, .. } => !self.ops.dom().contains(id),
            Event::Step { id, .. } => self.ops.dom().contains(id),
        }
    }

    pub open spec fn after(self, event: Event<T>) -> World<T> {
        match event {
            Event::Begin { id, access } => World {
                ops: self.ops.insert(
                    id,
                    AccessOp { access, step: AccessStep::Lock, seen: None },
                ),
                ..self
            },
            Event::Step { id, spurious } => {
                let (state, op) = access_next(self.state, self.ops[id], spurious);
                World { state, ops: self.ops.insert(id, op) }
            },
        }
    }

    /// The operation has the lock.
    pub open spec fn holds(self, id: int) -> bool {
        &&& self.ops.dom().contains(id)
        &&& match self.ops[id].step {
            AccessStep::Read | AccessStep::Write | AccessStep::Unlock => true,
            _ => false,
        }
    }

    /// What every interleaving keeps: the lock is set exactly when an operation has it, no two
    /// have it, and a swap that is about to write has read what it will replace.
    pub open spec fn inv(self) -> bool {
        &&& forall|i: int, j: int| #[trigger] self.holds(i) && #[trigger] self.holds(j) ==> i == j
        &&& forall|id: int| #[trigger] self.holds(id) ==> self.state.locked
        &&& self.state.locked ==> exists|id: int| #[trigger] self.holds(id)
        &&& forall|id: int| #[trigger]
            self.holds(id) && self.ops[id].step is Write && self.ops[id].access is Swap
                ==> self.ops[id].seen == self.state.inner
    }
}

/// The world after a sequence of events.
pub open spec fn run<T>(value: Option<T>, events: Seq<Event<T>>) -> World<T>
    decreases events.len(),
{
    if events.len() == 0 {
        World::init(value)
    } else {
        run(value, events.drop_last()).after(events.last())
    }
}

/// Each of the events could happen when it did.
pub open spec fn feasible<T>(value: Option<T>, events: Seq<Event<T>>) -> bool
    decreases events.len(),
{
    events.len() == 0 || {
        &&& feasible(value, events.drop_last())
        &&& run(value, events.drop_last()).enabled(events.last())
    }
}

/// Every access keeps the invariant.
pub proof fn law_step<T>(world: World<T>, event: Event<T>)
    requires
        world.inv(),
        world.enabled(event),
    ensures
        world.after(event).inv(),
{
    let next = world.after(event);
    match event {
        Event::Begin { id, .. } => {
            assert forall|i: int| #[trigger] next.holds(i) <==> world.holds(i) by {}
            if world.state.locked {
                let holder = choose|i: int| world.holds(i);
                assert(next.holds(holder));
            }
        },
        Event::Step { id, .. } => {
            assert forall|i: int| i != id
                implies (#[trigger] next.holds(i) <==> world.holds(i)) by {}
            if next.state.locked {
                if next.holds(id) {
                } else {
                    let holder = choose|i: int| world.holds(i);
                    assert(next.holds(holder));
                }
            } else if world.ops[id].step is Unlock {
                assert(world.holds(id));
            }
            if world.holds(id) {
                assert forall|i: int| #[trigger] next.holds(i) implies i == id by {}
            }
        },
    }
}

/// Every interleaving of loads, stores and swaps keeps the invariant.
pub proof fn law_every_run<T>(value: Option<T>, events: Seq<Event<T>>)
    requires
        feasible(value, events),
    ensures
        run(value, events).inv(),
    decreases events.len(),
{
    if events.len() > 0 {
        law_every_run(value, events.drop_last());
        law_step(run(value, events.drop_last()), events.last());
    }
}

/// No two operations touch the pointer at the same time.
pub proof fn law_exclusive<T>(world: World<T>, i: int, j: int)
    requires
        world.inv(),
        world.holds(i),
        world.holds(j),
    ensures
        i == j,
{
}

/// The pointer changes only when an operation writes it, to what that operation was given; an
/// operation reads what is stored; and what a swap gives back is what it replaced.
pub proof fn law_linearizable<T>(world: World<T>, id: int, spurious: bool)
    requires
        world.inv(),
        world.ops.dom().contains(id),
    ensures
        ({
            let op = world.ops[id];
            let next = world.after(Event::Step { id, spurious });
            &&& !(op.step is Write) ==> next.state.inner == world.state.inner
            &&& op.step is Write ==> next.state.inner == op.written()
            &&& op.step is Read ==> next.ops[id].seen == world.state.inner
            &&& op.step is Write && op.access is Swap ==> next.ops[id].seen == world.state.inner
        }),
{
    if world.ops[id].step is Write {
        assert(world.holds(id));
    }
}

/// An operation gets the lock if and only if nobody has it, unless it fails for no reason; and is
/// over one access after it has read or written what it was made for.
pub proof fn law_progress<T>(state: FatPtrState<T>, op: AccessOp<T>, spurious: bool)
    ensures
        op.step is Lock ==> {
            let (after, next) = access_next(state, op, spurious);
            &&& after.inner == state.inner
            &&& next.step is Lock <==> state.locked || spurious
            &&& !(next.step is Lock) ==> after.locked && next.step is Write == op.access is Store
            &&& !(next.step is Lock) ==> next.step is Read || next.step is Write
            &&& next.step is Lock ==> after == state
        },
        op.step is Read ==> {
            let (after, next) = access_next(state, op, spurious);
            &&& after == state
            &&& next.seen == state.inner
            &&& next.step is Write <==> op.access is Swap
            &&& next.step is Unlock <==> !(op.access is Swap)
        },
        op.step is Write ==> {
            let (after, next) = access_next(state, op, spurious);
            &&& after.locked == state.locked
            &&& next.step is Unlock
            &&& op.access matches Access::Store { value } ==> after.inner == value
            &&& op.access matches Access::Swap { value } ==> after.inner == value
        },
        op.step is Unlock ==> {
            let (after, next) = access_next(state, op, spurious);
            &&& !after.locked
            &&& after.inner == state.inner
            &&& next.step is Done
        },
        access_next(state, op, spurious).1.access == op.access,
        !(op.step is Read) ==> access_next(state, op, spurious).1.seen == op.seen,
{
}

} // verus!
