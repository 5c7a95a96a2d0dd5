//! The ring as a queue: whole operations on a ring that the caller owns, and what they do to the
//! sequence of queued elements.

use crate::counter;
use crate::mpmc::ring::{Counters, PopOp, PushOp, Ring, RingState};
use crate::mpmc::steps::{slot_index, PopStep, PushStep};
use vstd::prelude::*;
use vstd::wrapping::usize_specs;

verus! {

/// How far a push of `val` has come, in a ring that was `start` and at rest when it began.
spec fn push_progress<T>(
    start: RingState<T>,
    now: RingState<T>,
    op: PushOp<T>,
    val: T,
) -> bool {
    match op.step {
        PushStep::LoadHead => now == start && op.val == Some(val),
        PushStep::LoadTail { head } => {
            &&& now == start
            &&& op.val == Some(val)
            &&& head == start.prod_head
        },
        PushStep::Reserve { head } => {
            &&& now == start
            &&& op.val == Some(val)
            &&& head == start.prod_head
            &&& start.count() < start.capacity
        },
        PushStep::Write { head } => {
            &&& now == (RingState {
                prod_head: usize_specs::wrapping_add(head, 1),
                ..start
            })
            &&& op.val == Some(val)
            &&& head == start.prod_head
            &&& start.count() < start.capacity
        },
        PushStep::Publish { head } => {
            &&& now == (RingState { prod_tail: start.prod_tail, ..start.pushed(val) })
            &&& head == start.prod_head
            &&& start.count() < start.capacity
        },
        PushStep::Done { head } => {
            &&& now == start.pushed(val)
            &&& head == start.prod_head
            &&& start.count() < start.capacity
        },
        PushStep::Full => {
            &&& now == start
            &&& op.val == Some(val)
            &&& start.count() == start.capacity
        },
    }
}

/// How far a pop has come, in a ring that was `start` and at rest when it began.
spec fn pop_progress<T>(
    start: RingState<T>,
    now: RingState<T>,
    op: PopOp<T>,
) -> bool {
    match op.step {
        PopStep::LoadHead => now == start,
        PopStep::LoadTail { head } => now == start && head == start.cons_head,
        PopStep::Reserve { head } => {
            &&& now == start
            &&& head == start.cons_head
            &&& start.count() > 0
        },
        PopStep::Read { head } => {
            &&& now == (RingState {
                cons_head: usize_specs::wrapping_add(head, 1),
                ..start
            })
            &&& head == start.cons_head
            &&& start.count() > 0
        },
        PopStep::Publish { head } => {
            &&& now == (RingState { cons_tail: start.cons_tail, ..start.popped() })
            &&& head == start.cons_head
            &&& op.val == start.slots[start.slot(head as int)]
            &&& start.count() > 0
        },
        PopStep::Done { head } => {
            &&& now == start.popped()
            &&& op.val == start.slots[start.slot(head as int)]
            &&& head == start.cons_head
            &&& start.count() > 0
        },
        PopStep::Empty => now == start && start.count() == 0,
    }
}

impl<T> RingState<T> {
    /// The slot of the oldest element, or of the next one to come where there is none.
    pub open spec fn front(self) -> int {
        self.slot(self.cons_tail as int)
    }

    /// How many elements are ahead of the one in `slot`.
    pub open spec fn position(self, slot: int) -> int {
        counter::slot_of(slot - self.front(), self.size as int)
    }

    /// `slot` holds an element.
    pub open spec fn holds(self, slot: int) -> bool {
        0 <= slot < self.size && self.position(slot) < self.count()
    }

    /// What a push of `val` does: it is queued in the next slot, or given back where the ring is
    /// full.
    pub open spec fn push_called(self, val: T, after: RingState<T>, r: Result<usize, T>) -> bool {
        &&& after.at_rest()
        &&& after.size == self.size
        &&& after.capacity == self.capacity
        &&& after.front() == self.front()
        &&& if self.contents().len() < self.capacity {
            &&& r matches Ok(slot)
            &&& slot == counter::slot_of(self.front() + self.contents().len(), self.size as int)
            &&& after.contents() == self.contents().push(val)
        } else {
            &&& r == Err::<usize, T>(val)
            &&& after.contents() == self.contents()
        }
    }

    /// What a pop does: it takes the oldest element, where there is one.
    pub open spec fn pop_called(self, after: RingState<T>, r: Option<T>) -> bool {
        &&& after.at_rest()
        &&& after.size == self.size
        &&& after.capacity == self.capacity
        &&& if self.contents().len() > 0 {
            &&& r == Some(self.contents()[0])
            &&& after.contents() == self.contents().drop_first()
            &&& after.front() == counter::slot_of(self.front() + 1, self.size as int)
        } else {
            &&& r is None
            &&& after.contents() == self.contents()
            &&& after.front() == self.front()
        }
    }

    proof fn lemma_slot(self, slot: int)
        requires
            self.at_rest(),
            self.holds(slot),
        ensures
            0 <= self.position(slot) < self.count(),
            slot == self.slot(self.cons_tail + self.position(slot)),
            self.slots[slot] == Some(self.contents()[self.position(slot)]),
    {
        let size = self.size as int;
        let k = self.position(slot);
        counter::lemma_slot_position(self.front(), slot, size);
        vstd::arithmetic::div_mod::lemma_add_mod_noop(self.front(), k, size);
        vstd::arithmetic::div_mod::lemma_add_mod_noop(self.cons_tail as int, k, size);
        vstd::arithmetic::div_mod::lemma_mod_twice(self.cons_tail as int, size);
    }
}

/// Queues `val` in the ring of `counters` and `slots`, and gives back the slot it is kept in until
/// it is popped; or gives `val` back where the ring is full.
pub fn push<T>(counters: &mut Counters, slots: &mut [Option<T>], val: T) -> (r: Result<usize, T>)
    requires
        old(counters).over(old(slots)@).at_rest(),
    ensures
        old(counters).over(old(slots)@).push_called(
            val,
            final(counters).over(final(slots)@),
            r,
        ),
{
    let mut op = PushOp::new(val);
    let ghost start = counters.over(slots@);
    proof {
        start.lemma_at_rest();
    }
    while !op.step.finished()
        invariant
            start.at_rest(),
            (usize_specs::wrapping_add(
                start.capacity,
                usize_specs::wrapping_sub(start.cons_tail, start.prod_head),
            ) == 0) <==> start.count() == start.capacity,
            push_progress(start, counters.over(slots@), op, val),
        decreases op.step.remaining(),
    {
        op.advance(counters, slots);
    }
    proof {
        if start.count() < start.capacity {
            start.lemma_pushed(val);
        }
        vstd::arithmetic::div_mod::lemma_add_mod_noop(
            start.slot(start.cons_tail as int),
            start.count(),
            start.size as int,
        );
        vstd::arithmetic::div_mod::lemma_add_mod_noop(
            start.cons_tail as int,
            start.count(),
            start.size as int,
        );
        vstd::arithmetic::div_mod::lemma_mod_twice(start.cons_tail as int, start.size as int);
    }
    match op.step {
        PushStep::Done { head } => Ok(slot_index(head, counters.mask())),
        _ => Err(op.val.unwrap()),
    }
}

/// Takes the oldest element out of the ring of `counters` and `slots`.
pub fn pop<T>(counters: &mut Counters, slots: &mut [Option<T>]) -> (r: Option<T>)
    requires
        old(counters).over(old(slots)@).at_rest(),
    ensures
        old(counters).over(old(slots)@).pop_called(final(counters).over(final(slots)@), r),
{
    let mut op = PopOp::new();
    let ghost start = counters.over(slots@);
    while !op.step.finished()
        invariant
            start.at_rest(),
            pop_progress(start, counters.over(slots@), op),
        decreases op.step.remaining(),
    {
        op.advance(counters, slots);
    }
    proof {
        if start.count() > 0 {
            start.lemma_popped();
        }
        vstd::arithmetic::div_mod::lemma_add_mod_noop(
            start.slot(start.cons_tail as int),
            1,
            start.size as int,
        );
        vstd::arithmetic::div_mod::lemma_add_mod_noop(
            start.cons_tail as int,
            1,
            start.size as int,
        );
        vstd::arithmetic::div_mod::lemma_mod_twice(start.cons_tail as int, start.size as int);
    }
    match op.step {
        PopStep::Done { .. } => op.val,
        _ => None,
    }
}

/// The oldest element of the ring of `counters` and `slots`.
pub fn peek<'a, T>(counters: &Counters, slots: &'a [Option<T>]) -> (r: Option<&'a T>)
    requires
        counters.over(slots@).at_rest(),
    ensures
        r == (if counters.over(slots@).contents().len() == 0 {
            None
        } else {
            Some(&counters.over(slots@).contents()[0])
        }),
{
    if counters.prod_tail == counters.cons_tail {
        return None;
    }
    proof {
        let state = counters.over(slots@);
        assert(state.slot(state.cons_tail + 0) == state.slot(state.cons_tail as int));
    }
    slots[counters.front_slot()].as_ref()
}

impl<const S: usize, T> Ring<S, T> {
    /// The queued elements, oldest first.
    pub open spec fn view(&self) -> Seq<T> {
        self.state().contents()
    }

    /// No operation is under way.
    pub open spec fn wf(&self) -> bool {
        self.state().at_rest()
    }

    /// How many elements are queued.
    pub fn len(&self) -> (r: usize)
        requires
            self.wf(),
        ensures
            r == self@.len(),
    {
        self.counters.len()
    }

    /// The slot of the oldest element, or of the next one to come where there is none.
    pub fn front_slot(&self) -> (slot: usize)
        requires
            self.wf(),
        ensures
            slot == self.state().front(),
            slot < self.state().size,
    {
        self.counters.front_slot()
    }

    /// Queues `val`, and gives back the slot it is kept in until it is popped; or gives `val`
    /// back where the queue is full.
    pub fn push(&mut self, val: T) -> (r: Result<usize, T>)
        requires
            old(self).wf(),
        ensures
            old(self).state().push_called(val, final(self).state(), r),
    {
        push(&mut self.counters, &mut self.slots, val)
    }

    /// Takes the oldest element out.
    pub fn pop(&mut self) -> (r: Option<T>)
        requires
            old(self).wf(),
        ensures
            old(self).state().pop_called(final(self).state(), r),
    {
        pop(&mut self.counters, &mut self.slots)
    }

    /// The oldest element, left in its place.
    pub fn peek(&self) -> (r: Option<&T>)
        requires
            self.wf(),
        ensures
            r == (if self@.len() == 0 {
                None
            } else {
                Some(&self@[0])
            }),
    {
        peek(&self.counters, &self.slots)
    }

    /// The element in `slot`.
    pub fn slot(&self, slot: usize) -> (r: &T)
        requires
            self.wf(),
            self.state().holds(slot as int),
        ensures
            *r == self@[self.state().position(slot as int)],
    {
        proof {
            self.state().lemma_slot(slot as int);
        }
        self.slots[slot].as_ref().unwrap()
    }

    /// The element in `slot`, to be changed in place.
    pub fn slot_mut(&mut self, slot: usize) -> (r: &mut T)
        requires
            old(self).wf(),
            old(self).state().holds(slot as int),
        ensures
            *r == old(self)@[old(self).state().position(slot as int)],
            final(self).wf(),
            final(self).state().size == old(self).state().size,
            final(self).state().capacity == old(self).state().capacity,
            final(self).state().front() == old(self).state().front(),
            final(self)@ == old(self)@.update(
                old(self).state().position(slot as int),
                *final(r),
            ),
    {
        let ghost start = self.state();
        let ghost k = start.position(slot as int);
        proof {
            start.lemma_slot(slot as int);
        }
        let r = self.slots[slot].as_mut().unwrap();
        proof {
            start.lemma_replaced(k, *final(r));
        }
        r
    }
}

/// A push is refused if and only if as many elements are queued as the ring takes, however many
/// that are; then it gives its element back, and nothing changes. Otherwise its element comes
/// behind all others, in the next slot.
pub proof fn law_push<T>(
    ring: RingState<T>,
    val: T,
    after: RingState<T>,
    r: Result<usize, T>,
)
    requires
        ring.push_called(val, after, r),
        ring.contents().len() <= ring.capacity,
    ensures
        r is Err <==> ring.contents().len() == ring.capacity,
        r matches Err(refused) ==> refused == val && after.contents() == ring.contents(),
        r matches Ok(slot) ==> {
            &&& slot == (ring.front() + ring.contents().len()) % (ring.size as int)
            &&& after.contents().len() == ring.contents().len() + 1
            &&& after.contents().last() == val
            &&& forall|k: int|
                0 <= k < ring.contents().len() ==> #[trigger] after.contents()[k]
                    == ring.contents()[k]
        },
        after.front() == ring.front(),
        after.size == ring.size,
        after.capacity == ring.capacity,
{
}

/// A pop gives nothing if and only if nothing is queued. Otherwise it gives the oldest element, and
/// the others stay in their order.
pub proof fn law_pop<T>(ring: RingState<T>, after: RingState<T>, r: Option<T>)
    requires
        ring.pop_called(after, r),
    ensures
        r is None <==> ring.contents().len() == 0,
        r is None ==> after.contents() == ring.contents() && after.front() == ring.front(),
        r matches Some(val) ==> {
            &&& val == ring.contents()[0]
            &&& after.contents().len() == ring.contents().len() - 1
            &&& forall|k: int|
                0 <= k < after.contents().len() ==> #[trigger] after.contents()[k]
                    == ring.contents()[k + 1]
            &&& after.front() == (ring.front() + 1) % (ring.size as int)
        },
        after.size == ring.size,
        after.capacity == ring.capacity,
{
}

/// What is queued behind `k` others is found in the `k`-th slot after that of the oldest element.
pub proof fn law_slots<T>(ring: RingState<T>, k: int)
    requires
        ring.at_rest(),
        0 <= k < ring.size,
    ensures
        ring.contents().len() <= ring.capacity <= ring.size == ring.slots.len(),
        ({
            let slot = (ring.front() + k) % (ring.size as int);
            &&& 0 <= slot < ring.size
            &&& ring.position(slot) == k
            &&& ring.holds(slot) <==> k < ring.contents().len()
            &&& k < ring.contents().len() ==> ring.slots[slot] == Some(ring.contents()[k])
            &&& k >= ring.contents().len() ==> ring.slots[slot] is None
        }),
{
    let size = ring.size as int;
    let slot = (ring.front() + k) % size;
    counter::lemma_position_of_slot(ring.front(), k, size);
    vstd::arithmetic::div_mod::lemma_mod_bound(ring.front() + k, size);
    vstd::arithmetic::div_mod::lemma_add_mod_noop(ring.front(), k, size);
    vstd::arithmetic::div_mod::lemma_add_mod_noop(ring.cons_tail as int, k, size);
    vstd::arithmetic::div_mod::lemma_mod_twice(ring.cons_tail as int, size);
    assert(slot == ring.slot(ring.cons_tail + k));
}

} // verus!
