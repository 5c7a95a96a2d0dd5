//! The storage of the queue, and its operations taken one access at a time.

use crate::counter;
use crate::mpmc::steps::{queued, slot_index, PopStep, PushStep};
use vstd::prelude::*;
use vstd::wrapping::usize_specs;

verus! {

/// What is stored in a ring: four counters and the slots they point into.
pub struct RingState<T> {
    pub prod_head: usize,
    pub prod_tail: usize,
    pub cons_head: usize,
    pub cons_tail: usize,
    pub size: usize,
    /// How many elements may be queued at a time.
    pub capacity: usize,
    pub slots: Seq<Option<T>>,
}

impl<T> RingState<T> {
    pub open spec fn sized(self) -> bool {
        &&& counter::valid_size(self.size as int)
        &&& self.slots.len() == self.size
        &&& self.capacity <= self.size
    }

    /// The slot of the element with the given counter.
    pub open spec fn slot(self, counter: int) -> int {
        counter::slot_of(counter, self.size as int)
    }

    /// How many elements have been published and not released yet.
    pub open spec fn count(self) -> int {
        usize_specs::wrapping_sub(self.prod_tail, self.cons_tail) as int
    }

    /// No operation is under way: what has been reserved has been published, and exactly the
    /// `count` slots from `cons_tail` on are filled.
    pub open spec fn at_rest(self) -> bool {
        &&& self.sized()
        &&& self.prod_head == self.prod_tail
        &&& self.cons_head == self.cons_tail
        &&& self.count() <= self.capacity
        &&& forall|k: int|
            #![trigger self.slot(self.cons_tail + k)]
            0 <= k < self.size ==> (self.slots[self.slot(self.cons_tail + k)] is Some <==> k
                < self.count())
    }

    /// The queued elements, oldest first.
    pub open spec fn contents(self) -> Seq<T> {
        Seq::new(
            self.count() as nat,
            |k: int| self.slots[self.slot(self.cons_tail + k)]->0,
        )
    }
}

impl<T> RingState<T> {
    /// The ring after a push of `val` from rest.
    pub open spec fn pushed(self, val: T) -> RingState<T> {
        let next = usize_specs::wrapping_add(self.prod_head, 1);
        RingState {
            prod_head: next,
            prod_tail: next,
            slots: self.slots.update(self.slot(self.prod_head as int), Some(val)),
            ..self
        }
    }

    /// The ring after a pop from rest.
    pub open spec fn popped(self) -> RingState<T> {
        let next = usize_specs::wrapping_add(self.cons_head, 1);
        RingState {
            cons_head: next,
            cons_tail: next,
            slots: self.slots.update(self.slot(self.cons_head as int), None),
            ..self
        }
    }

    /// At rest, the slot of `prod_head` is the one after the queued elements, and the test for
    /// a full ring is exact.
    pub proof fn lemma_at_rest(self)
        requires
            self.at_rest(),
        ensures
            self.prod_head == counter::wrap(self.cons_tail + self.count()),
            self.slot(self.prod_head as int) == self.slot(self.cons_tail + self.count()),
            (usize_specs::wrapping_add(
                self.capacity,
                usize_specs::wrapping_sub(self.cons_tail, self.prod_head),
            ) == 0) <==> self.count() == self.capacity,
    {
        counter::lemma_wrap_reaches(self.prod_tail, self.cons_tail);
        let end = self.cons_tail + self.count();
        counter::lemma_wrapped_slot(end, self.size);
        counter::lemma_full_test(end, self.cons_tail as int, self.capacity);
    }

    pub proof fn lemma_pushed(self, val: T)
        requires
            self.at_rest(),
            self.count() < self.capacity,
        ensures
            self.pushed(val).at_rest(),
            self.pushed(val).contents() == self.contents().push(val),
    {
        let next = self.pushed(val);
        let end = self.cons_tail + self.count();
        self.lemma_at_rest();
        counter::lemma_wrap_increment(end);
        counter::lemma_wrap_reaches(self.prod_tail, self.cons_tail);
        counter::lemma_wrap_difference(end + 1, self.cons_tail as int);
        assert(next.count() == self.count() + 1);
        assert forall|k: int|
            #![trigger next.slot(next.cons_tail + k)]
            0 <= k < next.size && k != self.count()
            implies next.slots[next.slot(next.cons_tail + k)] == self.slots[self.slot(
            self.cons_tail + k,
        )] by {
            if k < self.count() {
                counter::lemma_slots_distinct(self.cons_tail + k, end, self.size as int);
            } else {
                counter::lemma_slots_distinct(end, self.cons_tail + k, self.size as int);
            }
        }
        assert(next.slots[next.slot(next.cons_tail + self.count())] == Some(val));
        assert(next.contents() =~= self.contents().push(val)) by {
            assert forall|k: int| 0 <= k < self.count()
                implies next.contents()[k] == self.contents()[k] by {
                assert(next.slot(next.cons_tail + k) == self.slot(self.cons_tail + k));
            }
        }
    }

    /// Changing an element in place changes that element and nothing else.
    pub proof fn lemma_replaced(self, k: int, val: T)
        requires
            self.at_rest(),
            0 <= k < self.count(),
        ensures
            ({
                let next = RingState {
                    slots: self.slots.update(self.slot(self.cons_tail + k), Some(val)),
                    ..self
                };
                &&& next.at_rest()
                &&& next.contents() == self.contents().update(k, val)
            }),
    {
        let at = self.slot(self.cons_tail + k);
        let next = RingState { slots: self.slots.update(at, Some(val)), ..self };
        assert forall|j: int|
            #![trigger next.slot(next.cons_tail + j)]
            0 <= j < self.size && j != k implies next.slots[next.slot(next.cons_tail + j)]
            == self.slots[self.slot(self.cons_tail + j)] by {
            if j < k {
                counter::lemma_slots_distinct(
                    self.cons_tail + j,
                    self.cons_tail + k,
                    self.size as int,
                );
            } else {
                counter::lemma_slots_distinct(
                    self.cons_tail + k,
                    self.cons_tail + j,
                    self.size as int,
                );
            }
        }
        assert(next.slots[next.slot(next.cons_tail + k)] == Some(val));
        assert(next.contents() =~= self.contents().update(k, val)) by {
            assert forall|j: int| 0 <= j < self.count() && j != k implies next.contents()[j]
                == self.contents()[j] by {
                assert(next.slot(next.cons_tail + j) == self.slot(self.cons_tail + j));
            }
        }
    }

    pub proof fn lemma_popped(self)
        requires
            self.at_rest(),
            self.count() > 0,
        ensures
            self.slots[self.slot(self.cons_head as int)] == Some(self.contents()[0]),
            self.popped().at_rest(),
            self.popped().contents() == self.contents().drop_first(),
            self.popped().slot(self.popped().cons_tail as int) == self.slot(self.cons_tail + 1),
    {
        let next = self.popped();
        assert(self.slot(self.cons_tail + 0) == self.slot(self.cons_tail as int));
        counter::lemma_wrap_increment(self.cons_tail as int);
        counter::lemma_wrap_reaches(self.prod_tail, self.cons_tail);
        let end = self.cons_tail + self.count();
        counter::lemma_wrap_difference(end, self.cons_tail + 1);
        assert(next.count() == self.count() - 1);
        assert forall|k: int| #![trigger next.slot(next.cons_tail + k)] 0 <= k < next.size
            implies next.slot(next.cons_tail + k) == self.slot(self.cons_tail + 1 + k) by {
            counter::lemma_wrapped_slot(self.cons_tail + 1, self.size);
            vstd::arithmetic::div_mod::lemma_add_mod_noop(
                next.cons_tail as int,
                k,
                self.size as int,
            );
            vstd::arithmetic::div_mod::lemma_add_mod_noop(self.cons_tail + 1, k, self.size as int);
        }
        assert(next.slot(next.cons_tail + 0) == self.slot(self.cons_tail + 1));
        assert forall|k: int| #![trigger next.slot(next.cons_tail + k)] 0 <= k < next.size - 1
            implies next.slots[next.slot(next.cons_tail + k)] == self.slots[self.slot(
            self.cons_tail + (1 + k),
        )] by {
            counter::lemma_slots_distinct(
                self.cons_tail as int,
                self.cons_tail + 1 + k,
                self.size as int,
            );
        }
        let last = next.size - 1;
        assert(next.slot(next.cons_tail + last) == self.slot(self.cons_tail as int)) by {
            vstd::arithmetic::div_mod::lemma_mod_add_multiples_vanish(
                self.cons_tail as int,
                self.size as int,
            );
        }
        assert forall|k: int| #![trigger next.slot(next.cons_tail + k)] 0 <= k < next.size
            implies (next.slots[next.slot(next.cons_tail + k)] is Some <==> k < next.count()) by {
            if k < last {
                assert(self.slots[self.slot(self.cons_tail + (1 + k))] is Some <==> 1 + k
                    < self.count());
            }
        }
        assert(next.contents() =~= self.contents().drop_first()) by {
            assert forall|k: int| 0 <= k < next.count()
                implies next.contents()[k] == self.contents()[k + 1] by {
                assert(next.slots[next.slot(next.cons_tail + k)] == self.slots[self.slot(
                    self.cons_tail + (1 + k),
                )]);
            }
        }
    }
}

/// A push under way: its next access, and the element until it is written.
pub struct PushOp<T> {
    pub step: PushStep,
    pub val: Option<T>,
}

/// A pop under way: its next access, and the element once it is read.
pub struct PopOp<T> {
    pub step: PopStep,
    pub val: Option<T>,
}

/// One access of a push. An exchange finds the counter it expects and moves it on, or fails;
/// `spurious` is a failure for no reason, which a weak exchange is allowed.
pub open spec fn push_next<T>(ring: RingState<T>, op: PushOp<T>, spurious: bool) -> (
    RingState<T>,
    PushOp<T>,
) {
    match op.step {
        PushStep::LoadHead => (
            ring,
            PushOp { step: op.step.after_load(ring.prod_head, ring.capacity), ..op },
        ),
        PushStep::LoadTail { .. } => (
            ring,
            PushOp { step: op.step.after_load(ring.cons_tail, ring.capacity), ..op },
        ),
        PushStep::Reserve { head } => if ring.prod_head == head && !spurious {
            (
                RingState { prod_head: usize_specs::wrapping_add(head, 1), ..ring },
                PushOp { step: op.step.after_exchange(Ok(head)), ..op },
            )
        } else {
            (ring, PushOp { step: op.step.after_exchange(Err(ring.prod_head)), ..op })
        },
        PushStep::Write { head } => (
            RingState { slots: ring.slots.update(ring.slot(head as int), op.val), ..ring },
            PushOp { step: PushStep::Publish { head }, val: None },
        ),
        PushStep::Publish { head } => if ring.prod_tail == head && !spurious {
            (
                RingState { prod_tail: usize_specs::wrapping_add(head, 1), ..ring },
                PushOp { step: op.step.after_exchange(Ok(head)), ..op },
            )
        } else {
            (ring, PushOp { step: op.step.after_exchange(Err(ring.prod_tail)), ..op })
        },
        PushStep::Done { .. } | PushStep::Full => (ring, op),
    }
}

/// One access of a pop, with exchanges as in [`push_next`].
pub open spec fn pop_next<T>(ring: RingState<T>, op: PopOp<T>, spurious: bool) -> (
    RingState<T>,
    PopOp<T>,
) {
    match op.step {
        PopStep::LoadHead => (
            ring,
            PopOp { step: op.step.after_load(ring.cons_head), ..op },
        ),
        PopStep::LoadTail { .. } => (
            ring,
            PopOp { step: op.step.after_load(ring.prod_tail), ..op },
        ),
        PopStep::Reserve { head } => if ring.cons_head == head && !spurious {
            (
                RingState { cons_head: usize_specs::wrapping_add(head, 1), ..ring },
                PopOp { step: op.step.after_exchange(Ok(head)), ..op },
            )
        } else {
            (ring, PopOp { step: op.step.after_exchange(Err(ring.cons_head)), ..op })
        },
        PopStep::Read { head } => (
            RingState { slots: ring.slots.update(ring.slot(head as int), None), ..ring },
            PopOp { step: PopStep::Publish { head }, val: ring.slots[ring.slot(head as int)] },
        ),
        PopStep::Publish { head } => if ring.cons_tail == head && !spurious {
            (
                RingState { cons_tail: usize_specs::wrapping_add(head, 1), ..ring },
                PopOp { step: op.step.after_exchange(Ok(head)), ..op },
            )
        } else {
            (ring, PopOp { step: op.step.after_exchange(Err(ring.cons_tail)), ..op })
        },
        PopStep::Done { .. } | PopStep::Empty => (ring, op),
    }
}

/// The counters of a ring, with its size and how many elements it takes. The slots are kept apart
/// from them.
pub struct Counters {
    pub prod_head: usize,
    pub prod_tail: usize,
    pub cons_head: usize,
    pub cons_tail: usize,
    pub size: usize,
    pub capacity: usize,
}

/// A ring with its slots in place. It takes up to `S` elements.
pub struct Ring<const S: usize, T> {
    pub counters: Counters,
    pub slots: [Option<T>; S],
}

/// Moves `cell` on if it holds `current`; gives back what it held, as an error where it was
/// something else.
fn compare_exchange(cell: &mut usize, current: usize, new: usize) -> (r: Result<usize, usize>)
    ensures
        *old(cell) == current ==> r == Ok::<usize, usize>(current) && *final(cell) == new,
        *old(cell) != current ==> r == Err::<usize, usize>(*old(cell)) && *final(cell) == *old(
            cell,
        ),
{
    if *cell == current {
        *cell = new;
        Ok(current)
    } else {
        Err(*cell)
    }
}

/// What a slot holds before anything is queued.
fn vacant<T>(_slot: usize) -> (r: Option<T>)
    ensures
        r is None,
{
    None
}

/// An array of vacant slots, by [`core::array::from_fn`]: that calls the function that it is given
/// once for each index, and keeps each result at its index. So where every result is `None`, every
/// element is.
#[verifier::external_body]
fn vacant_slots<const S: usize, T>() -> (slots: [Option<T>; S])
    ensures
        forall|k: int| 0 <= k < S ==> #[trigger] slots@[k] is None,
{
    core::array::from_fn(vacant)
}

impl Counters {
    /// What is stored in the ring of these counters and of `slots`.
    pub open spec fn over<T>(&self, slots: Seq<Option<T>>) -> RingState<T> {
        RingState {
            prod_head: self.prod_head,
            prod_tail: self.prod_tail,
            cons_head: self.cons_head,
            cons_tail: self.cons_tail,
            size: self.size,
            capacity: self.capacity,
            slots,
        }
    }

    /// The mask that takes a counter to its slot.
    pub fn mask(&self) -> (r: usize)
        requires
            counter::valid_size(self.size as int),
        ensures
            r == self.size - 1,
    {
        self.size - 1
    }

    /// How many elements are queued.
    pub fn len(&self) -> (r: usize)
        requires
            counter::valid_size(self.size as int),
            self.capacity <= self.size,
            usize_specs::wrapping_sub(self.prod_tail, self.cons_tail) <= self.capacity,
        ensures
            r == usize_specs::wrapping_sub(self.prod_tail, self.cons_tail),
    {
        proof {
            if self.capacity < self.size {
                vstd::arithmetic::div_mod::lemma_small_mod(
                    usize_specs::wrapping_sub(self.prod_tail, self.cons_tail) as nat,
                    self.size as nat,
                );
            }
        }
        queued(self.prod_tail, self.cons_tail, self.mask(), self.capacity)
    }

    /// The slot of the oldest element, or of the next one to come where there is none.
    pub fn front_slot(&self) -> (slot: usize)
        requires
            counter::valid_size(self.size as int),
        ensures
            slot == counter::slot_of(self.cons_tail as int, self.size as int),
            slot < self.size,
    {
        slot_index(self.cons_tail, self.mask())
    }
}

impl<const S: usize, T> Ring<S, T> {
    pub open spec fn state(&self) -> RingState<T> {
        self.counters.over(self.slots@)
    }

    /// An empty ring that takes `capacity` elements.
    pub fn new(capacity: usize) -> (ring: Ring<S, T>)
        requires
            counter::valid_size(S as int),
            capacity <= S,
        ensures
            ring.state().at_rest(),
            ring.state().size == S,
            ring.state().capacity == capacity,
            ring.state().cons_tail == 0,
            ring.state().contents() == Seq::<T>::empty(),
    {
        let counters = Counters {
            prod_head: 0,
            prod_tail: 0,
            cons_head: 0,
            cons_tail: 0,
            size: S,
            capacity,
        };
        Ring { counters, slots: vacant_slots() }
    }
}

impl<T> PushOp<T> {
    /// A push of `val` that has not started.
    pub fn new(val: T) -> (op: PushOp<T>)
        ensures
            op == (PushOp { step: PushStep::LoadHead, val: Some(val) }),
    {
        PushOp { step: PushStep::LoadHead, val: Some(val) }
    }

    /// Makes the next access to the ring of `counters` and `slots`.
    pub fn advance(&mut self, counters: &mut Counters, slots: &mut [Option<T>])
        requires
            old(counters).over(old(slots)@).sized(),
        ensures
            (final(counters).over(final(slots)@), *final(self)) == push_next(
                old(counters).over(old(slots)@),
                *old(self),
                false,
            ),
    {
        match self.step {
            PushStep::LoadHead => {
                self.step = self.step.on_load(counters.prod_head, counters.capacity);
            },
            PushStep::LoadTail { .. } => {
                self.step = self.step.on_load(counters.cons_tail, counters.capacity);
            },
            PushStep::Reserve { head } => {
                let result = compare_exchange(&mut counters.prod_head, head, head.wrapping_add(1));
                self.step = self.step.on_exchange(result);
            },
            PushStep::Write { head } => {
                let slot = slot_index(head, counters.mask());
                slots[slot] = self.val.take();
                self.step = self.step.on_write();
            },
            PushStep::Publish { head } => {
                let result = compare_exchange(&mut counters.prod_tail, head, head.wrapping_add(1));
                self.step = self.step.on_exchange(result);
            },
            PushStep::Done { .. } | PushStep::Full => {},
        }
    }
}

impl<T> PopOp<T> {
    /// A pop that has not started.
    pub fn new() -> (op: PopOp<T>)
        ensures
            op == (PopOp::<T> { step: PopStep::LoadHead, val: None }),
    {
        PopOp { step: PopStep::LoadHead, val: None }
    }

    /// Makes the next access to the ring of `counters` and `slots`.
    pub fn advance(&mut self, counters: &mut Counters, slots: &mut [Option<T>])
        requires
            old(counters).over(old(slots)@).sized(),
        ensures
            (final(counters).over(final(slots)@), *final(self)) == pop_next(
                old(counters).over(old(slots)@),
                *old(self),
                false,
            ),
    {
        match self.step {
            PopStep::LoadHead => {
                self.step = self.step.on_load(counters.cons_head);
            },
            PopStep::LoadTail { .. } => {
                self.step = self.step.on_load(counters.prod_tail);
            },
            PopStep::Reserve { head } => {
                let result = compare_exchange(&mut counters.cons_head, head, head.wrapping_add(1));
                self.step = self.step.on_exchange(result);
            },
            PopStep::Read { head } => {
                let slot = slot_index(head, counters.mask());
                self.val = slots[slot].take();
                self.step = self.step.on_read();
            },
            PopStep::Publish { head } => {
                let result = compare_exchange(&mut counters.cons_tail, head, head.wrapping_add(1));
                self.step = self.step.on_exchange(result);
            },
            PopStep::Done { .. } | PopStep::Empty => {},
        }
    }
}

} // verus!
