//! A bounded queue for any number of producers and consumers, kept in a ring.
//!
//! The methods here work on a ring that the caller owns, and say what they do to the sequence
//! of queued elements. They are made of the accesses in [`steps`], which threads that share a
//! ring can make in any order; [`interleaving`] says what holds then.

use crate::counter;
use crate::mpmc::ring::{Counters, Ring, RingState};
use crate::text;
use vstd::prelude::*;
use vstd::string::StringExecFns;

pub mod interleaving;
pub mod queue;
pub mod ring;
pub mod steps;

verus! {

/// A queue with room for `S - 1` elements. They are kept in place, and what is still queued when
/// the queue is dropped is dropped with it.
pub struct MPMC<const S: usize, T> {
    ring: Ring<S, T>,
}

/// A borrowed queue whose size is not part of its type.
pub struct MPMCRef<'a, T> {
    pub counters: &'a mut Counters,
    pub slots: &'a mut [Option<T>],
}

impl<'a, T> MPMCRef<'a, T> {
    /// The queued elements, oldest first.
    pub open spec fn view(&self) -> Seq<T> {
        self.state().contents()
    }

    pub open spec fn state(&self) -> RingState<T> {
        self.counters.over(self.slots@)
    }

    /// The number of slots.
    pub open spec fn size(&self) -> int {
        self.state().size as int
    }

    /// How many elements may be queued at a time.
    pub open spec fn max_len(&self) -> int {
        self.state().capacity as int
    }

    /// The slot of the oldest element, or of the next one to come where there is none.
    pub open spec fn front(&self) -> int {
        self.state().front()
    }

    pub open spec fn wf(&self) -> bool {
        self.state().at_rest()
    }

    /// Borrows `mpmc` without its size.
    pub fn from_ptr<const S: usize>(mpmc: &'a mut MPMC<S, T>) -> (r: MPMCRef<'a, T>)
        requires
            old(mpmc).wf(),
        ensures
            r.wf(),
            r@ == old(mpmc)@,
            r.size() == S,
            r.max_len() == S - 1,
            r.front() == old(mpmc).front(),
            r.state() == old(mpmc).state(),
            final(mpmc).state() == final(r.counters).over(final(r.slots)@),
    {
        MPMCRef { counters: &mut mpmc.ring.counters, slots: &mut mpmc.ring.slots }
    }

    pub fn capacity(&self) -> (r: usize)
        requires
            self.wf(),
        ensures
            r == self.max_len(),
    {
        self.counters.capacity
    }

    pub fn len(&self) -> (r: usize)
        requires
            self.wf(),
        ensures
            r == self@.len(),
    {
        self.counters.len()
    }

    pub fn is_empty(&self) -> (r: bool)
        requires
            self.wf(),
        ensures
            r == (self@.len() == 0),
    {
        self.len() == 0
    }

    pub fn is_full(&self) -> (r: bool)
        requires
            self.wf(),
        ensures
            r == (self@.len() == self.max_len()),
    {
        self.len() == self.capacity()
    }

    /// Queues `val`, and gives back the slot it is kept in until it is popped; or gives `val`
    /// back where the queue is full.
    pub fn push(&mut self, val: T) -> (r: Result<usize, T>)
        requires
            old(self).wf(),
        ensures
            final(self).wf(),
            *final(final(self).counters) == *final(old(self).counters),
            final(final(self).slots)@ == final(old(self).slots)@,
            final(self).size() == old(self).size(),
            final(self).max_len() == old(self).max_len(),
            final(self).front() == old(self).front(),
            old(self)@.len() < old(self).max_len() ==> {
                &&& r matches Ok(slot)
                &&& slot == counter::slot_of(
                    old(self).front() + old(self)@.len(),
                    old(self).size(),
                )
                &&& final(self)@ == old(self)@.push(val)
            },
            old(self)@.len() == old(self).max_len() ==> {
                &&& r == Err::<usize, T>(val)
                &&& final(self)@ == old(self)@
            },
    {
        queue::push(self.counters, self.slots, val)
    }

    /// Takes the oldest element out.
    pub fn pop(&mut self) -> (r: Option<T>)
        requires
            old(self).wf(),
        ensures
            final(self).wf(),
            *final(final(self).counters) == *final(old(self).counters),
            final(final(self).slots)@ == final(old(self).slots)@,
            final(self).size() == old(self).size(),
            final(self).max_len() == old(self).max_len(),
            old(self)@.len() == 0 ==> {
                &&& r is None
                &&& final(self)@ == old(self)@
                &&& final(self).front() == old(self).front()
            },
            old(self)@.len() > 0 ==> {
                &&& r == Some(old(self)@[0])
                &&& final(self)@ == old(self)@.drop_first()
                &&& final(self).front() == counter::slot_of(
                    old(self).front() + 1,
                    old(self).size(),
                )
            },
    {
        queue::pop(self.counters, self.slots)
    }

    /// The oldest element, left in its place.
    pub fn peek(&self) -> (r: Option<&T>)
        requires
            self.wf(),
        ensures
            r == (if self@.len() == 0 {
                None
            } else {
                Some(&self@[0])
            }),
    {
        queue::peek(self.counters, self.slots)
    }
}

impl<const S: usize, T> MPMC<S, T> {
    /// The queued elements, oldest first.
    pub open spec fn view(&self) -> Seq<T> {
        self.state().contents()
    }

    /// The slot of the oldest element, or of the next one to come where there is none.
    pub open spec fn front(&self) -> int {
        self.state().front()
    }

    pub open spec fn wf(&self) -> bool {
        &&& self.state().at_rest()
        &&& self.state().size == S
        &&& self.state().capacity == S - 1
    }

    pub closed spec fn state(&self) -> RingState<T> {
        self.ring.state()
    }

    /// The slot of the `k`-th oldest element.
    pub open spec fn slot_at(&self, k: int) -> int {
        counter::slot_of(self.front() + k, S as int)
    }

    /// How many elements are ahead of the one in `slot`.
    pub open spec fn position(&self, slot: int) -> int {
        counter::slot_of(slot - self.front(), S as int)
    }

    /// `slot` holds an element.
    pub open spec fn holds(&self, slot: int) -> bool {
        0 <= slot < S && self.position(slot) < self@.len()
    }

    /// Where the slots start in a queue that is laid out as four counters and the size,
    /// followed by the slots: the first place past the header that is aligned for a `T`.
    pub fn ring_offset() -> (offset: usize)
        ensures
            offset % core::mem::align_of::<T>() == 0,
            5 * core::mem::size_of::<usize>() <= offset < 5 * core::mem::size_of::<usize>()
                + core::mem::align_of::<T>(),
    {
        vstd::layout::layout_for_type_is_valid::<T>();
        let align: usize = core::mem::align_of::<T>();
        proof {
            broadcast use vstd::layout::layout_of_primitives;
            counter::lemma_pow2_bound(align);
        }
        let header: usize = 5 * core::mem::size_of::<usize>();
        let end: usize = header + (align - 1);
        proof {
            counter::lemma_round_down(end, align);
            let quotient = end as int / align as int;
            vstd::arithmetic::div_mod::lemma_fundamental_div_mod(end as int, align as int);
            vstd::arithmetic::div_mod::lemma_mod_multiples_basic(quotient, align as int);
            assert(end - end % align == quotient * align) by (nonlinear_arith)
                requires
                    end as int == align as int * quotient + end as int % align as int,
            ;
        }
        end & !(align - 1)
    }

    /// An empty queue.
    pub fn new() -> (r: Self)
        requires
            counter::valid_size(S as int),
        ensures
            r.wf(),
            r@ == Seq::<T>::empty(),
            r.front() == 0,
    {
        proof {
            vstd::arithmetic::div_mod::lemma_small_mod(0, S as nat);
        }
        MPMC { ring: Ring::new(S - 1) }
    }

    /// Borrows the queue without its size.
    pub fn as_ptr(&mut self) -> (r: MPMCRef<'_, T>)
        requires
            old(self).wf(),
        ensures
            r.wf(),
            r@ == old(self)@,
            r.size() == S,
            r.max_len() == S - 1,
            r.front() == old(self).front(),
            r.state() == old(self).state(),
            final(self).state() == final(r.counters).over(final(r.slots)@),
    {
        MPMCRef::from_ptr(self)
    }

    pub fn capacity(&self) -> (r: usize)
        requires
            S > 0,
        ensures
            r == S - 1,
    {
        S - 1
    }

    pub fn len(&self) -> (r: usize)
        requires
            self.wf(),
        ensures
            r == self@.len(),
    {
        self.ring.len()
    }

    pub fn is_empty(&self) -> (r: bool)
        requires
            self.wf(),
        ensures
            r == (self@.len() == 0),
    {
        self.len() == 0
    }

    pub fn is_full(&self) -> (r: bool)
        requires
            self.wf(),
        ensures
            r == (self@.len() == S - 1),
    {
        self.len() == self.capacity()
    }

    /// Queues `val`, and gives back the slot it is kept in until it is popped; or gives `val`
    /// back where the queue is full.
    pub fn push(&mut self, val: T) -> (r: Result<usize, T>)
        requires
            old(self).wf(),
        ensures
            final(self).wf(),
            final(self).front() == old(self).front(),
            old(self)@.len() < S - 1 ==> {
                &&& r matches Ok(slot)
                &&& slot == old(self).slot_at(old(self)@.len() as int)
                &&& final(self)@ == old(self)@.push(val)
            },
            old(self)@.len() == S - 1 ==> {
                &&& r == Err::<usize, T>(val)
                &&& final(self)@ == old(self)@
            },
    {
        self.as_ptr().push(val)
    }

    /// Takes the oldest element out.
    pub fn pop(&mut self) -> (r: Option<T>)
        requires
            old(self).wf(),
        ensures
            final(self).wf(),
            old(self)@.len() == 0 ==> {
                &&& r is None
                &&& final(self)@ == old(self)@
                &&& final(self).front() == old(self).front()
            },
            old(self)@.len() > 0 ==> {
                &&& r == Some(old(self)@[0])
                &&& final(self)@ == old(self)@.drop_first()
                &&& final(self).front() == old(self).slot_at(1)
            },
    {
        self.as_ptr().pop()
    }

    /// The oldest element, left in its place.
    pub fn peek(&self) -> (r: Option<&T>)
        requires
            self.wf(),
        ensures
            r == (if self@.len() == 0 {
                None
            } else {
                Some(&self@[0])
            }),
    {
        self.ring.peek()
    }

    /// What is queued behind `k` others is found in the `k`-th slot after that of the oldest
    /// element, and every slot can be found so.
    pub proof fn law_slots(self, k: int)
        requires
            self.wf(),
            0 <= k < S,
        ensures
            self@.len() < S,
            0 <= self.front() < S,
            self.slot_at(k) == (self.front() + k) % (S as int),
            0 <= self.slot_at(k) < S,
            self.position(self.slot_at(k)) == k,
            self.slot_at(self.position(k)) == k,
            self.holds(self.slot_at(k)) <==> k < self@.len(),
    {
        let size = S as int;
        queue::law_slots(self.state(), k);
        vstd::arithmetic::div_mod::lemma_mod_bound(self.state().cons_tail as int, size);
        vstd::arithmetic::div_mod::lemma_mod_bound(self.front() + k, size);
        counter::lemma_position_of_slot(self.front(), k, size);
        counter::lemma_slot_position(self.front(), k, size);
    }

    /// The queue in words.
    pub fn debug_text(&self) -> (r: String)
        requires
            self.wf(),
        ensures
            r@ == "MPMC { capacity: "@ + text::decimal((S - 1) as nat) + ", len: "@ + text::decimal(
                self@.len(),
            ) + " }"@,
    {
        let mut r = "MPMC { capacity: ".to_owned();
        text::append_decimal(&mut r, self.capacity());
        r.append(", len: ");
        text::append_decimal(&mut r, self.len());
        r.append(" }");
        r
    }

    /// The slot of the oldest element, or of the next one to come where there is none.
    pub fn front_slot(&self) -> (slot: usize)
        requires
            self.wf(),
        ensures
            slot == self.front(),
            slot < S,
    {
        self.ring.front_slot()
    }

    /// The element in `slot`.
    pub fn slot(&self, slot: usize) -> (r: &T)
        requires
            self.wf(),
            self.holds(slot as int),
        ensures
            *r == self@[self.position(slot as int)],
    {
        self.ring.slot(slot)
    }

    /// The element in `slot`, to be changed in place.
    pub fn slot_mut(&mut self, slot: usize) -> (r: &mut T)
        requires
            old(self).wf(),
            old(self).holds(slot as int),
        ensures
            *r == old(self)@[old(self).position(slot as int)],
            final(self).wf(),
            final(self).front() == old(self).front(),
            final(self)@ == old(self)@.update(old(self).position(slot as int), *final(r)),
    {
        self.ring.slot_mut(slot)
    }
}

} // verus!
