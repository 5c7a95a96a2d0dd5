//! What a push and a pop do to the shared counters, one access at a time.
//!
//! A push reserves an index by moving `prod_head`, writes its element, and then moves
//! `prod_tail` past it; a pop does the same with `cons_head` and `cons_tail`. Each step says
//! which access comes next, and takes what that access gave back to the step after it. The
//! functions here hold for every value that an access may give back, so they serve a ring that
//! other threads are working on as well as one that is owned exclusively.

use crate::counter;
use vstd::prelude::*;
use vstd::wrapping::usize_specs;

verus! {

/// The slot of the element with the given counter; `mask` is the ring size less one.
pub fn slot_index(counter: usize, mask: usize) -> (slot: usize)
    requires
        counter::valid_size(mask + 1),
        mask < usize::MAX,
    ensures
        slot == counter::slot_of(counter as int, mask + 1),
        slot <= mask,
{
    proof {
        counter::lemma_mask_is_mod(counter, (mask + 1) as usize);
    }
    counter & mask
}

/// How many elements are queued in a ring where `prod_tail` and `cons_tail` are as given; `mask`
/// is the ring size less one, and the ring takes `capacity` elements. Where that is as many as it
/// has slots, a full ring and an empty one differ only above the mask.
pub fn queued(prod_tail: usize, cons_tail: usize, mask: usize, capacity: usize) -> (count: usize)
    requires
        counter::valid_size(mask + 1),
        mask < usize::MAX,
    ensures
        capacity <= mask ==> count == counter::slot_of(
            usize_specs::wrapping_sub(prod_tail, cons_tail) as int,
            mask + 1,
        ),
        capacity > mask ==> count == usize_specs::wrapping_sub(prod_tail, cons_tail),
{
    let count = prod_tail.wrapping_sub(cons_tail);
    if capacity <= mask {
        slot_index(count, mask)
    } else {
        count
    }
}

/// The next access of a push.
#[derive(Clone, Copy, Debug, PartialEq, Eq, Structural)]
pub enum PushStep {
    /// Load `prod_head`.
    LoadHead,
    /// Load `cons_tail`, to see if the ring is full at `head`.
    LoadTail { head: usize },
    /// Move `prod_head` from `head` to the counter after it.
    Reserve { head: usize },
    /// Write the element into the slot of `head`.
    Write { head: usize },
    /// Move `prod_tail` from `head` to the counter after it.
    Publish { head: usize },
    /// The element with the counter `head` is in the ring.
    Done { head: usize },
    /// The ring was full.
    Full,
}

impl PushStep {
    pub open spec fn is_load(self) -> bool {
        self is LoadHead || self is LoadTail
    }

    pub open spec fn is_exchange(self) -> bool {
        self is Reserve || self is Publish
    }

    pub open spec fn is_finished(self) -> bool {
        self is Done || self is Full
    }

    /// How many accesses are left if no exchange fails.
    pub open spec fn remaining(self) -> nat {
        match self {
            PushStep::LoadHead => 5,
            PushStep::LoadTail { .. } => 4,
            PushStep::Reserve { .. } => 3,
            PushStep::Write { .. } => 2,
            PushStep::Publish { .. } => 1,
            PushStep::Done { .. } | PushStep::Full => 0,
        }
    }

    pub open spec fn after_load(self, value: usize, capacity: usize) -> PushStep {
        match self {
            PushStep::LoadHead => PushStep::LoadTail { head: value },
            PushStep::LoadTail { head } => if usize_specs::wrapping_add(
                capacity,
                usize_specs::wrapping_sub(value, head),
            ) == 0 {
                PushStep::Full
            } else {
                PushStep::Reserve { head }
            },
            _ => self,
        }
    }

    pub open spec fn after_exchange(self, result: Result<usize, usize>) -> PushStep {
        match (self, result) {
            (PushStep::Reserve { head }, Ok(_)) => PushStep::Write { head },
            (PushStep::Reserve { .. }, Err(seen)) => PushStep::LoadTail { head: seen },
            (PushStep::Publish { head }, Ok(_)) => PushStep::Done { head },
            _ => self,
        }
    }

    /// The step after a load that gave `value`, in a ring that takes `capacity` elements.
    pub fn on_load(self, value: usize, capacity: usize) -> (next: PushStep)
        requires
            self.is_load(),
        ensures
            next == self.after_load(value, capacity),
    {
        match self {
            PushStep::LoadTail { head } => {
                if capacity.wrapping_add(value.wrapping_sub(head)) == 0 {
                    PushStep::Full
                } else {
                    PushStep::Reserve { head }
                }
            },
            _ => PushStep::LoadTail { head: value },
        }
    }

    /// The step after an exchange that succeeded, or that failed and saw another counter (or,
    /// spuriously, the expected one). A failed reservation starts over from what it saw; a
    /// failed publication waits for the pushes before it and tries the same exchange again.
    pub fn on_exchange(self, result: Result<usize, usize>) -> (next: PushStep)
        requires
            self.is_exchange(),
        ensures
            next == self.after_exchange(result),
    {
        match (self, result) {
            (PushStep::Reserve { head }, Ok(_)) => PushStep::Write { head },
            (PushStep::Reserve { .. }, Err(seen)) => PushStep::LoadTail { head: seen },
            (PushStep::Publish { head }, Ok(_)) => PushStep::Done { head },
            _ => self,
        }
    }

    /// The step after the element was written.
    pub fn on_write(self) -> (next: PushStep)
        requires
            self is Write,
        ensures
            next == (PushStep::Publish { head: self->Write_head }),
    {
        match self {
            PushStep::Write { head } => PushStep::Publish { head },
            _ => self,
        }
    }

    /// Whether the push is over.
    pub fn finished(&self) -> (r: bool)
        ensures
            r == self.is_finished(),
    {
        matches!(self, PushStep::Done { .. } | PushStep::Full)
    }
}

/// The next access of a pop.
#[derive(Clone, Copy, Debug, PartialEq, Eq, Structural)]
pub enum PopStep {
    /// Load `cons_head`.
    LoadHead,
    /// Load `prod_tail`, to see if the ring is empty at `head`.
    LoadTail { head: usize },
    /// Move `cons_head` from `head` to the counter after it.
    Reserve { head: usize },
    /// Move the element out of the slot of `head`.
    Read { head: usize },
    /// Move `cons_tail` from `head` to the counter after it.
    Publish { head: usize },
    /// The element with the counter `head` has left the ring.
    Done { head: usize },
    /// The ring was empty.
    Empty,
}

impl PopStep {
    pub open spec fn is_load(self) -> bool {
        self is LoadHead || self is LoadTail
    }

    pub open spec fn is_exchange(self) -> bool {
        self is Reserve || self is Publish
    }

    pub open spec fn is_finished(self) -> bool {
        self is Done || self is Empty
    }

    /// How many accesses are left if no exchange fails.
    pub open spec fn remaining(self) -> nat {
        match self {
            PopStep::LoadHead => 5,
            PopStep::LoadTail { .. } => 4,
            PopStep::Reserve { .. } => 3,
            PopStep::Read { .. } => 2,
            PopStep::Publish { .. } => 1,
            PopStep::Done { .. } | PopStep::Empty => 0,
        }
    }

    pub open spec fn after_load(self, value: usize) -> PopStep {
        match self {
            PopStep::LoadHead => PopStep::LoadTail { head: value },
            PopStep::LoadTail { head } => if head == value {
                PopStep::Empty
            } else {
                PopStep::Reserve { head }
            },
            _ => self,
        }
    }

    pub open spec fn after_exchange(self, result: Result<usize, usize>) -> PopStep {
        match (self, result) {
            (PopStep::Reserve { head }, Ok(_)) => PopStep::Read { head },
            (PopStep::Reserve { .. }, Err(seen)) => PopStep::LoadTail { head: seen },
            (PopStep::Publish { head }, Ok(_)) => PopStep::Done { head },
            _ => self,
        }
    }

    /// The step after a load that gave `value`.
    pub fn on_load(self, value: usize) -> (next: PopStep)
        requires
            self.is_load(),
        ensures
            next == self.after_load(value),
    {
        match self {
            PopStep::LoadTail { head } => {
                if head == value {
                    PopStep::Empty
                } else {
                    PopStep::Reserve { head }
                }
            },
            _ => PopStep::LoadTail { head: value },
        }
    }

    /// The step after an exchange that succeeded, or that failed and saw another counter (or,
    /// spuriously, the expected one). A failed reservation starts over from what it saw; a
    /// failed publication waits for the pops before it and tries the same exchange again.
    pub fn on_exchange(self, result: Result<usize, usize>) -> (next: PopStep)
        requires
            self.is_exchange(),
        ensures
            next == self.after_exchange(result),
    {
        match (self, result) {
            (PopStep::Reserve { head }, Ok(_)) => PopStep::Read { head },
            (PopStep::Reserve { .. }, Err(seen)) => PopStep::LoadTail { head: seen },
            (PopStep::Publish { head }, Ok(_)) => PopStep::Done { head },
            _ => self,
        }
    }

    /// The step after the element was moved out.
    pub fn on_read(self) -> (next: PopStep)
        requires
            self is Read,
        ensures
            next == (PopStep::Publish { head: self->Read_head }),
    {
        match self {
            PopStep::Read { head } => PopStep::Publish { head },
            _ => self,
        }
    }

    /// Whether the pop is over.
    pub fn finished(&self) -> (r: bool)
        ensures
            r == self.is_finished(),
    {
        matches!(self, PopStep::Done { .. } | PopStep::Empty)
    }
}

} // verus!
