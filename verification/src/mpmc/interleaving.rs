//! What holds of a ring that any number of pushes and pops work on at once, whatever the order
//! of their accesses.
//!
//! A [`World`] is a ring with the operations under way on it. An event is one access of one of
//! them, so a sequence of events is one interleaving. The world also keeps a record that no
//! operation reads: the elements in the order in which their places were reserved, and how many
//! of them have been published, taken and released.

use crate::counter;
use crate::mpmc::ring::{pop_next, push_next, PopOp, PushOp, RingState};
use crate::mpmc::steps::{PopStep, PushStep};
use vstd::prelude::*;

verus! {

pub struct World<T> {
    pub ring: RingState<T>,
    /// Every push begun so far, by a number of its own.
    pub pushes: Map<int, PushOp<T>>,
    /// Every pop begun so far, by a number of its own.
    pub pops: Map<int, PopOp<T>>,
    /// Every element that a place was reserved for, in the order of the places.
    pub log: Seq<T>,
    /// How many elements have been published: `prod_tail`, were it unbounded.
    pub published: int,
    /// How many elements have been claimed by a pop: `cons_head`, were it unbounded.
    pub taken: int,
    /// How many places have been released: `cons_tail`, were it unbounded.
    pub released: int,
    /// For each push, the count that its `head` stands for.
    pub push_at: Map<int, int>,
    /// For each pop, the count that its `head` stands for.
    pub pop_at: Map<int, int>,
    /// For each push, the element that it was begun with.
    pub given: Map<int, T>,
    /// For each reserved place, the push that reserved it.
    pub push_owner: Map<int, int>,
    /// For each claimed place, the pop that claimed it.
    pub pop_owner: Map<int, int>,
}

pub enum Event<T> {
    /// A push of `val` begins.
    BeginPush { id: int, val: T },
    /// A push makes its next access; `spurious` fails an exchange for no reason.
    Push { id: int, spurious: bool },
    /// A pop begins.
    BeginPop { id: int },
    /// A pop makes its next access; `spurious` fails an exchange for no reason.
    Pop { id: int, spurious: bool },
}

impl<T> World<T> {
    /// The world before any event, with an empty ring of `size` slots that takes `capacity`
    /// elements.
    pub open spec fn init(size: usize, capacity: usize) -> World<T> {
        World {
            ring: RingState {
                prod_head: 0,
                prod_tail: 0,
                cons_head: 0,
                cons_tail: 0,
                size,
                capacity,
                slots: Seq::new(size as nat, |i: int| None),
            },
            pushes: Map::empty(),
            pops: Map::empty(),
            log: Seq::empty(),
            published: 0,
            taken: 0,
            released: 0,
            push_at: Map::empty(),
            pop_at: Map::empty(),
            given: Map::empty(),
            push_owner: Map::empty(),
            pop_owner: Map::empty(),
        }
    }

    /// How many places have been reserved: `prod_head`, were it unbounded.
    pub open spec fn reserved(self) -> int {
        self.log.len() as int
    }

    /// The elements that a pop can still claim, oldest first.
    pub open spec fn queue(self) -> Seq<T> {
        self.log.subrange(self.taken, self.published)
    }

    /// What the slot of the `n`-th element holds.
    pub open spec fn cell(self, n: int) -> Option<T> {
        self.ring.slots[self.ring.slot(n)]
    }

    /// A push that retries has not been overtaken by a whole word of other pushes since it last
    /// loaded `prod_head`, so that the counter has not come back to the value it saw.
    pub open spec fn push_timely(self, id: int) -> bool {
        self.pushes[id].step is LoadTail || self.pushes[id].step is Reserve ==> self.reserved()
            - self.push_at[id] + self.ring.capacity < counter::word()
    }

    /// The same of a pop and `cons_head`.
    pub open spec fn pop_timely(self, id: int) -> bool {
        self.pops[id].step is LoadTail || self.pops[id].step is Reserve ==> self.published
            - self.pop_at[id] < counter::word()
    }

    pub open spec fn enabled(self, event: Event<T>) -> bool {
        match event {
            Event::BeginPush { id, .. } => !self.pushes.dom().contains(id),
            Event::Push { id, .. } => self.pushes.dom().contains(id) && self.push_timely(id),
            Event::BeginPop { id } => !self.pops.dom().contains(id),
            Event::Pop { id, .. } => self.pops.dom().contains(id) && self.pop_timely(id),
        }
    }

    pub open spec fn after_push(self, id: int, spurious: bool) -> World<T> {
        let op = self.pushes[id];
        let (ring, done) = push_next(self.ring, op, spurious);
        World {
            ring,
            pushes: self.pushes.insert(id, done),
            log: if op.step is Reserve && done.step is Write {
                self.log.push(op.val->0)
            } else {
                self.log
            },
            published: if op.step is Publish && done.step is Done {
                self.published + 1
            } else {
                self.published
            },
            push_at: if op.step is LoadHead || (op.step is Reserve && done.step is LoadTail) {
                self.push_at.insert(id, self.reserved())
            } else {
                self.push_at
            },
            push_owner: if op.step is Reserve && done.step is Write {
                self.push_owner.insert(self.reserved(), id)
            } else {
                self.push_owner
            },
            ..self
        }
    }

    pub open spec fn after_pop(self, id: int, spurious: bool) -> World<T> {
        let op = self.pops[id];
        let (ring, done) = pop_next(self.ring, op, spurious);
        World {
            ring,
            pops: self.pops.insert(id, done),
            taken: if op.step is Reserve && done.step is Read {
                self.taken + 1
            } else {
                self.taken
            },
            released: if op.step is Publish && done.step is Done {
                self.released + 1
            } else {
                self.released
            },
            pop_at: if op.step is LoadHead || (op.step is Reserve && done.step is LoadTail) {
                self.pop_at.insert(id, self.taken)
            } else {
                self.pop_at
            },
            pop_owner: if op.step is Reserve && done.step is Read {
                self.pop_owner.insert(self.taken, id)
            } else {
                self.pop_owner
            },
            ..self
        }
    }

    pub open spec fn after(self, event: Event<T>) -> World<T> {
        match event {
            Event::BeginPush { id, val } => World {
                pushes: self.pushes.insert(id, PushOp { step: PushStep::LoadHead, val: Some(val) }),
                push_at: self.push_at.insert(id, 0),
                given: self.given.insert(id, val),
                ..self
            },
            Event::Push { id, spurious } => self.after_push(id, spurious),
            Event::BeginPop { id } => World {
                pops: self.pops.insert(id, PopOp { step: PopStep::LoadHead, val: None }),
                pop_at: self.pop_at.insert(id, 0),
                ..self
            },
            Event::Pop { id, spurious } => self.after_pop(id, spurious),
        }
    }

    /// The push `id` has a place of its own.
    pub open spec fn push_placed(self, id: int) -> bool {
        &&& self.pushes.dom().contains(id)
        &&& match self.pushes[id].step {
            PushStep::Write { .. } | PushStep::Publish { .. } | PushStep::Done { .. } => true,
            _ => false,
        }
    }

    /// The pop `id` has claimed an element.
    pub open spec fn pop_placed(self, id: int) -> bool {
        &&& self.pops.dom().contains(id)
        &&& match self.pops[id].step {
            PopStep::Read { .. } | PopStep::Publish { .. } | PopStep::Done { .. } => true,
            _ => false,
        }
    }

    /// A push has reserved the place `n`.
    pub open spec fn push_owned(self, n: int) -> bool {
        let id = self.push_owner[n];
        self.push_placed(id) && self.push_at[id] == n
    }

    /// A pop has claimed the place `n`.
    pub open spec fn pop_owned(self, n: int) -> bool {
        let id = self.pop_owner[n];
        self.pop_placed(id) && self.pop_at[id] == n
    }

    pub open spec fn push_inv(self, id: int) -> bool {
        let op = self.pushes[id];
        let at = self.push_at[id];
        match op.step {
            PushStep::LoadHead | PushStep::Full => op.val == Some(self.given[id]),
            PushStep::LoadTail { head } => {
                &&& op.val == Some(self.given[id])
                &&& head == counter::wrap(at)
                &&& 0 <= at <= self.reserved()
            },
            PushStep::Reserve { head } => {
                &&& op.val == Some(self.given[id])
                &&& head == counter::wrap(at)
                &&& 0 <= at <= self.reserved()
                &&& at < self.released + self.ring.capacity
            },
            PushStep::Write { head } => {
                &&& head == counter::wrap(at)
                &&& self.published <= at < self.reserved()
                &&& op.val == Some(self.given[id])
                &&& self.log[at] == self.given[id]
                &&& self.cell(at) is None
            },
            PushStep::Publish { head } => {
                &&& head == counter::wrap(at)
                &&& self.published <= at < self.reserved()
                &&& op.val is None
                &&& self.log[at] == self.given[id]
                &&& self.cell(at) == Some(self.log[at])
            },
            PushStep::Done { head } => {
                &&& head == counter::wrap(at)
                &&& 0 <= at < self.published
                &&& op.val is None
                &&& self.log[at] == self.given[id]
            },
        }
    }

    pub open spec fn pop_inv(self, id: int) -> bool {
        let op = self.pops[id];
        let at = self.pop_at[id];
        match op.step {
            PopStep::LoadHead | PopStep::Empty => op.val is None,
            PopStep::LoadTail { head } => {
                &&& op.val is None
                &&& head == counter::wrap(at)
                &&& 0 <= at <= self.taken
            },
            PopStep::Reserve { head } => {
                &&& op.val is None
                &&& head == counter::wrap(at)
                &&& 0 <= at <= self.taken
                &&& at < self.published
            },
            PopStep::Read { head } => {
                &&& op.val is None
                &&& head == counter::wrap(at)
                &&& self.released <= at < self.taken
                &&& self.cell(at) == Some(self.log[at])
            },
            PopStep::Publish { head } => {
                &&& head == counter::wrap(at)
                &&& self.released <= at < self.taken
                &&& op.val == Some(self.log[at])
                &&& self.cell(at) is None
            },
            PopStep::Done { head } => {
                &&& head == counter::wrap(at)
                &&& 0 <= at < self.released
                &&& op.val == Some(self.log[at])
            },
        }
    }

    /// What every interleaving keeps.
    pub open spec fn inv(self) -> bool {
        &&& self.ring.sized()
        &&& self.ring.prod_head == counter::wrap(self.reserved())
        &&& self.ring.prod_tail == counter::wrap(self.published)
        &&& self.ring.cons_head == counter::wrap(self.taken)
        &&& self.ring.cons_tail == counter::wrap(self.released)
        &&& 0 <= self.released <= self.taken <= self.published <= self.reserved()
        &&& self.reserved() <= self.released + self.ring.capacity
        &&& forall|id: int| #[trigger] self.pushes.dom().contains(id) ==> self.push_inv(id)
        &&& forall|id: int| #[trigger] self.pops.dom().contains(id) ==> self.pop_inv(id)
        &&& forall|i: int, j: int| #[trigger]
            self.push_placed(i) && #[trigger] self.push_placed(j) && i != j ==> self.push_at[i]
                != self.push_at[j]
        &&& forall|i: int, j: int| #[trigger]
            self.pop_placed(i) && #[trigger] self.pop_placed(j) && i != j ==> self.pop_at[i]
                != self.pop_at[j]
        &&& forall|n: int| 0 <= n < self.reserved() ==> #[trigger] self.push_owned(n)
        &&& forall|n: int| 0 <= n < self.taken ==> #[trigger] self.pop_owned(n)
        &&& forall|n: int|
            self.taken <= n < self.published ==> #[trigger] self.cell(n) == Some(self.log[n])
        &&& forall|n: int|
            self.reserved() <= n < self.released + self.ring.size ==> #[trigger] self.cell(
                n,
            ) is None
    }

    /// Within a window of `size` places, each has a slot of its own.
    proof fn lemma_window(self)
        ensures
            forall|a: int, b: int|
                self.released <= a < self.released + self.ring.size && self.released <= b
                    < self.released + self.ring.size && a != b ==> #[trigger] self.ring.slot(a)
                    != #[trigger] self.ring.slot(b),
    {
        assert forall|a: int, b: int|
            self.released <= a < self.released + self.ring.size && self.released <= b
                < self.released + self.ring.size && a != b implies #[trigger] self.ring.slot(a)
            != #[trigger] self.ring.slot(b) by {
            if a < b {
                counter::lemma_slots_distinct(a, b, self.ring.size as int);
            } else {
                counter::lemma_slots_distinct(b, a, self.ring.size as int);
            }
        }
    }

    proof fn lemma_push_keeps_inv(self, id: int, spurious: bool)
        requires
            self.inv(),
            self.enabled(Event::Push { id, spurious }),
        ensures
            self.after_push(id, spurious).inv(),
    {
        let next = self.after_push(id, spurious);
        let op = self.pushes[id];
        let at = self.push_at[id];
        self.lemma_window();
        assert(self.push_inv(id));
        assert forall|i: int| #[trigger] next.pushes.dom().contains(i) && i != id implies
            self.push_inv(i) && next.pushes[i] == self.pushes[i] && next.push_at[i]
            == self.push_at[i] by {
            assert(self.pushes.dom().contains(i));
        }
        assert forall|i: int| #[trigger] next.push_placed(i) && i != id implies
            self.push_placed(i) && next.push_at[i] == self.push_at[i] by {}
        assert forall|i: int| #[trigger] next.pop_placed(i) implies self.pop_placed(i) by {}
        assert forall|n: int| 0 <= n < next.reserved() implies #[trigger] next.push_owned(n) by {
            if n < self.reserved() {
                assert(self.push_owned(n));
            } else {
                counter::lemma_wrap_injective(self.reserved(), at);
            }
        }
        assert forall|n: int| 0 <= n < next.taken implies #[trigger] next.pop_owned(n) by {
            assert(self.pop_owned(n));
        }
        if !(op.step is Reserve) && next.push_placed(id) {
            assert(self.push_placed(id));
        }
        if !(op.step is Write) {
            assert forall|n: int| #[trigger] next.cell(n) == self.cell(n) by {}
        }
        match op.step {
            PushStep::LoadHead => {
                assert(next.push_inv(id));
                assert forall|i: int| #[trigger] next.pops.dom().contains(i) implies next.pop_inv(
                    i,
                ) by {
                    assert(self.pop_inv(i));
                }
            },
            PushStep::LoadTail { .. } => {
                counter::lemma_full_test(at, self.released, self.ring.capacity);
                assert(next.push_inv(id));
                assert forall|i: int| #[trigger] next.pops.dom().contains(i)
                    implies next.pop_inv(i) by {}
            },
            PushStep::Reserve { head } => {
                if self.ring.prod_head == head && !spurious {
                    counter::lemma_wrap_injective(self.reserved(), at);
                    counter::lemma_wrap_increment(at);
                    assert(next.reserved() == at + 1);
                    assert(self.cell(at) is None);
                    assert(next.push_inv(id));
                    assert forall|i: int| #[trigger] next.pushes.dom().contains(i) && i != id
                        implies next.push_inv(i) by {
                        assert(self.push_inv(i));
                    }
                    assert forall|i: int| #[trigger] self.push_placed(i) && i != id implies
                        self.push_at[i] != at by {
                        assert(self.push_inv(i));
                    }
                    assert forall|i: int| #[trigger] next.pops.dom().contains(i) implies
                        next.pop_inv(i) by {
                        assert(self.pop_inv(i));
                    }
                } else {
                    assert(!next.push_placed(id));
                    assert(next.push_inv(id));
                }
            },
            PushStep::Write { head } => {
                counter::lemma_wrapped_slot(at, self.ring.size);
                assert(next.cell(at) == Some(self.log[at]));
                assert forall|n: int| self.released <= n < self.released + self.ring.size && n != at
                    implies #[trigger] next.cell(n) == self.cell(n) by {
                    assert(self.ring.slot(n) != self.ring.slot(at));
                }
                assert forall|i: int| #[trigger] next.pushes.dom().contains(i) implies
                    next.push_inv(i) by {
                    assert(self.push_inv(i));
                    if i != id {
                        assert(self.push_placed(id));
                        if self.push_placed(i) {
                            assert(self.push_at[i] != at);
                        }
                    }
                }
                assert forall|i: int| #[trigger] next.pops.dom().contains(i) implies
                    next.pop_inv(i) by {
                    assert(self.pop_inv(i));
                }
            },
            PushStep::Publish { head } => {
                if self.ring.prod_tail == head && !spurious {
                    counter::lemma_wrap_injective(self.published, at);
                    counter::lemma_wrap_increment(at);
                    assert forall|i: int| #[trigger] next.pushes.dom().contains(i) implies
                        next.push_inv(i) by {
                        assert(self.push_inv(i));
                        if i != id {
                            assert(self.push_placed(id));
                            if self.push_placed(i) {
                                assert(self.push_at[i] != at);
                            }
                        }
                    }
                    assert forall|i: int| #[trigger] next.pops.dom().contains(i) implies
                        next.pop_inv(i) by {
                        assert(self.pop_inv(i));
                    }
                } else {
                    assert(next.push_inv(id));
                }
            },
            PushStep::Done { .. } | PushStep::Full => {
                assert(next.push_inv(id));
            },
        }
    }

    proof fn lemma_pop_keeps_inv(self, id: int, spurious: bool)
        requires
            self.inv(),
            self.enabled(Event::Pop { id, spurious }),
        ensures
            self.after_pop(id, spurious).inv(),
    {
        let next = self.after_pop(id, spurious);
        let op = self.pops[id];
        let at = self.pop_at[id];
        self.lemma_window();
        assert(self.pop_inv(id));
        assert forall|i: int| #[trigger] next.pops.dom().contains(i) && i != id implies
            self.pop_inv(i) && next.pops[i] == self.pops[i] && next.pop_at[i] == self.pop_at[i] by {
            assert(self.pops.dom().contains(i));
        }
        assert forall|i: int| #[trigger] next.pop_placed(i) && i != id implies
            self.pop_placed(i) && next.pop_at[i] == self.pop_at[i] by {}
        assert forall|i: int| #[trigger] next.push_placed(i) implies self.push_placed(i) by {}
        assert forall|n: int| 0 <= n < next.taken implies #[trigger] next.pop_owned(n) by {
            if n < self.taken {
                assert(self.pop_owned(n));
            } else {
                counter::lemma_wrap_injective(self.taken, at);
            }
        }
        assert forall|n: int| 0 <= n < next.reserved() implies #[trigger] next.push_owned(n) by {
            assert(self.push_owned(n));
        }
        if !(op.step is Reserve) && next.pop_placed(id) {
            assert(self.pop_placed(id));
        }
        if !(op.step is Read) {
            assert forall|n: int| #[trigger] next.cell(n) == self.cell(n) by {}
        }
        match op.step {
            PopStep::LoadHead => {
                assert(next.pop_inv(id));
                assert forall|i: int| #[trigger] next.pushes.dom().contains(i)
                    implies next.push_inv(i) by {
                    assert(self.push_inv(i));
                }
            },
            PopStep::LoadTail { .. } => {
                if op.step->LoadTail_head != self.ring.prod_tail {
                    assert(at != self.published);
                }
                assert(next.pop_inv(id));
                assert forall|i: int| #[trigger] next.pushes.dom().contains(i)
                    implies next.push_inv(i) by {
                    assert(self.push_inv(i));
                }
            },
            PopStep::Reserve { head } => {
                if self.ring.cons_head == head && !spurious {
                    counter::lemma_wrap_injective(self.taken, at);
                    counter::lemma_wrap_increment(at);
                    assert(self.cell(at) == Some(self.log[at]));
                    assert(next.pop_inv(id));
                    assert forall|i: int| #[trigger] next.pops.dom().contains(i) && i != id
                        implies next.pop_inv(i) by {
                        assert(self.pop_inv(i));
                    }
                    assert forall|i: int| #[trigger] self.pop_placed(i) && i != id implies
                        self.pop_at[i] != at by {
                        assert(self.pop_inv(i));
                    }
                    assert forall|i: int| #[trigger] next.pushes.dom().contains(i) implies
                        next.push_inv(i) by {
                        assert(self.push_inv(i));
                    }
                } else {
                    assert(!next.pop_placed(id));
                    assert(next.pop_inv(id));
                }
            },
            PopStep::Read { head } => {
                counter::lemma_wrapped_slot(at, self.ring.size);
                assert(next.cell(at) is None);
                assert forall|n: int| self.released <= n < self.released + self.ring.size && n != at
                    implies #[trigger] next.cell(n) == self.cell(n) by {
                    assert(self.ring.slot(n) != self.ring.slot(at));
                }
                assert forall|i: int| #[trigger] next.pops.dom().contains(i) implies
                    next.pop_inv(i) by {
                    assert(self.pop_inv(i));
                    if i != id {
                        assert(self.pop_placed(id));
                        if self.pop_placed(i) {
                            assert(self.pop_at[i] != at);
                        }
                    }
                }
                assert forall|i: int| #[trigger] next.pushes.dom().contains(i) implies
                    next.push_inv(i) by {
                    assert(self.push_inv(i));
                }
            },
            PopStep::Publish { head } => {
                if self.ring.cons_tail == head && !spurious {
                    counter::lemma_wrap_injective(self.released, at);
                    counter::lemma_wrap_increment(at);
                    assert(self.ring.slot(at + self.ring.size) == self.ring.slot(at)) by {
                        vstd::arithmetic::div_mod::lemma_mod_add_multiples_vanish(
                            at,
                            self.ring.size as int,
                        );
                    }
                    assert(next.cell(at + self.ring.size) is None);
                    assert forall|i: int| #[trigger] next.pops.dom().contains(i) implies
                        next.pop_inv(i) by {
                        assert(self.pop_inv(i));
                        if i != id {
                            assert(self.pop_placed(id));
                            if self.pop_placed(i) {
                                assert(self.pop_at[i] != at);
                            }
                        }
                    }
                    assert forall|i: int| #[trigger] next.pushes.dom().contains(i) implies
                        next.push_inv(i) by {
                        assert(self.push_inv(i));
                    }
                } else {
                    assert(next.pop_inv(id));
                }
            },
            PopStep::Done { .. } | PopStep::Empty => {
                assert(next.pop_inv(id));
            },
        }
    }
}

/// The world after a sequence of events on an empty ring of `size` slots that takes `capacity`
/// elements.
pub open spec fn run<T>(size: usize, capacity: usize, events: Seq<Event<T>>) -> World<T>
    decreases events.len(),
{
    if events.len() == 0 {
        World::init(size, capacity)
    } else {
        run(size, capacity, events.drop_last()).after(events.last())
    }
}

/// Each of the events could happen when it did.
pub open spec fn feasible<T>(size: usize, capacity: usize, events: Seq<Event<T>>) -> bool
    decreases events.len(),
{
    events.len() == 0 || {
        &&& feasible(size, capacity, events.drop_last())
        &&& run(size, capacity, events.drop_last()).enabled(events.last())
    }
}

/// An empty ring has the invariant.
pub proof fn law_init<T>(size: usize, capacity: usize)
    requires
        counter::valid_size(size as int),
        capacity <= size,
    ensures
        World::<T>::init(size, capacity).inv(),
        World::<T>::init(size, capacity).queue() == Seq::<T>::empty(),
{
    let world = World::<T>::init(size, capacity);
    vstd::arithmetic::div_mod::lemma_small_mod(0, counter::word() as nat);
    assert forall|n: int| 0 <= n < world.ring.size implies #[trigger] world.cell(n) is None by {
        vstd::arithmetic::div_mod::lemma_small_mod(n as nat, size as nat);
    }
}

/// Every access of every operation keeps the invariant.
pub proof fn law_step<T>(world: World<T>, event: Event<T>)
    requires
        world.inv(),
        world.enabled(event),
    ensures
        world.after(event).inv(),
{
    let next = world.after(event);
    match event {
        Event::BeginPush { id, val } => {
            assert forall|n: int| #[trigger] next.cell(n) == world.cell(n) by {}
            assert forall|i: int| #[trigger] next.pushes.dom().contains(i) implies next.push_inv(
                i,
            ) by {
                if i != id {
                    assert(world.push_inv(i));
                }
            }
            assert forall|i: int| #[trigger] next.pops.dom().contains(i) implies next.pop_inv(
                i,
            ) by {
                assert(world.pop_inv(i));
            }
            assert forall|i: int| #[trigger] next.push_placed(i) implies world.push_placed(i) && i
                != id by {}
            assert forall|i: int| #[trigger] next.pop_placed(i) implies world.pop_placed(i) by {}
            assert forall|n: int| 0 <= n < next.reserved() implies #[trigger] next.push_owned(
                n,
            ) by {
                assert(world.push_owned(n));
            }
            assert forall|n: int| 0 <= n < next.taken implies #[trigger] next.pop_owned(n) by {
                assert(world.pop_owned(n));
            }
        },
        Event::Push { id, spurious } => {
            world.lemma_push_keeps_inv(id, spurious);
        },
        Event::BeginPop { id } => {
            assert forall|n: int| #[trigger] next.cell(n) == world.cell(n) by {}
            assert forall|i: int| #[trigger] next.pops.dom().contains(i) implies next.pop_inv(
                i,
            ) by {
                if i != id {
                    assert(world.pop_inv(i));
                }
            }
            assert forall|i: int| #[trigger] next.pushes.dom().contains(i) implies next.push_inv(
                i,
            ) by {
                assert(world.push_inv(i));
            }
            assert forall|i: int| #[trigger] next.pop_placed(i) implies world.pop_placed(i) && i
                != id by {}
            assert forall|i: int| #[trigger] next.push_placed(i) implies world.push_placed(i) by {}
            assert forall|n: int| 0 <= n < next.reserved() implies #[trigger] next.push_owned(
                n,
            ) by {
                assert(world.push_owned(n));
            }
            assert forall|n: int| 0 <= n < next.taken implies #[trigger] next.pop_owned(n) by {
                assert(world.pop_owned(n));
            }
        },
        Event::Pop { id, spurious } => {
            world.lemma_pop_keeps_inv(id, spurious);
        },
    }
}

/// Every interleaving of pushes and pops keeps the invariant, from the empty ring on.
pub proof fn law_every_run<T>(size: usize, capacity: usize, events: Seq<Event<T>>)
    requires
        counter::valid_size(size as int),
        capacity <= size,
        feasible(size, capacity, events),
    ensures
        run(size, capacity, events).inv(),
    decreases events.len(),
{
    if events.len() == 0 {
        law_init::<T>(size, capacity);
    } else {
        law_every_run(size, capacity, events.drop_last());
        law_step(run(size, capacity, events.drop_last()), events.last());
    }
}

/// No two operations touch the same slot at the same time: a push that is about to write has
/// the slot to itself, and so has a pop that is about to read.
pub proof fn law_slots_are_exclusive<T>(world: World<T>, i: int, j: int)
    requires
        world.inv(),
    ensures
        world.pushes.dom().contains(i) && world.pushes.dom().contains(j) && i != j
            && world.pushes[i].step is Write && world.pushes[j].step is Write
            ==> world.ring.slot(world.pushes[i].step->Write_head as int) != world.ring.slot(
            world.pushes[j].step->Write_head as int,
        ),
        world.pops.dom().contains(i) && world.pops.dom().contains(j) && i != j
            && world.pops[i].step is Read && world.pops[j].step is Read
            ==> world.ring.slot(world.pops[i].step->Read_head as int) != world.ring.slot(
            world.pops[j].step->Read_head as int,
        ),
        world.pushes.dom().contains(i) && world.pops.dom().contains(j)
            && world.pushes[i].step is Write && world.pops[j].step is Read
            ==> world.ring.slot(world.pushes[i].step->Write_head as int) != world.ring.slot(
            world.pops[j].step->Read_head as int,
        ),
{
    world.lemma_window();
    if world.pushes.dom().contains(i) {
        assert(world.push_inv(i));
        counter::lemma_wrapped_slot(world.push_at[i], world.ring.size);
    }
    if world.pushes.dom().contains(j) {
        assert(world.push_inv(j));
        counter::lemma_wrapped_slot(world.push_at[j], world.ring.size);
        if world.pushes.dom().contains(i) && i != j && world.pushes[i].step is Write
            && world.pushes[j].step is Write {
            assert(world.push_placed(i) && world.push_placed(j));
        }
    }
    if world.pops.dom().contains(i) {
        assert(world.pop_inv(i));
        counter::lemma_wrapped_slot(world.pop_at[i], world.ring.size);
    }
    if world.pops.dom().contains(j) {
        assert(world.pop_inv(j));
        counter::lemma_wrapped_slot(world.pop_at[j], world.ring.size);
        if world.pops.dom().contains(i) && i != j && world.pops[i].step is Read
            && world.pops[j].step is Read {
            assert(world.pop_placed(i) && world.pop_placed(j));
        }
    }
}

/// A push never writes over an element: the slot it is about to write is vacant. A pop never
/// reads a vacant slot.
pub proof fn law_no_element_is_lost<T>(world: World<T>, id: int)
    requires
        world.inv(),
    ensures
        world.pushes.dom().contains(id) && world.pushes[id].step is Write
            ==> world.ring.slots[world.ring.slot(world.pushes[id].step->Write_head as int)] is None,
        world.pops.dom().contains(id) && world.pops[id].step is Read
            ==> world.ring.slots[world.ring.slot(world.pops[id].step->Read_head as int)] is Some,
{
    if world.pushes.dom().contains(id) {
        assert(world.push_inv(id));
        counter::lemma_wrapped_slot(world.push_at[id], world.ring.size);
    }
    if world.pops.dom().contains(id) {
        assert(world.pop_inv(id));
        counter::lemma_wrapped_slot(world.pop_at[id], world.ring.size);
    }
}

/// Each access changes the queue as one whole push or one whole pop would, or not at all. The
/// push takes effect when it moves `prod_tail`, and appends the element it was begun with; the
/// pop takes effect when it moves `cons_head`, and takes the oldest element.
pub proof fn law_linearizable<T>(world: World<T>, event: Event<T>)
    requires
        world.inv(),
        world.enabled(event),
    ensures
        match event {
            Event::Push { id, .. } => if world.pushes[id].step is Publish
                && world.after(event).pushes[id].step is Done {
                world.after(event).queue() == world.queue().push(world.given[id])
            } else {
                world.after(event).queue() == world.queue()
            },
            Event::Pop { id, .. } => if world.pops[id].step is Reserve && world.after(
                event,
            ).pops[id].step is Read {
                &&& world.queue().len() > 0
                &&& world.after(event).queue() == world.queue().drop_first()
                &&& world.after(event).log[world.after(event).pop_at[id]] == world.queue()[0]
            } else {
                world.after(event).queue() == world.queue()
            },
            _ => world.after(event).queue() == world.queue(),
        },
{
    let next = world.after(event);
    law_step(world, event);
    match event {
        Event::Push { id, .. } => {
            assert(world.push_inv(id));
            if world.pushes[id].step is Publish && next.pushes[id].step is Done {
                counter::lemma_wrap_injective(world.published, world.push_at[id]);
                assert(next.queue() =~= world.queue().push(world.given[id]));
            } else {
                assert(next.queue() =~= world.queue());
            }
        },
        Event::Pop { id, .. } => {
            assert(world.pop_inv(id));
            if world.pops[id].step is Reserve && next.pops[id].step is Read {
                counter::lemma_wrap_injective(world.taken, world.pop_at[id]);
                assert(next.queue() =~= world.queue().drop_first());
            } else {
                assert(next.queue() =~= world.queue());
            }
        },
        _ => {},
    }
}

/// A push is refused only when every place is reserved, and still has its element then; a pop
/// finds nothing only when there is nothing to claim.
pub proof fn law_refusals<T>(world: World<T>, event: Event<T>)
    requires
        world.inv(),
        world.enabled(event),
    ensures
        event matches Event::Push { id, .. } ==> !(world.pushes[id].step is Full) && world.after(
            event,
        ).pushes[id].step is Full ==> {
            &&& world.reserved() - world.released == world.ring.capacity
            &&& world.after(event).pushes[id].val == Some(world.given[id])
        },
        event matches Event::Pop { id, .. } ==> !(world.pops[id].step is Empty) && world.after(
            event,
        ).pops[id].step is Empty ==> world.queue().len() == 0,
{
    law_step(world, event);
    match event {
        Event::Push { id, .. } => {
            assert(world.push_inv(id));
            if world.pushes[id].step is LoadTail {
                counter::lemma_full_test(
                    world.push_at[id],
                    world.released,
                    world.ring.capacity,
                );
            }
        },
        Event::Pop { id, .. } => {
            assert(world.pop_inv(id));
            if world.pops[id].step is LoadTail && world.pops[id].step->LoadTail_head
                == world.ring.prod_tail {
                counter::lemma_wrap_injective(world.published, world.pop_at[id]);
            }
        },
        _ => {},
    }
}

/// Elements come out in the order of their places, each once: a finished pop gives the element
/// of its place, which has been published, and no two pops have the same place.
pub proof fn law_fifo<T>(world: World<T>, i: int, j: int)
    requires
        world.inv(),
        world.pops.dom().contains(i),
        world.pops[i].step is Done,
    ensures
        0 <= world.pop_at[i] < world.published,
        world.pops[i].val == Some(world.log[world.pop_at[i]]),
        world.pops.dom().contains(j) && world.pops[j].step is Done && i != j ==> world.pop_at[i]
            != world.pop_at[j],
{
    assert(world.pop_inv(i));
    if world.pops.dom().contains(j) && world.pops[j].step is Done && i != j {
        assert(world.pop_placed(i) && world.pop_placed(j));
    }
}

/// Nothing is lost or made up: every published element was pushed by one push that is done, and
/// every released one went to one pop that is done and gave just that element back.
pub proof fn law_conserved<T>(world: World<T>, n: int)
    requires
        world.inv(),
    ensures
        0 <= n < world.published ==> {
            let id = world.push_owner[n];
            &&& world.pushes.dom().contains(id)
            &&& world.pushes[id].step is Done
            &&& world.push_at[id] == n
            &&& world.given[id] == world.log[n]
        },
        0 <= n < world.released ==> {
            let id = world.pop_owner[n];
            &&& world.pops.dom().contains(id)
            &&& world.pops[id].step is Done
            &&& world.pop_at[id] == n
            &&& world.pops[id].val == Some(world.given[world.push_owner[n]])
        },
{
    if 0 <= n < world.published {
        assert(world.push_owned(n));
        assert(world.push_inv(world.push_owner[n]));
    }
    if 0 <= n < world.released {
        assert(world.pop_owned(n));
        assert(world.pop_inv(world.pop_owner[n]));
    }
}

/// Once nobody is between reserving a place and publishing or releasing it, the ring is at
/// rest, and its contents are the queue.
pub proof fn law_rest<T>(world: World<T>)
    requires
        world.inv(),
        forall|id: int| #[trigger]
            world.pushes.dom().contains(id) ==> !(world.pushes[id].step is Write)
                && !(world.pushes[id].step is Publish),
        forall|id: int| #[trigger]
            world.pops.dom().contains(id) ==> !(world.pops[id].step is Read)
                && !(world.pops[id].step is Publish),
    ensures
        world.ring.at_rest(),
        world.ring.contents() == world.queue(),
{
    let ring = world.ring;
    if world.published < world.reserved() {
        assert(world.push_owned(world.published));
        assert(world.push_inv(world.push_owner[world.published]));
    }
    if world.released < world.taken {
        assert(world.pop_owned(world.released));
        assert(world.pop_inv(world.pop_owner[world.released]));
    }
    counter::lemma_wrap_difference(world.published, world.released);
    assert(ring.count() == world.published - world.released);
    assert forall|k: int| 0 <= k < ring.size implies #[trigger] ring.slot(ring.cons_tail + k)
        == ring.slot(world.released + k) by {
        counter::lemma_wrapped_slot(world.released, ring.size);
        vstd::arithmetic::div_mod::lemma_add_mod_noop(ring.cons_tail as int, k, ring.size as int);
        vstd::arithmetic::div_mod::lemma_add_mod_noop(world.released, k, ring.size as int);
    }
    assert forall|k: int| #![trigger ring.slot(ring.cons_tail + k)] 0 <= k < ring.size implies
        (ring.slots[ring.slot(ring.cons_tail + k)] is Some <==> k < ring.count()) by {
        let cell = world.cell(world.released + k);
    }
    assert(ring.contents() =~= world.queue()) by {
        assert forall|k: int| 0 <= k < ring.count() implies ring.contents()[k]
            == world.queue()[k] by {
            let cell = world.cell(world.released + k);
            assert(ring.slot(ring.cons_tail + k) == ring.slot(world.released + k));
        }
    }
}

/// What a look at the counters tells, also while operations are under way: their difference is
/// the number of elements that were published and not released, and they are equal where there
/// is none; and where no pop is under way, the slot of `cons_tail` holds the oldest element.
pub proof fn law_look<T>(world: World<T>)
    requires
        world.inv(),
    ensures
        world.ring.count() == world.published - world.released,
        world.ring.capacity < world.ring.size ==> counter::slot_of(
            world.ring.count(),
            world.ring.size as int,
        ) == world.ring.count(),
        world.ring.prod_tail == world.ring.cons_tail <==> world.published == world.released,
        world.released == world.taken < world.published
            ==> world.ring.slots[world.ring.slot(world.ring.cons_tail as int)] == Some(
            world.queue()[0],
        ),
{
    counter::lemma_wrap_difference(world.published, world.released);
    if world.ring.capacity < world.ring.size {
        vstd::arithmetic::div_mod::lemma_small_mod(
            (world.published - world.released) as nat,
            world.ring.size as nat,
        );
    }
    counter::lemma_wrapped_slot(world.released, world.ring.size);
    if world.released == world.taken < world.published {
        assert(world.cell(world.released) == Some(world.log[world.released]));
    }
}

/// Waiting for other operations ends: of the pushes between reservation and publication, the
/// one with the first place gets on with its next access unless that fails spuriously, and so
/// does the first of the pops.
pub proof fn law_progress<T>(world: World<T>)
    requires
        world.inv(),
    ensures
        world.published < world.reserved() ==> {
            let id = world.push_owner[world.published];
            &&& world.pushes.dom().contains(id)
            &&& world.after_push(id, false).pushes[id].step.remaining()
                < world.pushes[id].step.remaining()
        },
        world.released < world.taken ==> {
            let id = world.pop_owner[world.released];
            &&& world.pops.dom().contains(id)
            &&& world.after_pop(id, false).pops[id].step.remaining()
                < world.pops[id].step.remaining()
        },
{
    if world.published < world.reserved() {
        assert(world.push_owned(world.published));
        assert(world.push_inv(world.push_owner[world.published]));
    }
    if world.released < world.taken {
        assert(world.pop_owned(world.released));
        assert(world.pop_inv(world.pop_owner[world.released]));
    }
}

} // verus!
