//! What holds of a mutex with any number of borrowers and its lender, whatever the order in
//! which they poll, lend and drop. Each such call is taken as a whole.
//!
//! A [`World`] is a mutex with everything that was made from it and is still there. Requests
//! have tickets, given out in the order in which they were queued; the world counts them, and no
//! operation reads them.

use crate::borrow_mutex::calls;
use crate::borrow_mutex::{
    ArmedState, BorrowMutexAbort, BorrowMutexError, BorrowState, MutexState, TerminateStage,
    UnarmedState,
};
use crate::counter;
use core::task::{Poll, Waker};
use vstd::prelude::*;

verus! {

pub struct World<T> {
    pub mutex: MutexState<T>,
    /// The ticket of the oldest request, or of the next one to come where there is none.
    pub base: int,
    /// The requests, by a number of their own.
    pub requests: Map<int, UnarmedState>,
    /// The tickets of the requests that were queued.
    pub tickets: Map<int, int>,
    /// The borrowed references, by the number of the request that each came from.
    pub guards: Map<int, ArmedState<T>>,
    /// The request that each ticket was given to.
    pub owner: Map<int, int>,
    /// There is a lend guard.
    pub lending: bool,
    /// A poll has told the lender that the borrow is over.
    pub returned: bool,
    /// How far the termination that was polled first has come.
    pub stage: TerminateStage,
}

pub enum Event<T> {
    Request { id: int },
    PollRequest { id: int, waker: Option<Waker> },
    DropRequest { id: int },
    DropGuard { id: int },
    PollLender { waker: Option<Waker> },
    Lend { value: T },
    PollLend { waker: Option<Waker> },
    DropLend,
    PollTerminate { waker: Option<Waker> },
    /// Another termination is polled for the first time, after one has begun.
    PollTerminateAgain { waker: Option<Waker> },
    DropTerminate,
}

impl<T> World<T> {
    /// A new mutex that takes `max` requests.
    pub open spec fn init(max: int) -> World<T> {
        World {
            mutex: MutexState::init(max),
            base: 0,
            requests: Map::empty(),
            tickets: Map::empty(),
            guards: Map::empty(),
            owner: Map::empty(),
            lending: false,
            returned: false,
            stage: TerminateStage::Unstarted,
        }
    }

    /// The event can happen, and does not end the process.
    pub open spec fn enabled(self, event: Event<T>) -> bool {
        match event {
            Event::Request { id } => !self.requests.dom().contains(id)
                && !self.guards.dom().contains(id),
            Event::PollRequest { id, .. } => self.requests.dom().contains(id),
            Event::DropRequest { id } => self.requests.dom().contains(id),
            Event::DropGuard { id } => self.guards.dom().contains(id),
            Event::PollLender { .. } => true,
            Event::Lend { value } => self.mutex.lend_called(value).1 is Ok,
            Event::PollLend { .. } => self.lending && !self.returned,
            Event::DropLend => self.lending && !self.mutex.still_borrowed(),
            Event::PollTerminate { waker } => !(self.stage is Finished)
                && !(self.mutex.terminate_polled(self.stage, waker).2 matches Poll::Ready(Err(_))),
            Event::PollTerminateAgain { .. } => self.mutex.terminated,
            Event::DropTerminate => self.stage is Draining ==> !self.mutex.still_borrowed(),
        }
    }

    pub open spec fn after_poll_request(self, id: int, waker: Option<Waker>) -> World<T> {
        let guard = self.requests[id];
        let (mutex, next, polled) = self.mutex.unarmed_polled(guard, waker);
        let ticket = self.base + self.mutex.borrowers.len();
        let queued = guard.slot is None && next.slot is Some;
        World {
            mutex,
            requests: self.requests.insert(id, next),
            tickets: if queued {
                self.tickets.insert(id, ticket)
            } else {
                self.tickets
            },
            owner: if queued {
                self.owner.insert(ticket, id)
            } else {
                self.owner
            },
            guards: match polled {
                Poll::Ready(Ok(armed)) => self.guards.insert(id, armed),
                _ => self.guards,
            },
            ..self
        }
    }

    pub open spec fn after(self, event: Event<T>) -> World<T> {
        match event {
            Event::Request { id } => World {
                requests: self.requests.insert(id, UnarmedState { slot: None, spent: false }),
                ..self
            },
            Event::PollRequest { id, waker } => self.after_poll_request(id, waker),
            Event::DropRequest { id } => World {
                mutex: self.mutex.unarmed_dropped(self.requests[id]),
                requests: self.requests.remove(id),
                ..self
            },
            Event::DropGuard { id } => World {
                mutex: self.mutex.released(self.guards[id].slot as int),
                guards: self.guards.remove(id),
                ..self
            },
            Event::PollLender { waker } => World {
                mutex: self.mutex.lender_polled(waker).0,
                ..self
            },
            Event::Lend { value } => {
                let (mutex, slot) = self.mutex.lend_called(value);
                World { mutex, lending: slot matches Ok(Some(_)), returned: false, ..self }
            },
            Event::PollLend { waker } => {
                let (mutex, ready) = self.mutex.lend_polled(waker);
                World { mutex, returned: ready, ..self }
            },
            Event::DropLend => self.after_drop_lend(),
            Event::PollTerminate { waker } => {
                let (mutex, stage, _) = self.mutex.terminate_polled(self.stage, waker);
                World {
                    mutex,
                    stage,
                    base: self.base + self.mutex.borrowers.len() - mutex.borrowers.len(),
                    ..self
                }
            },
            Event::PollTerminateAgain { waker } => World {
                mutex: self.mutex.terminate_polled(TerminateStage::Unstarted, waker).0,
                ..self
            },
            Event::DropTerminate => if self.stage is Draining {
                World { stage: TerminateStage::Finished, ..self.after_drop_lend() }
            } else {
                self
            },
        }
    }

    pub open spec fn after_drop_lend(self) -> World<T> {
        let mutex = self.mutex.lend_dropped();
        World {
            mutex,
            base: self.base + self.mutex.borrowers.len() - mutex.borrowers.len(),
            lending: false,
            returned: false,
            ..self
        }
    }

    /// The request is queued and waits for the reference.
    pub open spec fn waits(self, id: int) -> bool {
        &&& self.requests.dom().contains(id)
        &&& self.requests[id].slot is Some
        &&& !self.requests[id].spent
    }

    /// The queue entry with a ticket.
    pub open spec fn entry(self, ticket: int) -> BorrowState {
        self.mutex.borrowers[ticket - self.base]
    }

    /// The ticket is in the queue.
    pub open spec fn queued(self, ticket: int) -> bool {
        self.base <= ticket < self.base + self.mutex.borrowers.len()
    }

    pub open spec fn request_inv(self, id: int) -> bool {
        let ticket = self.tickets[id];
        &&& self.queued(ticket)
        &&& self.requests[id].slot->0 == counter::slot_of(ticket, self.mutex.max)
        &&& self.entry(ticket).guard_present
        &&& self.entry(ticket).ref_acquired ==> self.entry(ticket).waiter.awoken
    }

    pub open spec fn guard_inv(self, id: int) -> bool {
        &&& self.requests.dom().contains(id) ==> self.requests[id].spent
        &&& self.tickets[id] == self.base
        &&& self.queued(self.base)
        &&& self.guards[id].slot == self.mutex.front
        &&& self.mutex.inner_ref == Some(self.guards[id].inner_ref)
        &&& self.entry(self.base).guard_present
        &&& self.entry(self.base).ref_acquired
    }

    pub open spec fn owned(self, ticket: int) -> bool {
        let id = self.owner[ticket];
        &&& self.tickets[id] == ticket
        &&& self.waits(id) || self.guards.dom().contains(id)
    }

    /// Who refers to which request.
    pub open spec fn consistent(self) -> bool {
        &&& self.mutex.wf()
        &&& self.mutex.front == counter::slot_of(self.base, self.mutex.max)
        &&& self.lending == self.mutex.lender_present
        &&& self.returned ==> self.lending && !self.entry(self.base).guard_present
        &&& self.mutex.has_termination(self.stage)
        &&& forall|id: int| #[trigger] self.waits(id) ==> self.request_inv(id)
        &&& forall|id: int| #[trigger] self.guards.dom().contains(id) ==> self.guard_inv(id)
        &&& forall|i: int, j: int| #[trigger]
            self.waits(i) && #[trigger] self.waits(j) && i != j ==> self.tickets[i]
                != self.tickets[j]
        &&& forall|i: int, j: int| #[trigger]
            self.waits(i) && #[trigger] self.guards.dom().contains(j) ==> self.tickets[i]
                != self.tickets[j]
        &&& forall|i: int, j: int| #[trigger]
            self.guards.dom().contains(i) && #[trigger] self.guards.dom().contains(j) ==> i == j
        &&& forall|ticket: int|
            self.queued(ticket) && (#[trigger] self.entry(ticket)).guard_present ==> self.owned(
                ticket,
            )
    }

    /// What every order of events keeps: besides consistency, that the lender is woken when the
    /// borrower that it waits for is gone.
    pub open spec fn inv(self) -> bool {
        &&& self.consistent()
        &&& self.mutex.borrowers.len() > 0 && self.entry(self.base).ref_acquired && !self.entry(
            self.base,
        ).guard_present && !self.returned ==> self.mutex.lend_waiter.awoken
    }

    proof fn lemma_slot(self, ticket: int)
        requires
            self.mutex.max >= 2,
            self.mutex.front == counter::slot_of(self.base, self.mutex.max),
            self.base <= ticket < self.base + self.mutex.max,
        ensures
            0 <= counter::slot_of(ticket, self.mutex.max) < self.mutex.max,
            self.mutex.position(counter::slot_of(ticket, self.mutex.max)) == ticket - self.base,
            counter::slot_of(self.mutex.front + (ticket - self.base), self.mutex.max)
                == counter::slot_of(ticket, self.mutex.max),
    {
        let size = self.mutex.max;
        let k = ticket - self.base;
        vstd::arithmetic::div_mod::lemma_add_mod_noop(self.base, k, size);
        vstd::arithmetic::div_mod::lemma_add_mod_noop(self.mutex.front, k, size);
        vstd::arithmetic::div_mod::lemma_mod_twice(self.base, size);
        counter::lemma_position_of_slot(self.mutex.front, k, size);
    }

    /// A poll of a request keeps the invariant.
    proof fn lemma_poll_request(self, id: int, waker: Option<Waker>)
        requires
            self.inv(),
            self.requests.dom().contains(id),
        ensures
            self.after_poll_request(id, waker).inv(),
    {
        let guard = self.requests[id];
        let next = self.after_poll_request(id, waker);
        assert forall|i: int| #[trigger] next.waits(i) && i != id implies self.waits(i) by {}
        if !self.mutex.admits(guard) {
            assert(next.mutex == self.mutex);
            assert(next.waits(id) ==> self.waits(id));
            assert forall|t: int| #[trigger] next.entry(t) == self.entry(t) by {}
            assert forall|t: int| #[trigger] self.owned(t) implies next.owned(t) by {
                assert(self.waits(id) ==> next.waits(id));
            }
            assert forall|i: int| #[trigger] next.waits(i) implies next.request_inv(i) by {
                assert(self.request_inv(i));
            }
            assert forall|i: int| #[trigger] next.guards.dom().contains(i)
                implies next.guard_inv(i) by {
                assert(self.guard_inv(i));
            }
            assert forall|t: int| next.queued(t) && (#[trigger] next.entry(t)).guard_present
                implies next.owned(t) by {
                assert(self.entry(t).guard_present);
                assert(self.owned(t));
            }
        } else {
            let (arrived, slot) = self.mutex.arrival(guard);
            let ticket = if guard.slot is Some {
                self.tickets[id]
            } else {
                self.base + self.mutex.borrowers.len()
            };
            if guard.slot is Some {
                assert(self.waits(id));
                assert(self.request_inv(id));
            }
            self.lemma_slot(ticket);
            self.lemma_slot(self.base);
            let k = ticket - self.base;
            assert(arrived.position(slot as int) == k);
            assert(next.mutex.borrowers == arrived.borrowers.update(k, next.mutex.borrowers[k]));
            assert(next.tickets[id] == ticket);
            assert forall|t: int| self.queued(t) && t != ticket
                implies #[trigger] next.entry(t) == self.entry(t) by {}
            assert forall|i: int| #[trigger] self.waits(i) && i != id
                implies next.tickets[i] == self.tickets[i] && next.waits(i)
                    && self.tickets[i] != ticket by {
                assert(self.request_inv(i));
            }
            assert forall|i: int| #[trigger] self.guards.dom().contains(i)
                implies self.tickets[i] != ticket && i != id by {
                assert(self.guard_inv(i));
                if guard.slot is None {
                    assert(self.queued(self.base));
                }
            }
            let entry = arrived.entry(slot as int);
            if entry.waiter.awoken {
                assert(entry.ref_acquired);
                assert(k == 0);
                assert(guard.slot is Some);
                assert(next.guards[id].slot == slot);
                assert(slot == self.mutex.front);
                assert(next.guard_inv(id));
                assert forall|i: int| #[trigger] self.guards.dom().contains(i) implies false by {
                    assert(self.guard_inv(i));
                }
                assert(!next.waits(id));
            } else {
                assert(next.waits(id));
                assert(next.request_inv(id));
            }
            assert forall|i: int| #[trigger] next.waits(i) implies next.request_inv(i) by {
                if i != id {
                    assert(self.request_inv(i));
                }
            }
            assert forall|i: int| #[trigger] next.guards.dom().contains(i)
                implies next.guard_inv(i) by {
                if i != id {
                    assert(self.guard_inv(i));
                }
            }
            assert forall|t: int| next.queued(t) && (#[trigger] next.entry(t)).guard_present
                implies next.owned(t) by {
                if t != ticket {
                    assert(self.entry(t).guard_present);
                    assert(self.owned(t));
                } else if guard.slot is Some {
                    assert(self.entry(t).guard_present);
                    assert(self.owned(t));
                }
            }
            assert(next.mutex.wf());
        }
    }

    /// Marking the guard of a request as gone keeps the invariant, once nothing refers to it.
    proof fn lemma_released(self, id: int, next: World<T>)
        requires
            self.inv(),
            self.waits(id) || self.guards.dom().contains(id),
            next == (World {
                mutex: self.mutex.released(counter::slot_of(self.tickets[id], self.mutex.max)),
                requests: next.requests,
                guards: next.guards,
                ..self
            }),
            next.requests == self.requests || next.requests == self.requests.remove(id),
            next.guards == self.guards || next.guards == self.guards.remove(id),
            !next.waits(id),
            !next.guards.dom().contains(id),
        ensures
            next.inv(),
    {
        let ticket = self.tickets[id];
        if self.waits(id) {
            assert(self.request_inv(id));
        } else {
            assert(self.guard_inv(id));
        }
        self.lemma_slot(ticket);
        let k = ticket - self.base;
        assert(next.mutex.borrowers == self.mutex.borrowers.update(
            k,
            BorrowState { guard_present: false, ..self.mutex.borrowers[k] },
        ));
        assert forall|t: int| self.queued(t) && t != ticket
            implies #[trigger] next.entry(t) == self.entry(t) by {}
        assert forall|i: int| #[trigger] next.waits(i)
            implies self.waits(i) && i != id && self.tickets[i] != ticket by {
            assert(self.waits(i));
        }
        assert forall|i: int| #[trigger] next.guards.dom().contains(i)
            implies self.guards.dom().contains(i) && self.tickets[i] != ticket by {
            assert(self.guards.dom().contains(i));
        }
        assert forall|i: int| #[trigger] next.waits(i) implies next.request_inv(i) by {
            assert(self.request_inv(i));
        }
        assert forall|i: int| #[trigger] next.guards.dom().contains(i)
            implies next.guard_inv(i) by {
            assert(self.guard_inv(i));
        }
        assert forall|t: int| next.queued(t) && (#[trigger] next.entry(t)).guard_present
            implies next.owned(t) by {
            assert(t != ticket);
            assert(self.entry(t).guard_present);
            assert(self.owned(t));
        }
    }

    /// The world after a poll of a lend guard, but for what the poll says.
    pub open spec fn after_lend_polled(self, waker: Option<Waker>) -> World<T> {
        World { mutex: self.mutex.lend_polled(waker).0, ..self }
    }

    proof fn lemma_lend_polled(self, waker: Option<Waker>)
        requires
            self.consistent(),
            self.mutex.borrowers.len() > 0,
            self.lending || self.mutex.terminated,
        ensures
            self.after_lend_polled(waker).consistent(),
            self.after_lend_polled(waker).entry(self.base).guard_present == self.entry(
                self.base,
            ).guard_present,
            self.after_lend_polled(waker).entry(self.base).ref_acquired,
            self.mutex.lend_polled(waker).1 ==> !self.entry(self.base).guard_present,
            self.inv() && !self.returned ==> self.mutex.lend_polled(waker).1 == !self.entry(
                self.base,
            ).guard_present,
    {
        let next = self.after_lend_polled(waker);
        assert(self.entry(self.base) == self.mutex.borrowers[0]);
        assert(next.entry(self.base) == next.mutex.borrowers[0]);
        assert forall|t: int| self.queued(t) && t != self.base implies #[trigger] next.entry(t)
            == self.entry(t) by {}
        assert forall|i: int| #[trigger] next.waits(i) implies self.waits(i)
            && next.request_inv(i) by {
            assert(self.waits(i));
            assert(self.request_inv(i));
        }
        assert forall|i: int| #[trigger] next.guards.dom().contains(i)
            implies next.guard_inv(i) by {
            assert(self.guard_inv(i));
        }
        assert forall|t: int| next.queued(t) && (#[trigger] next.entry(t)).guard_present
            implies next.owned(t) by {
            assert(self.entry(t).guard_present);
            assert(self.owned(t));
        }
    }

    proof fn lemma_lend_dropped(self)
        requires
            self.consistent(),
            self.mutex.borrowers.len() > 0,
            self.lending || self.mutex.terminated,
            !self.mutex.still_borrowed(),
            !(self.stage is Draining),
        ensures
            self.after_drop_lend().inv(),
    {
        let next = self.after_drop_lend();
        let first = self.entry(self.base);
        assert(first == self.mutex.borrowers[0]);
        assert forall|i: int| #[trigger] self.guards.dom().contains(i) implies false by {
            assert(self.guard_inv(i));
        }
        self.lemma_slot(self.base + 1);
        assert forall|t: int| next.queued(t) implies self.queued(t) && #[trigger] next.entry(t)
            == self.entry(t) by {}
        assert forall|i: int| #[trigger] next.waits(i) implies self.waits(i)
            && next.request_inv(i) by {
            assert(self.waits(i));
            assert(self.request_inv(i));
        }
        assert forall|t: int| next.queued(t) && (#[trigger] next.entry(t)).guard_present
            implies next.owned(t) by {
            assert(self.entry(t).guard_present);
            assert(self.owned(t));
        }
    }

    /// What is left of the world when a terminated mutex is drained.
    pub open spec fn after_drained(self, waker: Option<Waker>) -> World<T> {
        let (mutex, empty) = self.mutex.drained(waker);
        World {
            mutex,
            base: self.base + self.mutex.borrowers.len() - mutex.borrowers.len(),
            stage: if empty {
                TerminateStage::Finished
            } else {
                TerminateStage::Draining
            },
            ..self
        }
    }

    proof fn lemma_drained(self, waker: Option<Waker>)
        requires
            self.inv(),
            self.mutex.terminated,
            self.stage is Finished,
        ensures
            self.after_drained(waker).inv(),
            self.after_drained(waker).mutex.terminated,
        decreases self.mutex.borrowers.len(),
    {
        if self.mutex.borrowers.len() > 0 {
            let polled = self.after_lend_polled(waker);
            self.lemma_lend_polled(waker);
            if self.mutex.lend_polled(waker).1 {
                assert(polled.entry(self.base) == polled.mutex.borrowers[0]);
                polled.lemma_lend_dropped();
                let dropped = polled.after_drop_lend();
                dropped.lemma_drained(waker);
                assert(self.after_drained(waker) == dropped.after_drained(waker));
            } else {
                assert(self.after_drained(waker) == (World {
                    stage: TerminateStage::Draining,
                    ..polled
                }));
                let next = self.after_drained(waker);
                assert forall|i: int| #[trigger] next.waits(i) implies polled.waits(i)
                    && next.request_inv(i) by {
                    assert(polled.waits(i));
                    assert(polled.request_inv(i));
                }
                assert forall|i: int| #[trigger] next.guards.dom().contains(i) implies
                    next.guard_inv(i) by {
                    assert(polled.guard_inv(i));
                }
                assert forall|t: int| next.queued(t) && (#[trigger] next.entry(t)).guard_present
                    implies next.owned(t) by {
                    assert(polled.entry(t).guard_present);
                    assert(polled.owned(t));
                }
            }
        }
    }

    /// Only what nobody refers to changes.
    proof fn lemma_same_requests(self, next: World<T>)
        requires
            self.consistent(),
            next.mutex.wf(),
            next.mutex.front == self.mutex.front,
            next.mutex.max == self.mutex.max,
            next.mutex.borrowers == self.mutex.borrowers,
            next.mutex.inner_ref == self.mutex.inner_ref || self.mutex.inner_ref is None,
            next.base == self.base,
            next.guards == self.guards,
            next.tickets == self.tickets,
            next.owner == self.owner,
            next.lending == next.mutex.lender_present,
            next.returned ==> next.lending && !self.entry(self.base).guard_present,
            next.mutex.has_termination(next.stage),
            forall|id: int| #[trigger] next.waits(id) <==> self.waits(id),
            forall|id: int| #[trigger]
                next.waits(id) ==> next.requests[id].slot == self.requests[id].slot,
            forall|id: int| #[trigger]
                next.requests.dom().contains(id) && self.guards.dom().contains(id)
                    ==> self.requests.dom().contains(id) && next.requests[id]
                    == self.requests[id],
        ensures
            next.consistent(),
    {
        assert forall|i: int| #[trigger] next.waits(i) implies next.request_inv(i) by {
            assert(self.waits(i));
            assert(self.request_inv(i));
        }
        assert forall|i: int| #[trigger] next.guards.dom().contains(i)
            implies next.guard_inv(i) by {
            assert(self.guard_inv(i));
        }
        assert forall|t: int| next.queued(t) && (#[trigger] next.entry(t)).guard_present
            implies next.owned(t) by {
            assert(self.entry(t).guard_present);
            assert(self.owned(t));
            assert(next.waits(self.owner[t]) == self.waits(self.owner[t]));
        }
    }
}

/// The world after a sequence of events on a new mutex that takes `max` requests.
pub open spec fn run<T>(max: int, events: Seq<Event<T>>) -> World<T>
    decreases events.len(),
{
    if events.len() == 0 {
        World::init(max)
    } else {
        run(max, events.drop_last()).after(events.last())
    }
}

/// Each of the events could happen when it did.
pub open spec fn feasible<T>(max: int, events: Seq<Event<T>>) -> bool
    decreases events.len(),
{
    events.len() == 0 || {
        &&& feasible(max, events.drop_last())
        &&& run(max, events.drop_last()).enabled(events.last())
    }
}

/// Every event keeps the invariant.
pub proof fn law_step<T>(world: World<T>, event: Event<T>)
    requires
        world.inv(),
        world.enabled(event),
    ensures
        world.after(event).inv(),
{
    let next = world.after(event);
    match event {
        Event::Request { id } => {
            assert forall|i: int| #[trigger] next.waits(i) <==> world.waits(i) by {}
            world.lemma_same_requests(next);
        },
        Event::PollRequest { id, waker } => {
            world.lemma_poll_request(id, waker);
        },
        Event::DropRequest { id } => {
            if world.waits(id) {
                assert(world.request_inv(id));
                assert(!next.guards.dom().contains(id)) by {
                    if world.guards.dom().contains(id) {
                        assert(world.tickets[id] != world.tickets[id]);
                    }
                }
                world.lemma_released(id, next);
            } else {
                assert forall|i: int| #[trigger] next.waits(i) <==> world.waits(i) by {}
                world.lemma_same_requests(next);
            }
        },
        Event::DropGuard { id } => {
            assert(world.guard_inv(id));
            assert(!next.waits(id)) by {
                if world.waits(id) {
                    assert(world.tickets[id] != world.tickets[id]);
                }
            }
            world.lemma_released(id, next);
        },
        Event::PollLender { .. } => {
            assert forall|i: int| #[trigger] next.waits(i) <==> world.waits(i) by {}
            world.lemma_same_requests(next);
        },
        Event::Lend { .. } => {
            assert forall|i: int| #[trigger] next.waits(i) <==> world.waits(i) by {}
            world.lemma_same_requests(next);
        },
        Event::PollLend { waker } => {
            world.lemma_lend_polled(waker);
            let polled = world.after_lend_polled(waker);
            assert forall|i: int| #[trigger] next.waits(i) <==> polled.waits(i) by {}
            polled.lemma_same_requests(next);
        },
        Event::DropLend => {
            world.lemma_lend_dropped();
        },
        Event::PollTerminate { waker } => {
            if world.stage is Unstarted && world.mutex.terminated {
                assert forall|i: int| #[trigger] next.waits(i) <==> world.waits(i) by {}
                world.lemma_same_requests(next);
            } else {
                let begun = World {
                    mutex: MutexState { terminated: true, ..world.mutex },
                    stage: TerminateStage::Finished,
                    ..world
                };
                assert forall|i: int| #[trigger] begun.waits(i) <==> world.waits(i) by {}
                world.lemma_same_requests(begun);
                begun.lemma_drained(waker);
                assert(next == begun.after_drained(waker));
            }
        },
        Event::PollTerminateAgain { .. } => {
            assert(next == world);
        },
        Event::DropTerminate => {
            if world.stage is Draining {
                let ended = World { stage: TerminateStage::Finished, ..world };
                assert forall|i: int| #[trigger] ended.waits(i) <==> world.waits(i) by {}
                world.lemma_same_requests(ended);
                ended.lemma_lend_dropped();
                assert(next == ended.after_drop_lend());
            }
        },
    }
}

/// Every order of events keeps the invariant, from a new mutex on.
pub proof fn law_every_run<T>(max: int, events: Seq<Event<T>>)
    requires
        counter::valid_size(max),
        max <= usize::MAX,
        feasible(max, events),
    ensures
        run(max, events).inv(),
    decreases events.len(),
{
    if events.len() == 0 {
        vstd::arithmetic::div_mod::lemma_small_mod(0, max as nat);
    } else {
        law_every_run(max, events.drop_last());
        law_step(run(max, events.drop_last()), events.last());
    }
}

/// At most one side has the reference. There is at most one borrowed reference; it is the one
/// that is lended; and as long as it is there, the lender waits: its poll is not over, and
/// dropping its guard instead is refused.
pub proof fn law_exclusive<T>(world: World<T>, i: int, j: int, waker: Option<Waker>)
    requires
        world.inv(),
        world.guards.dom().contains(i),
    ensures
        world.guards.dom().contains(j) ==> i == j,
        world.lending,
        world.mutex.inner_ref == Some(world.guards[i].inner_ref),
        !world.returned,
        !world.mutex.lend_polled(waker).1,
        world.mutex.still_borrowed(),
        !world.enabled(Event::DropLend),
{
    assert(world.guard_inv(i));
    assert(world.entry(world.base) == world.mutex.borrowers[0]);
}

/// Requests are served in the order in which they were queued: a request that gets the
/// reference has the oldest ticket in the queue, and one that is queued gets a ticket after all
/// those that wait.
pub proof fn law_fifo<T>(world: World<T>, id: int, other: int, waker: Option<Waker>)
    requires
        world.inv(),
        world.requests.dom().contains(id),
    ensures
        world.mutex.unarmed_polled(world.requests[id], waker).2 matches Poll::Ready(Ok(armed)) ==> {
            &&& world.tickets[id] == world.base
            &&& world.mutex.inner_ref == Some(armed.inner_ref)
            &&& world.waits(other) ==> world.tickets[id] <= world.tickets[other]
        },
        world.waits(other) && !world.waits(id) && world.after_poll_request(id, waker).waits(id)
            ==> world.tickets[other] < world.after_poll_request(id, waker).tickets[id],
{
    if world.waits(other) {
        assert(world.request_inv(other));
    }
    if world.waits(id) {
        assert(world.request_inv(id));
        world.lemma_slot(world.tickets[id]);
    } else if world.mutex.admits(world.requests[id]) {
        world.lemma_slot(world.base + world.mutex.borrowers.len());
    }
}

/// The reference can be borrowed only while the lender waits: it is lended, it was offered to
/// the request by a poll of the lend guard, and the lender has not been told that the borrow is
/// over.
pub proof fn law_borrow_only_while_lended<T>(world: World<T>, id: int, waker: Option<Waker>)
    requires
        world.inv(),
        world.requests.dom().contains(id),
        world.mutex.unarmed_polled(world.requests[id], waker).2 matches Poll::Ready(Ok(_)),
    ensures
        world.lending,
        !world.returned,
        world.entry(world.tickets[id]).ref_acquired,
{
    if world.waits(id) {
        assert(world.request_inv(id));
        world.lemma_slot(world.tickets[id]);
    } else {
        world.lemma_slot(world.base + world.mutex.borrowers.len());
    }
}

/// A request that was not offered the reference stays in the queue when the lender drops its
/// guard, and that is not refused.
pub proof fn law_unoffered_request_stays<T>(world: World<T>, id: int)
    requires
        world.inv(),
        world.lending,
        world.waits(id),
        !world.entry(world.base).ref_acquired,
        world.entry(world.base).guard_present,
    ensures
        world.enabled(Event::DropLend),
        world.after(Event::DropLend).waits(id),
        world.after(Event::DropLend).mutex == world.mutex.unlended(),
{
    assert(world.entry(world.base) == world.mutex.borrowers[0]);
}

/// A request that was offered the reference gets it when it is polled.
pub proof fn law_offer_is_kept<T>(world: World<T>, id: int, waker: Option<Waker>)
    requires
        world.inv(),
        world.waits(id),
        world.entry(world.tickets[id]).ref_acquired,
        !world.mutex.terminated,
    ensures
        world.mutex.unarmed_polled(world.requests[id], waker).2 matches Poll::Ready(Ok(armed))
            && world.mutex.inner_ref == Some(armed.inner_ref),
{
    assert(world.request_inv(id));
    world.lemma_slot(world.tickets[id]);
}

/// A poll of the lend guard offers the reference to the oldest request.
pub proof fn law_lend_offers<T>(world: World<T>, waker: Option<Waker>)
    requires
        world.inv(),
        world.enabled(Event::PollLend { waker }),
    ensures
        world.after(Event::PollLend { waker }).entry(world.base).ref_acquired,
{
    world.lemma_lend_polled(waker);
}

/// The lender gets its reference back: once the guard of the request that it lends to is gone,
/// the next poll is over, and dropping the lend guard is not refused.
pub proof fn law_lender_resumes<T>(world: World<T>, waker: Option<Waker>)
    requires
        world.inv(),
        world.lending,
        !world.entry(world.base).guard_present,
    ensures
        !world.returned ==> world.mutex.lend_polled(waker).1,
        world.enabled(Event::DropLend),
        !world.after(Event::DropLend).mutex.lender_present,
{
    if !world.returned {
        world.lemma_lend_polled(waker);
    }
    assert(world.entry(world.base) == world.mutex.borrowers[0]);
}

/// A queued entry whose guard is still there has an owner: a request that waits, or the
/// borrowed reference. So the lender never waits for a borrower that nobody holds.
pub proof fn law_entries_have_owners<T>(world: World<T>, ticket: int)
    requires
        world.inv(),
        world.queued(ticket),
        world.entry(ticket).guard_present,
    ensures
        world.waits(world.owner[ticket]) || world.guards.dom().contains(world.owner[ticket]),
        world.tickets[world.owner[ticket]] == ticket,
{
    assert(world.owned(ticket));
}

/// Only a poll of a termination changes the termination flag, and that sets it: asking, lending,
/// and polling or dropping a request, a borrowed reference or a lend guard leave the flag as it
/// was, and so does giving a termination up.
pub proof fn law_only_termination_terminates<T>(world: World<T>, event: Event<T>)
    requires
        world.inv(),
        world.enabled(event),
    ensures
        !(event is PollTerminate) ==> world.after(event).mutex.terminated
            == world.mutex.terminated,
        event is PollTerminate ==> world.after(event).mutex.terminated,
{
    if let Event::PollTerminate { waker } = event {
        calls::law_terminate_terminates(
            world.mutex,
            world.stage,
            waker,
            UnarmedState { slot: None, spent: false },
            None,
        );
    }
}

/// A request that is queued waits until the reference is offered to it, as long as the mutex is not
/// terminated: a poll neither fails nor succeeds before, and leaves it where it is.
pub proof fn law_waits_until_offered<T>(world: World<T>, id: int, waker: Option<Waker>)
    requires
        world.inv(),
        world.waits(id),
        !world.mutex.terminated,
        !world.entry(world.tickets[id]).ref_acquired,
    ensures
        world.mutex.unarmed_polled(world.requests[id], waker).2 is Pending,
        world.after_poll_request(id, waker).waits(id),
        world.after_poll_request(id, waker).tickets[id] == world.tickets[id],
{
    assert(world.request_inv(id));
    world.lemma_slot(world.tickets[id]);
}

/// When the lender is done with the oldest request, the others go on waiting, in their order, on a
/// mutex that is no more terminated than before; and the next reference goes to the oldest of them.
pub proof fn law_next_in_line<T>(world: World<T>, id: int, value: T, waker: Option<Waker>)
    requires
        world.inv(),
        world.lending,
        !world.entry(world.base).guard_present,
        world.waits(id),
    ensures
        ({
            let next = world.after(Event::DropLend);
            let (_, lended) = next.mutex.lend_called(value);
            &&& world.enabled(Event::DropLend)
            &&& next.waits(id)
            &&& next.tickets[id] == world.tickets[id]
            &&& next.mutex.unarmed_polled(next.requests[id], waker).2 is Pending
            &&& lended matches Ok(Some(slot))
            &&& next.tickets[id] == world.base + 1 ==> next.requests[id].slot == Some(
                slot as usize,
            )
            &&& next.entry(world.base + 1) == world.entry(world.base + 1)
        }),
{
    let next = world.after(Event::DropLend);
    assert(world.request_inv(id));
    assert(world.entry(world.base) == world.mutex.borrowers[0]);
    law_step(world, Event::DropLend);
    assert(next.waits(id));
    assert(next.request_inv(id));
    assert(next.entry(next.tickets[id]) == world.entry(world.tickets[id]));
    law_waits_until_offered(next, id, waker);
    next.lemma_slot(next.base);
}

/// What there is in a world belongs to its mutex: every request that waits, the borrowed reference,
/// the lend guard and the termination can be polled and dropped.
pub proof fn law_belongs<T>(world: World<T>, id: int)
    requires
        world.inv(),
    ensures
        world.mutex.wf(),
        world.requests.dom().contains(id) ==> world.mutex.has_unarmed(world.requests[id]),
        world.guards.dom().contains(id) ==> world.mutex.holds(world.guards[id].slot as int),
        world.lending ==> world.mutex.has_lend(world.mutex.front),
        world.mutex.has_termination(world.stage),
{
    world.lemma_slot(world.base);
    if world.waits(id) {
        assert(world.request_inv(id));
        world.lemma_slot(world.tickets[id]);
    }
    if world.guards.dom().contains(id) {
        assert(world.guard_inv(id));
    }
}

/// Termination is final, and every request, pending or yet to come, fails with it.
pub proof fn law_terminated<T>(
    world: World<T>,
    event: Event<T>,
    guard: UnarmedState,
    waker: Option<Waker>,
)
    requires
        world.inv(),
        world.enabled(event),
        world.mutex.terminated,
    ensures
        world.after(event).mutex.terminated,
        world.mutex.unarmed_polled(guard, waker).2 == Poll::<
            Result<ArmedState<T>, BorrowMutexError>,
        >::Ready(Err(BorrowMutexError::Terminated)),
        world.mutex.unarmed_polled(guard, waker).0 == world.mutex,
{
    if let Event::PollTerminate { waker } = event {
        let begun = World { stage: TerminateStage::Finished, ..world };
        assert forall|i: int| #[trigger] begun.waits(i) <==> world.waits(i) by {}
        world.lemma_same_requests(begun);
        begun.lemma_drained(waker);
        if !(world.stage is Unstarted) {
            assert(MutexState { terminated: true, ..world.mutex } == world.mutex);
            assert(world.after(event).mutex == begun.after_drained(waker).mutex);
        }
    }
}

/// A termination that is first polled after another one has begun is over at once, and changes
/// nothing.
pub proof fn law_terminate_again<T>(world: World<T>, waker: Option<Waker>)
    requires
        world.mutex.terminated,
    ensures
        world.mutex.terminate_polled(TerminateStage::Unstarted, waker) == (
            world.mutex,
            TerminateStage::Finished,
            Poll::<Result<(), BorrowMutexAbort>>::Ready(Ok(())),
        ),
        world.after(Event::PollTerminateAgain { waker }) == world,
{
}

/// What a terminated mutex that is drained keeps of its requests.
proof fn lemma_requests_drained<T>(mutex: MutexState<T>, waker: Option<Waker>)
    ensures
        ({
            let (after, empty) = mutex.drained(waker);
            let gone = mutex.borrowers.len() - after.borrowers.len();
            &&& gone >= 0
            &&& empty <==> after.borrowers.len() == 0
            &&& forall|k: int| 0 <= k < gone ==> !(#[trigger] mutex.borrowers[k]).guard_present
            &&& forall|k: int|
                0 < k < after.borrowers.len() ==> #[trigger] after.borrowers[k]
                    == mutex.borrowers[gone + k]
            &&& !empty ==> {
                &&& after.borrowers[0].guard_present == mutex.borrowers[gone].guard_present
                &&& after.borrowers[0].ref_acquired
            }
        }),
    decreases mutex.borrowers.len(),
{
    if mutex.borrowers.len() > 0 {
        let (polled, ready) = mutex.lend_polled(waker);
        if ready {
            let dropped = polled.lend_dropped();
            lemma_requests_drained(dropped, waker);
            assert forall|k: int| 0 < k < mutex.borrowers.len() implies #[trigger]
                mutex.borrowers[k] == dropped.borrowers[k - 1] by {}
        }
    }
}

/// Only requests that were dropped leave a mutex that is terminated, oldest first: those that are
/// still held stay, in their order, and only the first that is left is touched: it was told. A
/// poll of the termination is over if and only if none is left. (One that is first polled after
/// another has begun does not wait, and one that finds a reference lended ends the process.)
pub proof fn law_only_dropped_requests_leave<T>(
    mutex: MutexState<T>,
    stage: TerminateStage,
    waker: Option<Waker>,
)
    requires
        stage is Unstarted ==> !mutex.terminated && !mutex.lender_present,
    ensures
        ({
            let (after, _, polled) = mutex.terminate_polled(stage, waker);
            let gone = mutex.borrowers.len() - after.borrowers.len();
            &&& gone >= 0
            &&& polled == Poll::<Result<(), BorrowMutexAbort>>::Ready(Ok(()))
                <==> after.borrowers.len() == 0
            &&& polled is Pending <==> after.borrowers.len() > 0
            &&& forall|k: int| 0 <= k < gone ==> !(#[trigger] mutex.borrowers[k]).guard_present
            &&& forall|k: int|
                0 < k < after.borrowers.len() ==> #[trigger] after.borrowers[k]
                    == mutex.borrowers[gone + k]
            &&& polled is Pending ==> {
                &&& after.borrowers[0].guard_present == mutex.borrowers[gone].guard_present
                &&& after.borrowers[0].ref_acquired
            }
        }),
{
    lemma_requests_drained(MutexState { terminated: true, ..mutex }, waker);
}

/// A termination comes to its end once every pending request was dropped.
pub proof fn law_termination_ends<T>(world: World<T>, waker: Option<Waker>)
    requires
        world.inv(),
        world.mutex.terminated,
        forall|ticket: int|
            world.queued(ticket) ==> !(#[trigger] world.entry(ticket)).guard_present,
    ensures
        world.mutex.drained(waker).1,
    decreases world.mutex.borrowers.len(),
{
    if world.mutex.borrowers.len() > 0 {
        let begun = World { stage: TerminateStage::Finished, ..world };
        assert forall|i: int| #[trigger] begun.waits(i) <==> world.waits(i) by {}
        world.lemma_same_requests(begun);
        assert(begun.entry(begun.base) == world.entry(world.base));
        assert(!world.entry(world.base).guard_present);
        begun.lemma_lend_polled(waker);
        let polled = begun.after_lend_polled(waker);
        assert(polled.entry(polled.base) == polled.mutex.borrowers[0]);
        polled.lemma_lend_dropped();
        let dropped = polled.after_drop_lend();
        assert forall|t: int| dropped.queued(t) implies !(#[trigger] dropped.entry(
            t,
        )).guard_present by {
            assert(dropped.entry(t) == world.entry(t));
        }
        law_termination_ends(dropped, waker);
    }
}

} // verus!
