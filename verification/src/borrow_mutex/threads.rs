//! What holds of a mutex that any number of tasks use at once, whatever the order of their
//! accesses.
//!
//! A [`World`] is a mutex with everything that was made from it and the operations under way on
//! it. An event is one access of one of them, so a sequence of events is one interleaving. As in
//! [`crate::borrow_mutex::interleaving`], the world gives out tickets that no operation reads.
//!
//! Any number of tasks may ask for the reference, wait for requests, lend and terminate at once.
//! Two laws are about runs in which the waiter of the lender serves one purpose at a time, as it
//! holds one waker: that a lender is woken when its reference is given back, and that it is woken
//! for a request.

use crate::borrow_mutex::steps::{
    lend_next, lender_next, offer_next, release_next, request_next, take_back_next,
    terminate_next, LendStep, LenderStep, OfferStep, ReleaseStep, RequestOp, RequestStep,
    TakeBackStep, TerminateStep,
};
use crate::borrow_mutex::{ArmedState, BorrowMutexError, BorrowState, MutexState, UnarmedState};
use crate::counter;
use core::task::Waker;
use vstd::prelude::*;

verus! {

/// One that asks for the reference, has it, or is giving it back.
pub enum Party<T> {
    /// A request, and its latest poll.
    Request { op: RequestOp<T> },
    /// A borrowed reference.
    Armed { guard: ArmedState<T> },
    /// A guard that is being dropped.
    Leaving { step: ReleaseStep },
}

impl<T> Party<T> {
    /// The slot of the queue entry that the party keeps in its place.
    pub open spec fn slot(self) -> Option<usize> {
        match self {
            Party::Request { op } => if op.guard.spent {
                None
            } else {
                op.guard.slot
            },
            Party::Armed { guard } => Some(guard.slot),
            Party::Leaving { step } => match step {
                ReleaseStep::StoreGone { slot } => Some(slot),
                _ => None,
            },
        }
    }

    /// A poll knows the slot that it works on, and only then has one.
    pub open spec fn step_fits(self) -> bool {
        self matches Party::Request { op } ==> match op.step {
            RequestStep::Push => op.guard.slot is None && !op.guard.spent,
            RequestStep::WakeLender { slot }
            | RequestStep::PollEntry { slot }
            | RequestStep::CheckAgain { slot }
            | RequestStep::LoadLended { slot }
            | RequestStep::ReadRef { slot } => op.guard.slot == Some(slot) && !op.guard.spent,
            _ => !(op.step is Armed),
        }
    }

    /// The party waits, or will do so if it finds its waiter not woken.
    pub open spec fn listens(self) -> bool {
        self matches Party::Request { op } && (op.step is WakeLender || op.step is PollEntry
            || op.step is CheckAgain || op.step is Pending)
    }

    /// The party has found its waiter woken, and is on its way to the reference.
    pub open spec fn claims(self) -> bool {
        self matches Party::Request { op } && (op.step is LoadLended || op.step is ReadRef)
    }
}

/// A call that lends a reference.
pub struct LendCall<T> {
    pub value: T,
    pub step: LendStep,
}

impl<T> LendCall<T> {
    /// The call has set the flag that a lender is present, and is not over.
    pub open spec fn active(self) -> bool {
        !(self.step is SwapPresent) && !self.step.is_finished()
    }
}

/// The lend guard: that of the lender, or the one that the termination makes.
pub enum Guard {
    Absent,
    /// Nothing is done to it; `returned` says that its latest poll was over.
    Resting { slot: usize, returned: bool },
    Offering { slot: usize, offer: OfferStep },
    TakingBack { slot: usize, step: TakeBackStep },
}

impl Guard {
    /// The oldest request is the one that the guard is for.
    pub open spec fn pins(self) -> bool {
        !(self is Absent) && !(self matches Guard::TakingBack { step, .. } && step is ClearPresent)
    }

    pub open spec fn slot(self) -> usize {
        match self {
            Guard::Resting { slot, .. } => slot,
            Guard::Offering { slot, .. } => slot,
            Guard::TakingBack { slot, .. } => slot,
            Guard::Absent => 0,
        }
    }

    /// The guard still keeps the lended flag set.
    pub open spec fn keeps_lended(self) -> bool {
        self matches Guard::TakingBack { step, .. } ==> step is LoadGuard || step is LoadAcquired
            || step is ClearLended
    }

    /// The guard still keeps the reference in its place.
    pub open spec fn keeps_ref(self) -> bool {
        self.keeps_lended() || (self matches Guard::TakingBack { step, .. } && step is ClearRef)
    }

    /// The borrower is marked, and about to be woken.
    pub open spec fn wakes(self) -> bool {
        self matches Guard::Offering { offer, .. } && offer is WakeBorrower
    }

    /// The guard waits to be told that the borrow is over, or is about to wait.
    pub open spec fn listens(self) -> bool {
        match self {
            Guard::Resting { returned, .. } => !returned,
            Guard::Offering { offer, .. } => offer is SwapAcquired || offer is PollWaiter,
            _ => false,
        }
    }
}

pub struct World<T> {
    pub mutex: MutexState<T>,
    /// The ticket of the oldest request, or of the next one to come where there is none.
    pub base: int,
    /// The parties, by numbers of their own.
    pub parties: Map<int, Party<T>>,
    /// The ticket that each party was queued with.
    pub tickets: Map<int, int>,
    /// The party that each ticket was given to.
    pub owner: Map<int, int>,
    /// Every call that lends, by a number of its own.
    pub lends: Map<int, LendCall<T>>,
    /// The call that has the mutex to itself.
    pub holder: Option<int>,
    /// The latest poll for a request of each task that waits for one.
    pub lenders: Map<int, LenderStep>,
    /// The task that was told last to wait for a request, unless another such poll has begun or
    /// a lend guard has polled the waiter of the lender since.
    pub waiting: Option<int>,
    pub guard: Guard,
    /// Every termination, by a number of its own.
    pub terminations: Map<int, TerminateStep>,
    /// The termination that has set the termination flag.
    pub terminator: Option<int>,
}

pub enum Event<T> {
    Request { id: int },
    BeginPoll { id: int },
    /// A request makes its next access; `waker` is what a poll of its waiter leaves registered,
    /// and `refused` is a refusal of the queue while a request is leaving it.
    Poll { id: int, waker: Option<Waker>, refused: bool },
    /// A request or a borrowed reference begins to be dropped.
    Drop { id: int },
    Release { id: int },
    /// A task begins to poll for a request.
    BeginLenderPoll { id: int },
    LenderPoll { id: int, waker: Option<Waker> },
    BeginLend { id: int, value: T },
    Lend { id: int },
    BeginOffer,
    Offer { waker: Option<Waker> },
    BeginTakeBack,
    TakeBack,
    BeginTerminate { id: int },
    Terminate { id: int },
}

impl<T> World<T> {
    /// A new mutex that takes `max` requests.
    pub open spec fn init(max: int) -> World<T> {
        World {
            mutex: MutexState::init(max),
            base: 0,
            parties: Map::empty(),
            tickets: Map::empty(),
            owner: Map::empty(),
            lends: Map::empty(),
            holder: None,
            lenders: Map::empty(),
            waiting: None,
            guard: Guard::Absent,
            terminations: Map::empty(),
            terminator: None,
        }
    }

    /// How far the termination that has set the termination flag has come.
    pub open spec fn termination(self) -> Option<TerminateStep> {
        match self.terminator {
            Some(id) => Some(self.terminations[id]),
            None => None,
        }
    }

    /// The termination made the lend guard.
    pub open spec fn draining(self) -> bool {
        self.termination() matches Some(step) && step is Drain
    }

    /// The lender has a lend guard.
    pub open spec fn lending(self) -> bool {
        !(self.guard is Absent) && !self.draining()
    }

    /// The event can happen, and does not end the process.
    pub open spec fn enabled(self, event: Event<T>) -> bool {
        match event {
            Event::Request { id } => !self.parties.dom().contains(id),
            Event::BeginPoll { id } => self.parties.dom().contains(id) && (
            self.parties[id] matches Party::Request { op } && op.step.is_finished()),
            Event::Poll { id, .. } => self.parties.dom().contains(id) && (
            self.parties[id] matches Party::Request { op } && !op.step.is_finished()),
            Event::Drop { id } => self.parties.dom().contains(id) && match self.parties[id] {
                Party::Request { op } => op.step.is_finished(),
                Party::Armed { .. } => true,
                Party::Leaving { .. } => false,
            },
            Event::Release { id } => self.parties.dom().contains(id)
                && self.parties[id] is Leaving,
            Event::BeginLenderPoll { id } => !self.polling(id),
            Event::LenderPoll { id, .. } => self.polling(id),
            Event::BeginLend { id, .. } => !self.lends.dom().contains(id),
            Event::Lend { id } => self.lends.dom().contains(id) && !(lend_next(
                self.mutex,
                self.lends[id].value,
                self.lends[id].step,
            ).1 is Aborted),
            Event::BeginOffer => self.guard matches Guard::Resting { returned, .. } && !returned,
            Event::Offer { .. } => self.guard is Offering,
            Event::BeginTakeBack => self.guard is Resting,
            Event::TakeBack => self.guard matches Guard::TakingBack { slot, step } && !(
            take_back_next(self.mutex, slot, step).1 is Aborted),
            Event::BeginTerminate { id } => !self.terminations.dom().contains(id),
            Event::Terminate { id } => self.terminations.dom().contains(id) && !(terminate_next(
                self.mutex,
                self.terminations[id],
            ).1 is Aborted),
        }
    }

    pub open spec fn after_poll(self, id: int, waker: Option<Waker>, refused: bool) -> World<T> {
        let op = self.parties[id]->op;
        let (mutex, next) = request_next(self.mutex, op, waker, refused);
        let ticket = self.base + self.mutex.borrowers.len();
        let queued = op.step is Push && next.step is WakeLender;
        World {
            mutex,
            parties: self.parties.insert(
                id,
                match next.step {
                    RequestStep::Armed { guard } => Party::Armed { guard },
                    _ => Party::Request { op: next },
                },
            ),
            tickets: if queued {
                self.tickets.insert(id, ticket)
            } else {
                self.tickets
            },
            owner: if queued {
                self.owner.insert(ticket, id)
            } else {
                self.owner
            },
            ..self
        }
    }

    pub open spec fn after_drop(self, id: int) -> World<T> {
        World {
            parties: match self.parties[id].slot() {
                Some(slot) => self.parties.insert(
                    id,
                    Party::Leaving { step: ReleaseStep::StoreGone { slot } },
                ),
                None => self.parties.remove(id),
            },
            ..self
        }
    }

    pub open spec fn after_release(self, id: int) -> World<T> {
        let (mutex, step) = release_next(self.mutex, self.parties[id]->step);
        World {
            mutex,
            parties: if step is Done {
                self.parties.remove(id)
            } else {
                self.parties.insert(id, Party::Leaving { step })
            },
            ..self
        }
    }

    pub open spec fn after_lend(self, id: int) -> World<T> {
        let call = self.lends[id];
        let (mutex, step) = lend_next(self.mutex, call.value, call.step);
        let next = LendCall { value: call.value, step };
        World {
            mutex,
            lends: self.lends.insert(id, next),
            holder: if next.active() {
                Some(id)
            } else if call.active() {
                None
            } else {
                self.holder
            },
            guard: match step {
                LendStep::Lended { slot } if call.active() => Guard::Resting {
                    slot,
                    returned: false,
                },
                _ => self.guard,
            },
            ..self
        }
    }

    pub open spec fn after_offer(self, waker: Option<Waker>) -> World<T> {
        let slot = self.guard.slot();
        let step = self.guard->offer;
        let (mutex, next) = offer_next(self.mutex, slot, step, waker);
        World {
            mutex,
            guard: if next.is_finished() {
                Guard::Resting { slot, returned: next is Ready }
            } else {
                Guard::Offering { slot, offer: next }
            },
            waiting: if step is PollWaiter {
                None
            } else {
                self.waiting
            },
            ..self
        }
    }

    pub open spec fn after_take_back(self) -> World<T> {
        let slot = self.guard.slot();
        let step = self.guard->step;
        let (mutex, next) = take_back_next(self.mutex, slot, step);
        World {
            mutex,
            base: if step is Pop {
                self.base + 1
            } else {
                self.base
            },
            guard: if next.is_finished() {
                Guard::Absent
            } else {
                Guard::TakingBack { slot, step: next }
            },
            terminations: if next.is_finished() && self.draining() {
                self.terminations.insert(self.terminator->0, TerminateStep::Peek)
            } else {
                self.terminations
            },
            ..self
        }
    }

    pub open spec fn after_lender_poll(self, id: int, waker: Option<Waker>) -> World<T> {
        let (mutex, step) = lender_next(self.mutex, self.lenders[id], waker);
        World {
            mutex,
            lenders: self.lenders.insert(id, step),
            waiting: if step is Pending {
                Some(id)
            } else {
                self.waiting
            },
            ..self
        }
    }

    pub open spec fn after_terminate(self, id: int) -> World<T> {
        let step = self.terminations[id];
        let (mutex, next) = terminate_next(self.mutex, step);
        World {
            mutex,
            terminations: self.terminations.insert(id, next),
            terminator: if next is LoadPresent {
                Some(id)
            } else {
                self.terminator
            },
            guard: match next {
                TerminateStep::Drain { slot } if !(step is Drain) => Guard::Resting {
                    slot,
                    returned: false,
                },
                _ => self.guard,
            },
            ..self
        }
    }

    pub open spec fn after(self, event: Event<T>) -> World<T> {
        match event {
            Event::Request { id } => World {
                parties: self.parties.insert(
                    id,
                    Party::Request {
                        op: RequestOp {
                            guard: UnarmedState { slot: None, spent: false },
                            step: RequestStep::Pending,
                        },
                    },
                ),
                ..self
            },
            Event::BeginPoll { id } => World {
                parties: self.parties.insert(
                    id,
                    Party::Request { op: RequestOp::begun(self.parties[id]->op.guard) },
                ),
                ..self
            },
            Event::Poll { id, waker, refused } => self.after_poll(id, waker, refused),
            Event::Drop { id } => self.after_drop(id),
            Event::Release { id } => self.after_release(id),
            Event::BeginLenderPoll { id } => World {
                lenders: self.lenders.insert(id, LenderStep::CheckQueue),
                waiting: None,
                ..self
            },
            Event::LenderPoll { id, waker } => self.after_lender_poll(id, waker),
            Event::BeginLend { id, value } => World {
                lends: self.lends.insert(id, LendCall { value, step: LendStep::SwapPresent }),
                ..self
            },
            Event::Lend { id } => self.after_lend(id),
            Event::BeginOffer => World {
                guard: Guard::Offering {
                    slot: self.guard.slot(),
                    offer: OfferStep::SwapAcquired,
                },
                ..self
            },
            Event::Offer { waker } => self.after_offer(waker),
            Event::BeginTakeBack => World {
                guard: Guard::TakingBack {
                    slot: self.guard.slot(),
                    step: TakeBackStep::LoadGuard,
                },
                ..self
            },
            Event::TakeBack => self.after_take_back(),
            Event::BeginTerminate { id } => World {
                terminations: self.terminations.insert(id, TerminateStep::SwapTerminated),
                ..self
            },
            Event::Terminate { id } => self.after_terminate(id),
        }
    }

    /// The party keeps a queue entry in its place.
    pub open spec fn holds(self, id: int) -> bool {
        self.parties.dom().contains(id) && self.parties[id].slot() is Some
    }

    /// The ticket is in the queue.
    pub open spec fn queued(self, ticket: int) -> bool {
        self.base <= ticket < self.base + self.mutex.borrowers.len()
    }

    /// The queue entry with a ticket.
    pub open spec fn entry(self, ticket: int) -> BorrowState {
        self.mutex.borrowers[ticket - self.base]
    }

    /// The queue entry of the oldest request.
    pub open spec fn first(self) -> BorrowState {
        self.mutex.borrowers[0]
    }

    /// A party has marked its guard as gone, and is about to wake the lender.
    pub open spec fn tells(self, id: int) -> bool {
        &&& self.parties.dom().contains(id)
        &&& self.parties[id] matches Party::Leaving { step } && step is WakeLender
    }

    /// A request was just queued, and is about to wake the lender.
    pub open spec fn calls(self, id: int) -> bool {
        &&& self.parties.dom().contains(id)
        &&& self.parties[id] matches Party::Request { op } && op.step is WakeLender
    }

    /// A request is about to read the lended reference.
    pub open spec fn reads_ref(self, id: int) -> bool {
        &&& self.parties.dom().contains(id)
        &&& self.parties[id] matches Party::Request { op } && op.step is ReadRef
    }

    /// A call is about to write the lended reference.
    pub open spec fn writes_ref(self, id: int) -> bool {
        &&& self.lends.dom().contains(id)
        &&& self.lends[id].step is WriteRef || self.lends[id].step is ClearRef
    }

    /// The lend guard is about to clear the lended reference.
    pub open spec fn clears_ref(self) -> bool {
        self.guard matches Guard::TakingBack { step, .. } && step is ClearRef
    }

    /// The task polls for a request, and the poll is not over.
    pub open spec fn polling(self, id: int) -> bool {
        self.lenders.dom().contains(id) && !self.lenders[id].is_finished()
    }

    /// The poll for a request has found none, and is about to poll the waiter of the lender.
    pub open spec fn listens(self, id: int) -> bool {
        self.polling(id) && self.lenders[id] is PollWaiter
    }

    /// The queue is in order, and its entries are only marked for a lend guard.
    pub open spec fn queue_inv(self) -> bool {
        &&& counter::valid_size(self.mutex.max)
        &&& self.mutex.max <= usize::MAX
        &&& self.mutex.borrowers.len() <= self.mutex.max
        &&& self.mutex.front == counter::slot_of(self.base, self.mutex.max)
        &&& 0 <= self.mutex.front < self.mutex.max
        &&& forall|k: int|
            0 <= k < self.mutex.borrowers.len() && (#[trigger] self.mutex.borrowers[k]).ref_acquired
                ==> k == 0 && self.guard.pins()
        &&& forall|k: int|
            0 <= k < self.mutex.borrowers.len()
                && (#[trigger] self.mutex.borrowers[k]).waiter.awoken
                ==> self.mutex.borrowers[k].ref_acquired
    }

    /// The step of the call that has the mutex to itself.
    pub open spec fn holder_step(self) -> LendStep {
        self.lends[self.holder->0].step
    }

    /// The termination has found nothing lended, and nothing will be lended any more.
    pub open spec fn stopped(self) -> bool {
        self.termination() matches Some(step) && !(step is LoadPresent)
    }

    /// One termination has set the termination flag at most; the others have not started, or have
    /// found the flag set.
    pub open spec fn termination_inv(self) -> bool {
        &&& self.mutex.terminated == self.terminator is Some
        &&& self.terminator matches Some(id) ==> {
            &&& self.terminations.dom().contains(id)
            &&& !(self.terminations[id] is SwapTerminated)
        }
        &&& forall|id: int| #[trigger]
            self.terminations.dom().contains(id) && self.terminator != Some(id)
                ==> self.terminations[id] is SwapTerminated || self.terminations[id] is Finished
    }

    /// Until the termination has stopped it, one call or lend guard has the mutex to itself at
    /// most, and the flags say how far that one has come.
    pub open spec fn holder_inv(self) -> bool {
        &&& forall|id: int|
            (#[trigger] self.lends.dom().contains(id) && self.lends[id].active()) <==> self.holder
                == Some(id)
        &&& self.mutex.lender_present == (self.holder is Some || self.lending())
        &&& self.holder is Some ==> !self.lending()
        &&& self.mutex.lender_lended == if self.lending() {
            self.guard.keeps_lended()
        } else {
            self.holder is Some && (self.holder_step() is Peek || self.holder_step() is ClearLended)
        }
        &&& self.mutex.inner_ref is Some == if self.lending() {
            self.guard.keeps_ref()
        } else {
            self.holder is Some && (self.holder_step() is SetLended || self.holder_step() is Peek
                || self.holder_step() is ClearLended || self.holder_step() is ClearRef)
        }
    }

    /// Once the termination has stopped it, no call gets past the termination flag.
    pub open spec fn stopped_inv(self) -> bool {
        &&& forall|id: int| #[trigger]
            self.lends.dom().contains(id) && self.lends[id].active()
                ==> self.lends[id].step is LoadTerminated
        &&& !self.mutex.lender_lended
        &&& self.mutex.inner_ref is None
        &&& self.draining() == !(self.guard is Absent)
    }

    pub open spec fn lend_inv(self) -> bool {
        if self.stopped() {
            self.stopped_inv()
        } else {
            self.holder_inv()
        }
    }

    /// The lend guard is for the oldest request.
    pub open spec fn guard_inv(self) -> bool {
        &&& self.guard.pins() ==> {
            &&& self.mutex.borrowers.len() > 0
            &&& self.guard.slot() == self.mutex.front
        }
        &&& match self.guard {
            Guard::Absent => true,
            Guard::Resting { returned, .. } => returned ==> !self.first().guard_present,
            Guard::Offering { offer, .. } => !offer.is_finished() && (offer is SwapAcquired
                || self.first().ref_acquired),
            Guard::TakingBack { step, .. } => match step {
                TakeBackStep::ClearLended { leave } | TakeBackStep::ClearRef { leave } => if leave {
                    !self.first().guard_present
                } else {
                    !self.first().ref_acquired
                },
                TakeBackStep::Pop => !self.first().guard_present,
                _ => !step.is_finished(),
            },
        }
    }

    pub open spec fn party_inv(self, id: int) -> bool {
        let party = self.parties[id];
        let ticket = self.tickets[id];
        let entry = self.entry(ticket);
        &&& self.queued(ticket)
        &&& party.slot()->0 == counter::slot_of(ticket, self.mutex.max)
        &&& entry.guard_present
        &&& party.claims() ==> entry.ref_acquired && ticket == self.base
        &&& match party {
            Party::Request { op } => {
                &&& op.step is ReadRef ==> self.lending()
                &&& entry.ref_acquired && !party.claims() && (party.listens()
                    || !self.mutex.terminated) ==> entry.waiter.awoken || self.guard.wakes()
                &&& self.termination() == Some(TerminateStep::Finished) ==> !(op.step is Pending)
            },
            Party::Armed { guard } => {
                &&& ticket == self.base
                &&& entry.ref_acquired
                &&& self.lending()
                &&& self.mutex.inner_ref == Some(guard.inner_ref)
            },
            Party::Leaving { .. } => true,
        }
    }

    pub open spec fn owned(self, ticket: int) -> bool {
        let id = self.owner[ticket];
        self.holds(id) && self.tickets[id] == ticket
    }

    /// Who keeps which entry.
    pub open spec fn parties_inv(self) -> bool {
        &&& forall|id: int| #[trigger]
            self.parties.dom().contains(id) ==> self.parties[id].step_fits()
        &&& forall|id: int| #[trigger] self.holds(id) ==> self.party_inv(id)
        &&& forall|i: int, j: int| #[trigger]
            self.holds(i) && #[trigger] self.holds(j) && i != j ==> self.tickets[i]
                != self.tickets[j]
        &&& forall|ticket: int|
            self.queued(ticket) && (#[trigger] self.entry(ticket)).guard_present ==> self.owned(
                ticket,
            )
    }

    /// What every interleaving keeps.
    pub open spec fn inv(self) -> bool {
        &&& self.queue_inv()
        &&& self.lend_inv()
        &&& self.guard_inv()
        &&& self.parties_inv()
        &&& self.termination_inv()
    }

    /// The lender gets to know that its reference is given back: where its guard waits and the
    /// guard of the borrower is gone, the lender was woken, or is about to be.
    pub open spec fn return_inv(self) -> bool {
        self.guard.listens() && self.first().ref_acquired && !self.first().guard_present
            ==> self.mutex.lend_waiter.awoken || exists|id: int| self.tells(id)
    }

    /// What is kept where the polls for a request come one at a time: where one was told to wait,
    /// or is about to be, and there is a request, the lender was woken, or is about to be.
    pub open spec fn turn_inv(self) -> bool {
        &&& forall|i: int, j: int| #[trigger]
            self.polling(i) && #[trigger] self.polling(j) ==> i == j
        &&& self.waiting is Some ==> forall|i: int| !(#[trigger] self.polling(i))
        &&& (self.waiting is Some || exists|i: int| self.listens(i)) && self.mutex.borrowers.len()
            > 0 ==> self.mutex.lend_waiter.awoken || exists|id: int| self.calls(id)
    }

    proof fn lemma_slot(self, ticket: int)
        requires
            self.mutex.max >= 2,
            self.mutex.front == counter::slot_of(self.base, self.mutex.max),
            self.base <= ticket < self.base + self.mutex.max,
        ensures
            0 <= counter::slot_of(ticket, self.mutex.max) < self.mutex.max,
            self.mutex.position(counter::slot_of(ticket, self.mutex.max)) == ticket - self.base,
            counter::slot_of(self.mutex.front + (ticket - self.base), self.mutex.max)
                == counter::slot_of(ticket, self.mutex.max),
    {
        let size = self.mutex.max;
        let k = ticket - self.base;
        vstd::arithmetic::div_mod::lemma_add_mod_noop(self.base, k, size);
        vstd::arithmetic::div_mod::lemma_add_mod_noop(self.mutex.front, k, size);
        vstd::arithmetic::div_mod::lemma_mod_twice(self.base, size);
        counter::lemma_position_of_slot(self.mutex.front, k, size);
    }

    /// The slot of a party leads to its entry.
    proof fn lemma_place(self, id: int)
        requires
            self.inv(),
            self.holds(id),
        ensures
            self.queued(self.tickets[id]),
            self.mutex.position(self.parties[id].slot()->0 as int) == self.tickets[id] - self.base,
    {
        assert(self.party_inv(id));
        self.lemma_slot(self.tickets[id]);
    }

    /// The parties keep their entries where nothing that they rely on changes.
    proof fn lemma_same_parties(self, next: World<T>)
        requires
            self.inv(),
            next.parties == self.parties,
            next.tickets == self.tickets,
            next.owner == self.owner,
            next.base == self.base,
            next.mutex.borrowers == self.mutex.borrowers,
            next.mutex.max == self.mutex.max,
            self.mutex.terminated ==> next.mutex.terminated,
            self.guard.wakes() ==> next.guard.wakes(),
            next.termination() == Some(TerminateStep::Finished) ==> self.termination()
                == next.termination() || self.mutex.borrowers.len() == 0,
            self.lending() && self.mutex.borrowers.len() > 0 && self.first().guard_present
                && self.first().ref_acquired ==> {
                &&& next.lending()
                &&& next.mutex.inner_ref == self.mutex.inner_ref
            },
        ensures
            next.parties_inv(),
    {
        assert forall|t: int| #[trigger] next.entry(t) == self.entry(t) by {}
        assert(self.entry(self.base) == self.first());
        assert forall|i: int| #[trigger] next.holds(i) implies self.holds(i) && next.party_inv(
            i,
        ) by {
            assert(self.holds(i));
            assert(self.party_inv(i));
        }
        assert forall|t: int| next.queued(t) && (#[trigger] next.entry(t)).guard_present
            implies next.owned(t) by {
            assert(self.entry(t).guard_present);
            assert(self.owned(t));
            assert(next.holds(self.owner[t]));
        }
    }

    /// One party changes, and keeps the entry that it had, if any, as it was.
    proof fn lemma_one_party(self, next: World<T>, id: int)
        requires
            self.inv(),
            self.parties.dom().contains(id) || next.parties.dom().contains(id),
            next == (World { parties: next.parties, ..self }),
            next.parties == self.parties.insert(id, next.parties[id]) || next.parties
                == self.parties.remove(id),
            self.holds(id) == next.holds(id),
            next.holds(id) ==> self.parties[id].slot() == next.parties[id].slot()
                && next.party_inv(id),
            next.parties.dom().contains(id) ==> next.parties[id].step_fits(),
        ensures
            next.inv(),
    {
        assert forall|t: int| #[trigger] next.entry(t) == self.entry(t) by {}
        assert forall|i: int| #[trigger] next.parties.dom().contains(i) && i != id implies
            self.parties.dom().contains(i) && next.parties[i] == self.parties[i] by {}
        assert forall|i: int| #[trigger] self.parties.dom().contains(i) && i != id implies
            next.parties.dom().contains(i) by {}
        assert forall|i: int| #[trigger] next.holds(i) implies self.holds(i) && next.party_inv(
            i,
        ) by {
            if i != id {
                assert(self.holds(i));
                assert(self.party_inv(i));
            }
        }
        assert forall|i: int| #[trigger] self.holds(i) implies next.holds(i) by {}
        assert forall|t: int| next.queued(t) && (#[trigger] next.entry(t)).guard_present
            implies next.owned(t) by {
            assert(self.entry(t).guard_present);
            assert(self.owned(t));
        }
    }

    /// An access of a poll of a request keeps the invariant.
    proof fn lemma_poll(self, id: int, waker: Option<Waker>, refused: bool)
        requires
            self.inv(),
            self.enabled(Event::Poll { id, waker, refused }),
        ensures
            self.after_poll(id, waker, refused).inv(),
    {
        let next = self.after_poll(id, waker, refused);
        let op = self.parties[id]->op;
        assert(self.parties[id].step_fits());
        match op.step {
            RequestStep::LoadTerminated | RequestStep::CheckAgain { .. } => {
                if self.holds(id) {
                    assert(self.party_inv(id));
                }
                self.lemma_one_party(next, id);
            },
            RequestStep::Push => {
                if next.mutex.borrowers.len() == self.mutex.borrowers.len() {
                    self.lemma_one_party(next, id);
                } else {
                    self.lemma_push(id, waker, refused);
                }
            },
            RequestStep::WakeLender { .. } => {
                self.lemma_lender_woken(next, id);
            },
            RequestStep::PollEntry { slot } => {
                self.lemma_poll_entry(id, waker, refused);
            },
            RequestStep::LoadLended { .. } | RequestStep::ReadRef { .. } => {
                assert(self.holds(id));
                assert(self.party_inv(id));
                assert(self.entry(self.base) == self.first());
                self.lemma_one_party(next, id);
            },
            _ => {},
        }
    }

    /// Queueing a request keeps the invariant.
    proof fn lemma_push(self, id: int, waker: Option<Waker>, refused: bool)
        requires
            self.inv(),
            self.enabled(Event::Poll { id, waker, refused }),
            self.parties[id]->op.step is Push,
            !self.mutex.is_full() && !refused,
        ensures
            self.after_poll(id, waker, refused).inv(),
    {
        let next = self.after_poll(id, waker, refused);
        let ticket = self.base + self.mutex.borrowers.len();
        assert(self.parties[id].step_fits());
        assert(!self.holds(id));
        self.lemma_slot(ticket);
        assert forall|t: int| self.queued(t) implies #[trigger] next.entry(t) == self.entry(t) by {}
        assert(next.entry(ticket) == BorrowState::new());
        assert forall|i: int| #[trigger] next.holds(i) && i != id implies self.holds(i)
            && next.party_inv(i) && next.tickets[i] != ticket by {
            assert(self.holds(i));
            assert(self.party_inv(i));
        }
        assert(next.party_inv(id));
        assert forall|t: int| next.queued(t) && (#[trigger] next.entry(t)).guard_present
            implies next.owned(t) by {
            if t != ticket {
                assert(self.entry(t).guard_present);
                assert(self.owned(t));
                assert(next.holds(self.owner[t]));
            } else {
                assert(next.holds(id));
            }
        }
    }

    /// Waking the lender keeps the invariant, when a party goes on to wait for the reference, or
    /// leaves for good.
    proof fn lemma_lender_woken(self, next: World<T>, id: int)
        requires
            self.inv(),
            self.parties.dom().contains(id),
            next == (World { mutex: self.mutex.lender_woken(), parties: next.parties, ..self }),
            next.parties == self.parties.insert(id, next.parties[id]) || next.parties
                == self.parties.remove(id),
            self.holds(id) == next.holds(id),
            next.holds(id) ==> {
                &&& self.parties[id].slot() == next.parties[id].slot()
                &&& self.parties[id].listens()
                &&& next.parties[id] matches Party::Request { op } && op.step is PollEntry
            },
            next.parties.dom().contains(id) ==> next.parties[id].step_fits(),
        ensures
            next.inv(),
    {
        assert forall|t: int| #[trigger] next.entry(t) == self.entry(t) by {}
        assert forall|i: int| #[trigger] next.parties.dom().contains(i) && i != id implies
            self.parties.dom().contains(i) && next.parties[i] == self.parties[i] by {}
        assert forall|i: int| #[trigger] next.holds(i) implies self.holds(i) && next.party_inv(
            i,
        ) by {
            assert(self.holds(i));
            assert(self.party_inv(i));
        }
        assert forall|i: int| #[trigger] self.holds(i) implies next.holds(i) by {}
        assert forall|t: int| next.queued(t) && (#[trigger] next.entry(t)).guard_present
            implies next.owned(t) by {
            assert(self.entry(t).guard_present);
            assert(self.owned(t));
        }
    }

    /// A poll of the waiter of a request keeps the invariant.
    proof fn lemma_poll_entry(self, id: int, waker: Option<Waker>, refused: bool)
        requires
            self.inv(),
            self.enabled(Event::Poll { id, waker, refused }),
            self.parties[id]->op.step is PollEntry,
        ensures
            self.after_poll(id, waker, refused).inv(),
    {
        let next = self.after_poll(id, waker, refused);
        assert(self.parties[id].step_fits());
        assert(self.holds(id));
        assert(self.party_inv(id));
        let ticket = self.tickets[id];
        let k = ticket - self.base;
        self.lemma_slot(ticket);
        assert(next.mutex.borrowers == self.mutex.borrowers.update(k, next.mutex.borrowers[k]));
        assert(next.entry(ticket) == next.mutex.borrowers[k]);
        assert forall|t: int| self.queued(t) && t != ticket implies #[trigger] next.entry(t)
            == self.entry(t) by {}
        assert forall|i: int| #[trigger] next.holds(i) && i != id implies self.holds(i)
            && next.party_inv(i) by {
            assert(self.holds(i));
            assert(self.party_inv(i));
            assert(self.tickets[i] != ticket);
        }
        assert(next.party_inv(id));
        assert forall|i: int| #[trigger] self.holds(i) implies next.holds(i) by {}
        assert(next.first().ref_acquired == self.first().ref_acquired && next.first().guard_present
            == self.first().guard_present);
        assert forall|t: int| next.queued(t) && (#[trigger] next.entry(t)).guard_present
            implies next.owned(t) by {
            assert(self.entry(t).guard_present);
            assert(self.owned(t));
        }
    }

    /// An access of a guard that is dropped keeps the invariant.
    proof fn lemma_release(self, id: int)
        requires
            self.inv(),
            self.enabled(Event::Release { id }),
        ensures
            self.after_release(id).inv(),
    {
        let next = self.after_release(id);
        match self.parties[id]->step {
            ReleaseStep::StoreGone { .. } => {
                assert(self.holds(id));
                assert(self.party_inv(id));
                let ticket = self.tickets[id];
                let k = ticket - self.base;
                self.lemma_slot(ticket);
                assert(next.mutex.borrowers == self.mutex.borrowers.update(
                    k,
                    BorrowState { guard_present: false, ..self.mutex.borrowers[k] },
                ));
                assert forall|t: int| self.queued(t) && t != ticket implies #[trigger] next.entry(t)
                    == self.entry(t) by {}
                assert(!next.holds(id));
                assert forall|i: int| #[trigger] next.holds(i) implies self.holds(i)
                    && next.party_inv(i) by {
                    assert(i != id);
                    assert(self.holds(i));
                    assert(self.party_inv(i));
                    assert(self.tickets[i] != ticket);
                }
                assert forall|t: int| next.queued(t) && (#[trigger] next.entry(t)).guard_present
                    implies next.owned(t) by {
                    assert(t != ticket);
                    assert(self.entry(t).guard_present);
                    assert(self.owned(t));
                    assert(self.owner[t] != id);
                    assert(next.holds(self.owner[t]));
                }
            },
            ReleaseStep::WakeLender => {
                self.lemma_lender_woken(next, id);
            },
            ReleaseStep::Done => {
                self.lemma_one_party(next, id);
            },
        }
    }

    /// An access of a call that lends keeps the invariant.
    proof fn lemma_lend(self, id: int)
        requires
            self.inv(),
            self.enabled(Event::Lend { id }),
        ensures
            self.after_lend(id).inv(),
    {
        let next = self.after_lend(id);
        let call = self.lends[id];
        assert forall|i: int| i != id implies (#[trigger] next.lends.dom().contains(i)
            <==> self.lends.dom().contains(i)) && next.lends[i] == self.lends[i] by {}
        if self.stopped() {
            assert(call.active() ==> call.step is LoadTerminated);
        } else {
            assert(self.holder_inv());
            assert(call.active() <==> self.holder == Some(id));
            assert forall|i: int|
                (#[trigger] next.lends.dom().contains(i) && next.lends[i].active())
                    <==> next.holder == Some(i) by {
                assert(self.lends.dom().contains(i) ==> (self.lends[i].active() <==> self.holder
                    == Some(i)));
            }
        }
        self.lemma_same_parties(next);
    }

    /// A call that begins to lend keeps the invariant.
    proof fn lemma_begin_lend(self, id: int, value: T)
        requires
            self.inv(),
            self.enabled(Event::BeginLend { id, value }),
        ensures
            self.after(Event::BeginLend { id, value }).inv(),
    {
        let next = self.after(Event::BeginLend { id, value });
        assert forall|i: int| i != id implies (#[trigger] next.lends.dom().contains(i)
            <==> self.lends.dom().contains(i)) && next.lends[i] == self.lends[i] by {}
        if !self.stopped() {
            assert(self.holder_inv());
            assert(self.holder != Some(id)) by {
                assert(!self.lends.dom().contains(id));
            }
            assert forall|i: int|
                (#[trigger] next.lends.dom().contains(i) && next.lends[i].active())
                    <==> next.holder == Some(i) by {
                assert(self.lends.dom().contains(i) ==> (self.lends[i].active() <==> self.holder
                    == Some(i)));
            }
        }
        self.lemma_same_parties(next);
    }

    /// An access of a termination keeps the invariant.
    proof fn lemma_terminate(self, id: int)
        requires
            self.inv(),
            self.enabled(Event::Terminate { id }),
        ensures
            self.after_terminate(id).inv(),
    {
        let next = self.after_terminate(id);
        if !self.stopped() {
            assert(self.holder_inv());
        }
        self.lemma_same_parties(next);
    }

    /// An access of a poll of the lend guard keeps the invariant.
    proof fn lemma_offer(self, waker: Option<Waker>)
        requires
            self.inv(),
            self.enabled(Event::Offer { waker }),
        ensures
            self.after_offer(waker).inv(),
    {
        let next = self.after_offer(waker);
        let step = self.guard->offer;
        self.lemma_slot(self.base);
        assert(self.mutex.front as usize == self.mutex.front);
        assert(self.entry(self.base) == self.first());
        assert(next.entry(next.base) == next.first());
        assert(next.mutex.borrowers == self.mutex.borrowers.update(0, next.first()));
        assert forall|t: int| self.queued(t) && t != self.base implies #[trigger] next.entry(t)
            == self.entry(t) by {}
        assert forall|i: int| #[trigger] next.holds(i) implies self.holds(i) && next.party_inv(
            i,
        ) by {
            assert(self.holds(i));
            assert(self.party_inv(i));
        }
        assert forall|t: int| next.queued(t) && (#[trigger] next.entry(t)).guard_present
            implies next.owned(t) by {
            assert(self.entry(t).guard_present);
            assert(self.owned(t));
            assert(next.holds(self.owner[t]));
        }
    }

    /// An access of a lend guard that is dropped keeps the invariant.
    proof fn lemma_take_back(self)
        requires
            self.inv(),
            self.enabled(Event::TakeBack),
        ensures
            self.after_take_back().inv(),
    {
        let next = self.after_take_back();
        let step = self.guard->step;
        self.lemma_slot(self.base);
        assert(self.entry(self.base) == self.first());
        if step is Pop {
            self.lemma_slot(self.base + 1);
            assert forall|t: int| next.queued(t) implies self.queued(t) && #[trigger] next.entry(t)
                == self.entry(t) by {}
            assert forall|i: int| #[trigger] next.holds(i) implies self.holds(i)
                && next.party_inv(i) by {
                assert(self.holds(i));
                assert(self.party_inv(i));
            }
            assert forall|t: int| next.queued(t) && (#[trigger] next.entry(t)).guard_present
                implies next.owned(t) by {
                assert(self.entry(t).guard_present);
                assert(self.owned(t));
                assert(next.holds(self.owner[t]));
            }
        } else {
            self.lemma_same_parties(next);
        }
    }
}

/// The world after a sequence of events on a new mutex that takes `max` requests.
pub open spec fn run<T>(max: int, events: Seq<Event<T>>) -> World<T>
    decreases events.len(),
{
    if events.len() == 0 {
        World::init(max)
    } else {
        run(max, events.drop_last()).after(events.last())
    }
}

/// Each of the events could happen when it did.
pub open spec fn feasible<T>(max: int, events: Seq<Event<T>>) -> bool
    decreases events.len(),
{
    events.len() == 0 || {
        &&& feasible(max, events.drop_last())
        &&& run(max, events.drop_last()).enabled(events.last())
    }
}

/// No poll for a request used the waiter of the lender while a lend guard waited.
pub open spec fn undisturbed<T>(max: int, events: Seq<Event<T>>) -> bool
    decreases events.len(),
{
    events.len() == 0 || {
        let world = run(max, events.drop_last());
        &&& undisturbed(max, events.drop_last())
        &&& events.last() matches Event::LenderPoll { id, .. } ==> world.listens(id)
            ==> !world.guard.listens()
    }
}

/// Each poll for a request began when the one before it was over, and no lend guard used the
/// waiter of the lender in between.
pub open spec fn in_turn<T>(max: int, events: Seq<Event<T>>) -> bool
    decreases events.len(),
{
    events.len() == 0 || {
        let world = run(max, events.drop_last());
        &&& in_turn(max, events.drop_last())
        &&& match events.last() {
            Event::BeginLenderPoll { .. } => forall|i: int| !(#[trigger] world.polling(i)),
            Event::Offer { .. } => world.guard->offer is PollWaiter ==> forall|i: int|
                !(#[trigger] world.polling(i)),
            _ => true,
        }
    }
}

/// Every access of every operation keeps the invariant.
pub proof fn law_step<T>(world: World<T>, event: Event<T>)
    requires
        world.inv(),
        world.enabled(event),
    ensures
        world.after(event).inv(),
{
    let next = world.after(event);
    match event {
        Event::Request { id } => {
            world.lemma_one_party(next, id);
        },
        Event::BeginPoll { id } => {
            assert(world.parties[id].step_fits());
            if world.holds(id) {
                assert(world.party_inv(id));
            }
            world.lemma_one_party(next, id);
        },
        Event::Poll { id, waker, refused } => {
            world.lemma_poll(id, waker, refused);
        },
        Event::Drop { id } => {
            if world.holds(id) {
                assert(world.party_inv(id));
            }
            world.lemma_one_party(next, id);
        },
        Event::Release { id } => {
            world.lemma_release(id);
        },
        Event::Lend { id } => {
            world.lemma_lend(id);
        },
        Event::Offer { waker } => {
            world.lemma_offer(waker);
        },
        Event::TakeBack => {
            world.lemma_take_back();
        },
        Event::BeginLend { id, value } => {
            world.lemma_begin_lend(id, value);
        },
        Event::Terminate { id } => {
            world.lemma_terminate(id);
        },
        _ => {
            world.lemma_same_parties(next);
            if !world.stopped() {
                assert(world.holder_inv());
            }
            assert(next.lend_inv());
        },
    }
}

/// Every interleaving keeps the invariant, from a new mutex on.
pub proof fn law_every_run<T>(max: int, events: Seq<Event<T>>)
    requires
        counter::valid_size(max),
        max <= usize::MAX,
        feasible(max, events),
    ensures
        run(max, events).inv(),
    decreases events.len(),
{
    if events.len() == 0 {
        vstd::arithmetic::div_mod::lemma_small_mod(0, max as nat);
    } else {
        law_every_run(max, events.drop_last());
        law_step(run(max, events.drop_last()), events.last());
    }
}

/// At most one side has the reference. There is at most one borrowed reference; it is the one
/// that is lended; and as long as it is there, the lend guard is there too, was not told that
/// the borrow is over, and ends the process where it is dropped nevertheless.
pub proof fn law_exclusive<T>(world: World<T>, i: int, j: int)
    requires
        world.inv(),
        world.parties.dom().contains(i),
        world.parties[i] is Armed,
    ensures
        world.parties.dom().contains(j) && world.parties[j] is Armed ==> i == j,
        world.lending(),
        world.mutex.inner_ref == Some(world.parties[i]->Armed_guard.inner_ref),
        match world.guard {
            Guard::Resting { returned, .. } => !returned,
            Guard::Offering { slot, offer } => !(offer_next(
                world.mutex,
                slot,
                offer,
                None,
            ).1 is Ready),
            Guard::TakingBack { slot, step } => {
                &&& step is LoadGuard || step is LoadAcquired
                &&& step is LoadAcquired ==> take_back_next(
                    world.mutex,
                    slot,
                    step,
                ).1 is Aborted
                &&& step is LoadGuard ==> take_back_next(
                    world.mutex,
                    slot,
                    step,
                ).1 is LoadAcquired
            },
            Guard::Absent => false,
        },
{
    assert(world.holds(i));
    assert(world.party_inv(i));
    assert(world.entry(world.base) == world.first());
    world.lemma_slot(world.base);
    assert(world.mutex.entry(world.mutex.front) == world.first());
    if world.parties.dom().contains(j) && world.parties[j] is Armed {
        assert(world.holds(j));
        assert(world.party_inv(j));
    }
}

/// No two tasks touch the place of the lended reference at the same time, where one of them
/// writes it.
pub proof fn law_reference_is_not_raced_for<T>(world: World<T>, i: int, j: int)
    requires
        world.inv(),
    ensures
        world.reads_ref(i) ==> !world.writes_ref(j) && !world.clears_ref(),
        world.writes_ref(i) ==> !world.clears_ref(),
        world.writes_ref(i) && world.writes_ref(j) ==> i == j,
{
    if world.reads_ref(i) {
        assert(world.parties[i].step_fits());
        assert(world.holds(i));
        assert(world.party_inv(i));
        assert(world.entry(world.base) == world.first());
    }
    if world.stopped() {
        assert(world.stopped_inv());
    } else {
        assert(world.holder_inv());
        assert(world.lends.dom().contains(i) ==> (world.lends[i].active() ==> world.holder
            == Some(i)));
        assert(world.lends.dom().contains(j) ==> (world.lends[j].active() ==> world.holder
            == Some(j)));
    }
}

/// Every access reaches a queue entry that is there: that of the party's own request, or that of
/// the oldest request; and a reference is read only where there is one.
pub proof fn law_accesses_are_valid<T>(world: World<T>, event: Event<T>)
    requires
        world.inv(),
        world.enabled(event),
    ensures
        match event {
            Event::Poll { id, .. } => {
                let op = world.parties[id]->op;
                &&& op.step matches RequestStep::PollEntry { slot } ==> {
                    &&& op.guard.slot == Some(slot)
                    &&& world.mutex.holds(slot as int)
                    &&& world.mutex.entry(slot as int) == world.entry(world.tickets[id])
                }
                &&& op.step is ReadRef ==> world.mutex.inner_ref is Some
            },
            Event::Release { id } => world.parties[id]->step matches ReleaseStep::StoreGone {
                slot,
            } ==> {
                &&& world.mutex.holds(slot as int)
                &&& world.mutex.entry(slot as int) == world.entry(world.tickets[id])
            },
            Event::Offer { .. } => {
                &&& world.mutex.holds(world.guard.slot() as int)
                &&& world.mutex.entry(world.guard.slot() as int) == world.entry(world.base)
            },
            Event::TakeBack => {
                let step = world.guard->step;
                &&& step is LoadGuard || step is LoadAcquired ==> {
                    &&& world.mutex.holds(world.guard.slot() as int)
                    &&& world.mutex.entry(world.guard.slot() as int) == world.entry(world.base)
                }
                &&& step is Pop ==> world.mutex.borrowers.len() > 0
            },
            _ => true,
        },
{
    world.lemma_slot(world.base);
    assert(world.entry(world.base) == world.first());
    match event {
        Event::Poll { id, .. } => {
            assert(world.parties[id].step_fits());
            if world.holds(id) {
                assert(world.party_inv(id));
                world.lemma_slot(world.tickets[id]);
            }
        },
        Event::Release { id } => {
            if world.holds(id) {
                assert(world.party_inv(id));
                world.lemma_slot(world.tickets[id]);
            }
        },
        _ => {},
    }
}

/// As many requests can be pending as the mutex takes, and no more: one that finds room is queued,
/// unless the queue refuses it while another is leaving.
pub proof fn law_bounded<T>(world: World<T>, id: int, waker: Option<Waker>, refused: bool)
    requires
        world.inv(),
        world.enabled(Event::Poll { id, waker, refused }),
        world.parties[id]->op.step is Push,
    ensures
        world.mutex.borrowers.len() <= world.mutex.max,
        world.after_poll(id, waker, refused).holds(id) <==> world.mutex.borrowers.len()
            < world.mutex.max && !refused,
{
    assert(world.parties[id].step_fits());
}

/// Requests are served in the order in which they were queued: one that reads the reference has
/// the oldest ticket of all, and one that is queued gets a ticket after all the others.
pub proof fn law_fifo<T>(world: World<T>, id: int, other: int, waker: Option<Waker>, refused: bool)
    requires
        world.inv(),
        world.enabled(Event::Poll { id, waker, refused }),
        world.holds(other),
    ensures
        world.after_poll(id, waker, refused).parties[id] is Armed ==> world.tickets[id]
            <= world.tickets[other],
        !world.holds(id) && world.after_poll(id, waker, refused).holds(id) ==> world.tickets[other]
            < world.after_poll(id, waker, refused).tickets[id],
{
    assert(world.parties[id].step_fits());
    assert(world.party_inv(other));
    if world.holds(id) {
        assert(world.party_inv(id));
    }
}

/// The reference can be borrowed only while it is lended, by the request that it was offered to.
pub proof fn law_borrow_only_while_lended<T>(
    world: World<T>,
    id: int,
    waker: Option<Waker>,
    refused: bool,
)
    requires
        world.inv(),
        world.enabled(Event::Poll { id, waker, refused }),
        world.after_poll(id, waker, refused).parties[id] is Armed,
    ensures
        world.lending(),
        world.mutex.lender_lended,
        world.entry(world.tickets[id]).ref_acquired,
        world.mutex.inner_ref == Some(
            world.after_poll(id, waker, refused).parties[id]->Armed_guard.inner_ref,
        ),
{
    assert(world.parties[id].step_fits());
    assert(world.holds(id));
    assert(world.party_inv(id));
    assert(world.entry(world.base) == world.first());
}

/// A request that waits and was offered the reference gets to know: its waiter was woken, or the
/// lend guard is about to wake it.
pub proof fn law_offer_is_kept<T>(world: World<T>, id: int)
    requires
        world.inv(),
        world.holds(id),
        world.parties[id] matches Party::Request { op } && op.step is Pending,
        world.entry(world.tickets[id]).ref_acquired,
    ensures
        world.entry(world.tickets[id]).waiter.awoken || world.guard.wakes(),
{
    assert(world.party_inv(id));
}

/// No request waits for ever when the mutex is terminated: one that waits was woken, or is about
/// to be, or is in the queue of a termination that has not come to its end.
pub proof fn law_termination_is_told<T>(world: World<T>, id: int)
    requires
        world.inv(),
        world.holds(id),
        world.parties[id] matches Party::Request { op } && op.step is Pending,
        world.mutex.terminated,
    ensures
        ({
            ||| world.entry(world.tickets[id]).waiter.awoken
            ||| world.guard.wakes()
            ||| world.queued(world.tickets[id]) && world.termination() is Some
                && world.termination() != Some(TerminateStep::Finished)
        }),
{
    assert(world.party_inv(id));
}

/// A request fails for a reason: the queue refused it, the mutex was terminated, or it was over
/// before.
pub proof fn law_failures<T>(world: World<T>, id: int, waker: Option<Waker>, refused: bool)
    requires
        world.inv(),
        world.enabled(Event::Poll { id, waker, refused }),
    ensures
        world.after_poll(id, waker, refused).parties[id] matches Party::Request { op } ==> (
        op.step matches RequestStep::Failed { error } ==> match error {
            BorrowMutexError::TooManyBorrows => world.mutex.is_full() || refused,
            BorrowMutexError::Terminated => world.mutex.terminated
                || world.parties[id]->op.guard.spent,
        }),
{
    assert(world.parties[id].step_fits());
    if world.holds(id) {
        assert(world.party_inv(id));
        assert(world.entry(world.base) == world.first());
    }
}

/// An access leaves the oldest request as it is, but for the marks that it may set.
proof fn lemma_first<T>(world: World<T>, event: Event<T>)
    requires
        world.inv(),
        world.enabled(event),
        world.guard.pins(),
    ensures
        !(event is TakeBack) ==> ({
            let next = world.after(event);
            &&& next.mutex.borrowers.len() > 0
            &&& next.first().ref_acquired == (world.first().ref_acquired || event is Offer
                && world.guard->offer is SwapAcquired)
            &&& next.first().guard_present == (world.first().guard_present && !(
            event matches Event::Release { id } && world.parties[id]->step is StoreGone
                && world.tickets[id] == world.base))
        }),
{
    world.lemma_slot(world.base);
    assert(world.entry(world.base) == world.first());
    match event {
        Event::Poll { id, .. } => {
            assert(world.parties[id].step_fits());
            if world.parties[id]->op.step is PollEntry {
                world.lemma_place(id);
            }
        },
        Event::Release { id } => {
            if world.parties[id]->step is StoreGone {
                world.lemma_place(id);
            }
        },
        _ => {},
    }
}

/// Every access keeps the promise to the lend guard, unless a poll for a request takes its wake.
proof fn lemma_return<T>(world: World<T>, event: Event<T>)
    requires
        world.inv(),
        world.enabled(event),
        world.return_inv(),
        event matches Event::LenderPoll { id, .. } ==> world.listens(id)
            ==> !world.guard.listens(),
    ensures
        world.after(event).return_inv(),
{
    let next = world.after(event);
    if world.guard.pins() {
        lemma_first(world, event);
    }
    match event {
        Event::Release { id } => {
            assert forall|i: int| #[trigger] world.tells(i) && i != id implies next.tells(i) by {}
            if world.parties[id]->step is StoreGone {
                assert(next.tells(id));
            }
        },
        Event::Lend { .. } | Event::Terminate { .. } => {
            assert forall|i: int| #[trigger] world.tells(i) implies next.tells(i) by {}
            assert(next.first() == world.first());
        },
        Event::Offer { .. } => {
            assert forall|i: int| #[trigger] world.tells(i) implies next.tells(i) by {}
            world.lemma_slot(world.base);
        },
        _ => {
            assert forall|i: int| #[trigger] world.tells(i) implies next.tells(i) by {}
        },
    }
}

/// Every access keeps what is said of polls for a request that come one at a time.
proof fn lemma_turn<T>(world: World<T>, event: Event<T>)
    requires
        world.inv(),
        world.enabled(event),
        world.turn_inv(),
        event is BeginLenderPoll ==> forall|i: int| !(#[trigger] world.polling(i)),
        event is Offer && world.guard->offer is PollWaiter ==> forall|i: int|
            !(#[trigger] world.polling(i)),
    ensures
        world.after(event).turn_inv(),
{
    let next = world.after(event);
    match event {
        Event::BeginLenderPoll { id } => {
            assert forall|i: int| #[trigger] next.polling(i) implies i == id by {
                assert(!world.polling(i));
            }
            assert forall|i: int| !(#[trigger] next.listens(i)) by {
                assert(!world.polling(i));
            }
        },
        Event::LenderPoll { id, .. } => {
            assert forall|i: int| #[trigger] next.polling(i) implies world.polling(i) by {}
            assert forall|i: int| #[trigger] next.listens(i) implies i == id by {
                assert(next.polling(i));
            }
            assert forall|i: int| #[trigger] world.calls(i) implies next.calls(i) by {}
            assert(world.listens(id) == world.lenders[id] is PollWaiter);
        },
        Event::Poll { id, .. } => {
            assert(world.parties[id].step_fits());
            assert forall|i: int| #[trigger] next.polling(i) == world.polling(i) by {}
            assert forall|i: int| #[trigger] next.listens(i) == world.listens(i) by {}
            assert forall|i: int| #[trigger] world.calls(i) && i != id implies next.calls(i) by {}
            match world.parties[id]->op.step {
                RequestStep::Push => {
                    assert(next.mutex == world.mutex || next.calls(id));
                },
                RequestStep::PollEntry { .. } => {
                    world.lemma_place(id);
                },
                _ => {},
            }
        },
        Event::Release { id } => {
            assert forall|i: int| #[trigger] next.polling(i) == world.polling(i) by {}
            assert forall|i: int| #[trigger] next.listens(i) == world.listens(i) by {}
            assert forall|i: int| #[trigger] world.calls(i) implies next.calls(i) by {}
            if world.parties[id]->step is StoreGone {
                world.lemma_place(id);
            }
        },
        _ => {
            assert forall|i: int| #[trigger] next.polling(i) == world.polling(i) by {}
            assert forall|i: int| #[trigger] next.listens(i) == world.listens(i) by {}
            assert forall|i: int| #[trigger] world.calls(i) implies next.calls(i) by {}
        },
    }
}

/// The lender gets its reference back: where its guard waits, the guard of the borrower is gone,
/// and nobody is about to wake it, its waiter was woken, so it polls again; and a poll that finds
/// the guard gone is over. (No poll for a request has taken the wake instead.)
pub proof fn law_lender_resumes<T>(max: int, events: Seq<Event<T>>)
    requires
        counter::valid_size(max),
        max <= usize::MAX,
        feasible(max, events),
        undisturbed(max, events),
        run(max, events).guard is Resting || run(max, events).guard is Offering,
        run(max, events).first().ref_acquired,
        !run(max, events).first().guard_present,
        forall|id: int| !(#[trigger] run(max, events).tells(id)),
    ensures
        run(max, events).guard.listens() ==> run(max, events).mutex.lend_waiter.awoken,
        offer_next(
            run(max, events).mutex,
            run(max, events).guard.slot(),
            OfferStep::LoadGuard,
            None,
        ).1 is Ready,
{
    let world = run(max, events);
    law_every_run(max, events);
    lemma_undisturbed(max, events);
    world.lemma_slot(world.base);
    assert(world.entry(world.base) == world.first());
}

/// Every interleaving in which lend guards are left alone keeps the promise to them.
proof fn lemma_undisturbed<T>(max: int, events: Seq<Event<T>>)
    requires
        counter::valid_size(max),
        max <= usize::MAX,
        feasible(max, events),
        undisturbed(max, events),
    ensures
        run(max, events).return_inv(),
    decreases events.len(),
{
    if events.len() > 0 {
        law_every_run(max, events.drop_last());
        lemma_undisturbed(max, events.drop_last());
        lemma_return(run(max, events.drop_last()), events.last());
    }
}

/// Every interleaving in which the polls for a request come one at a time keeps what is said of
/// those.
proof fn lemma_in_turn<T>(max: int, events: Seq<Event<T>>)
    requires
        counter::valid_size(max),
        max <= usize::MAX,
        feasible(max, events),
        in_turn(max, events),
    ensures
        run(max, events).turn_inv(),
    decreases events.len(),
{
    if events.len() > 0 {
        law_every_run(max, events.drop_last());
        lemma_in_turn(max, events.drop_last());
        lemma_turn(run(max, events.drop_last()), events.last());
    }
}

/// A lender that waits for a request is woken for it: where a task was told last to wait, there is
/// a request, and nobody is about to wake the task, the waiter was woken, so it polls again. (The
/// polls for a request come one at a time, so that none has taken the wake of another.)
pub proof fn law_request_wakes_lender<T>(max: int, events: Seq<Event<T>>)
    requires
        counter::valid_size(max),
        max <= usize::MAX,
        feasible(max, events),
        in_turn(max, events),
        run(max, events).waiting is Some,
        run(max, events).mutex.borrowers.len() > 0,
        forall|id: int| !(#[trigger] run(max, events).calls(id)),
    ensures
        run(max, events).mutex.lend_waiter.awoken,
{
    lemma_in_turn(max, events);
}

/// A queued entry whose guard is still there has an owner: a request that waits, the borrowed
/// reference, or a guard that is about to be marked as gone. So the lender never waits for a
/// borrower that nobody holds.
pub proof fn law_entries_have_owners<T>(world: World<T>, ticket: int)
    requires
        world.inv(),
        world.queued(ticket),
        world.entry(ticket).guard_present,
    ensures
        world.holds(world.owner[ticket]),
        world.tickets[world.owner[ticket]] == ticket,
{
    assert(world.owned(ticket));
}

/// There is one lend guard at most: a call that lends and a termination make one only where there
/// is none.
pub proof fn law_one_lend_guard<T>(world: World<T>, event: Event<T>)
    requires
        world.inv(),
        world.enabled(event),
        event is Lend || event is Terminate,
    ensures
        world.after(event).guard == world.guard || world.guard is Absent,
{
    if world.stopped() {
        assert(world.stopped_inv());
    } else {
        assert(world.holder_inv());
    }
}

/// Only requests that were dropped leave the queue, oldest first, and the termination has come to
/// its end only where none is left.
pub proof fn law_only_dropped_requests_leave<T>(world: World<T>, event: Event<T>)
    requires
        world.inv(),
        world.enabled(event),
    ensures
        world.after(event).base == world.base || {
            &&& event is TakeBack
            &&& world.after(event).base == world.base + 1
            &&& world.queued(world.base)
            &&& !world.entry(world.base).guard_present
        },
        world.after(event).termination() == Some(TerminateStep::Finished) ==> world.termination()
            == Some(TerminateStep::Finished) || world.mutex.borrowers.len() == 0,
{
    assert(world.entry(world.base) == world.first());
}

/// A termination that finds the mutex terminated is over at once, and changes nothing.
pub proof fn law_terminate_again<T>(world: World<T>, id: int)
    requires
        world.inv(),
        world.enabled(Event::Terminate { id }),
        world.mutex.terminated,
        world.terminator != Some(id),
    ensures
        world.after(Event::Terminate { id }) == (World {
            terminations: world.terminations.insert(id, TerminateStep::Finished),
            ..world
        }),
{
}

/// Only the first access of a termination changes the termination flag, and that sets it.
pub proof fn law_only_termination_terminates<T>(world: World<T>, event: Event<T>)
    requires
        world.inv(),
        world.enabled(event),
    ensures
        world.after(event).mutex.terminated == (world.mutex.terminated || (
        event matches Event::Terminate { id } && world.terminations[id] is SwapTerminated)),
{
}

/// Termination is final, and every poll that begins after it fails with it.
pub proof fn law_terminated<T>(world: World<T>, event: Event<T>, op: RequestOp<T>)
    requires
        world.inv(),
        world.enabled(event),
        world.mutex.terminated,
        op.step is LoadTerminated,
    ensures
        world.after(event).mutex.terminated,
        request_next(world.mutex, op, None, false).1.step == (RequestStep::<T>::Failed {
            error: BorrowMutexError::Terminated,
        }),
        request_next(world.mutex, op, None, false).0 == world.mutex,
{
}

} // verus!
