//! What holds of a waiter that any number of tasks poll and wake at once, whatever the order of
//! their accesses.
//!
//! A waiter keeps one waker, so the law that no wake is lost is about polls that come one at a
//! time.

use crate::atomic_waiter::{poll_next, wake_next, PollStep, WaiterState, WakeStep};
use core::task::Waker;
use vstd::prelude::*;

verus! {

/// A waiter with the wakes and polls begun on it, by numbers of their own.
pub struct World {
    pub state: WaiterState,
    pub wakes: Map<int, WakeStep>,
    pub polls: Map<int, PollStep>,
    /// How many wakes have set the flag.
    pub woken: int,
    /// How many polls have succeeded.
    pub succeeded: int,
    /// The poll that was begun last.
    pub latest: Option<int>,
    /// The task of a poll was woken since one last registered.
    pub notified: bool,
}

pub enum Event {
    BeginWake { id: int },
    /// A wake makes its next access.
    Wake { id: int },
    BeginPoll { id: int },
    /// A poll makes its next access; `left` is what a registration leaves in the waiter, and
    /// `notifies` says that it wakes the polling task itself.
    Poll { id: int, left: Option<Waker>, notifies: bool },
}

impl World {
    /// The world before any event.
    pub open spec fn init() -> World {
        World {
            state: WaiterState { awoken: false, waker: None },
            wakes: Map::empty(),
            polls: Map::empty(),
            woken: 0,
            succeeded: 0,
            latest: None,
            notified: false,
        }
    }

    /// The event can happen. A registration leaves its waker, unless it overlaps another access to
    /// the waker: where that is one of a wake, it wakes the polling task itself.
    pub open spec fn enabled(self, event: Event) -> bool {
        match event {
            Event::BeginWake { id } => !self.wakes.dom().contains(id),
            Event::Wake { id } => self.wakes.dom().contains(id),
            Event::BeginPoll { id } => !self.polls.dom().contains(id),
            Event::Poll { id, left, notifies } => {
                &&& self.polls.dom().contains(id)
                &&& left is Some || notifies || exists|i: int| i != id && self.polling(i)
            },
        }
    }

    pub open spec fn after(self, event: Event) -> World {
        match event {
            Event::BeginWake { id } => World {
                wakes: self.wakes.insert(id, WakeStep::Mark),
                ..self
            },
            Event::Wake { id } => {
                let (state, step) = wake_next(self.state, self.wakes[id]);
                World {
                    state,
                    wakes: self.wakes.insert(id, step),
                    woken: if self.wakes[id] is Mark {
                        self.woken + 1
                    } else {
                        self.woken
                    },
                    notified: self.notified || self.wakes[id] is Notify,
                    ..self
                }
            },
            Event::BeginPoll { id } => World {
                polls: self.polls.insert(id, PollStep::Check),
                latest: Some(id),
                ..self
            },
            Event::Poll { id, left, notifies } => {
                let (state, step) = poll_next(self.state, self.polls[id], left);
                World {
                    state,
                    polls: self.polls.insert(id, step),
                    succeeded: if step is Ready && !(self.polls[id] is Ready) {
                        self.succeeded + 1
                    } else {
                        self.succeeded
                    },
                    notified: if self.polls[id] is Register {
                        notifies
                    } else {
                        self.notified
                    },
                    ..self
                }
            },
        }
    }

    /// The poll has begun, and is not over.
    pub open spec fn polling(self, id: int) -> bool {
        &&& self.polls.dom().contains(id)
        &&& !(self.polls[id] is Ready) && !(self.polls[id] is Pending)
    }

    /// The latest poll was told to wait.
    pub open spec fn parked(self) -> bool {
        self.latest matches Some(id) && self.polls[id] is Pending
    }

    /// The latest poll has registered its waker, and is about to look at the flag again.
    pub open spec fn registered(self) -> bool {
        self.latest matches Some(id) && self.polls[id] is Recheck
    }

    pub open spec fn takes(self, id: int) -> bool {
        self.wakes.dom().contains(id) && self.wakes[id] is Take
    }

    pub open spec fn notifies(self, id: int) -> bool {
        self.wakes.dom().contains(id) && self.wakes[id] is Notify
    }

    /// What every interleaving keeps: each poll that has succeeded has answered a wake of its own,
    /// and the flag stands for one more.
    pub open spec fn inv(self) -> bool {
        self.succeeded + if self.state.awoken {
            1int
        } else {
            0
        } <= self.woken
    }

    /// What is kept where the polls come one at a time: a task that waits is registered, or it has
    /// been woken, or a wake is about to wake it; and where it waits although the waiter was woken,
    /// the wake that did so has not come to its waker yet.
    pub open spec fn turn_inv(self) -> bool {
        &&& forall|id: int| #[trigger] self.polling(id) ==> self.latest == Some(id)
        &&& self.latest matches Some(id) ==> self.polls.dom().contains(id)
        &&& self.parked() || self.registered() ==> {
            ||| self.state.waker is Some
            ||| self.notified
            ||| exists|id: int| self.notifies(id)
        }
        &&& self.parked() && self.state.awoken && self.state.waker is Some ==> exists|id: int|
            self.takes(id)
    }
}

/// The world after a sequence of events.
pub open spec fn run(events: Seq<Event>) -> World
    decreases events.len(),
{
    if events.len() == 0 {
        World::init()
    } else {
        run(events.drop_last()).after(events.last())
    }
}

/// Each of the events could happen when it did.
pub open spec fn feasible(events: Seq<Event>) -> bool
    decreases events.len(),
{
    events.len() == 0 || {
        &&& feasible(events.drop_last())
        &&& run(events.drop_last()).enabled(events.last())
    }
}

/// Each poll began when the one before it was over.
pub open spec fn in_turn(events: Seq<Event>) -> bool
    decreases events.len(),
{
    events.len() == 0 || {
        &&& in_turn(events.drop_last())
        &&& events.last() is BeginPoll ==> forall|id: int|
            !(#[trigger] run(events.drop_last()).polling(id))
    }
}

/// Every access of a wake and of a poll keeps the invariant.
pub proof fn law_step(world: World, event: Event)
    requires
        world.inv(),
        world.enabled(event),
    ensures
        world.after(event).inv(),
{
}

/// Every interleaving of wakes and polls keeps the invariant.
pub proof fn law_every_run(events: Seq<Event>)
    requires
        feasible(events),
    ensures
        run(events).inv(),
    decreases events.len(),
{
    if events.len() > 0 {
        law_every_run(events.drop_last());
        law_step(run(events.drop_last()), events.last());
    }
}

/// One wake lets one poll succeed, however many polls there are and however they overlap it.
pub proof fn law_one_poll_per_wake(events: Seq<Event>)
    requires
        feasible(events),
    ensures
        run(events).succeeded <= run(events).woken,
{
    law_every_run(events);
}

/// Each access changes the flag as one whole wake or one whole poll would, or not at all: a wake
/// takes effect when it sets the flag, and a poll when it clears the flag that it finds set, or,
/// where it is told to wait, when it last finds it not set.
pub proof fn law_linearizable(world: World, event: Event)
    requires
        world.enabled(event),
    ensures
        match event {
            Event::Wake { id } => world.after(event).state.awoken == (world.state.awoken
                || world.wakes[id] is Mark),
            Event::Poll { id, .. } => {
                let before = world.polls[id];
                let next = world.after(event).polls[id];
                &&& next is Ready && !(before is Ready) ==> world.state.awoken && !world.after(
                    event,
                ).state.awoken
                &&& next is Pending && !(before is Pending) ==> !world.state.awoken
                &&& !(next is Ready) || before is Ready ==> world.after(event).state.awoken
                    == world.state.awoken
            },
            _ => world.after(event).state == world.state,
        },
{
}

/// Every interleaving in which the polls come one at a time keeps what is said of those.
proof fn lemma_in_turn(events: Seq<Event>)
    requires
        feasible(events),
        in_turn(events),
    ensures
        run(events).turn_inv(),
    decreases events.len(),
{
    if events.len() > 0 {
        let world = run(events.drop_last());
        let next = run(events);
        lemma_in_turn(events.drop_last());
        match events.last() {
            Event::BeginWake { id } => {
                assert forall|i: int| #[trigger] next.polling(i) implies world.polling(i) by {}
                assert forall|i: int| #[trigger] world.takes(i) implies next.takes(i) by {}
                assert forall|i: int| #[trigger] world.notifies(i) implies next.notifies(i) by {}
            },
            Event::Wake { id } => {
                assert forall|i: int| #[trigger] next.polling(i) implies world.polling(i) by {}
                assert forall|i: int| #[trigger] world.takes(i) && i != id implies next.takes(
                    i,
                ) by {}
                assert forall|i: int| #[trigger] world.notifies(i) && i != id implies next.notifies(
                    i,
                ) by {}
                match world.wakes[id] {
                    WakeStep::Mark => {
                        assert(!world.state.awoken ==> next.takes(id));
                    },
                    WakeStep::Take => {
                        assert(world.state.waker is Some ==> next.notifies(id));
                    },
                    _ => {},
                }
            },
            Event::BeginPoll { id } => {
                assert forall|i: int| #[trigger] next.polling(i) implies i == id by {
                    assert(!world.polling(i));
                }
            },
            Event::Poll { id, .. } => {
                assert forall|i: int| #[trigger] next.polling(i) implies world.polling(i) by {}
                assert forall|i: int| #[trigger] world.notifies(i) implies next.notifies(i) by {}
                assert forall|i: int| #[trigger] world.takes(i) implies next.takes(i) by {}
                if world.polling(id) {
                    assert(world.latest == Some(id));
                    assert forall|i: int| #[trigger] world.polling(i) implies i == id by {}
                } else {
                    assert(next.polls =~= world.polls);
                }
            },
        }
    }
}

/// No wake is lost: where the polls come one at a time, once every wake begun has come to its end,
/// a task that still waits on a waiter that was woken has been woken itself since it registered,
/// so it polls again.
pub proof fn law_no_lost_wake(events: Seq<Event>)
    requires
        feasible(events),
        in_turn(events),
        run(events).parked(),
        run(events).state.awoken,
        forall|id: int| #[trigger]
            run(events).wakes.dom().contains(id) ==> run(events).wakes[id] is Done,
    ensures
        run(events).notified,
{
    lemma_in_turn(events);
    let world = run(events);
    assert forall|id: int| !world.takes(id) && !world.notifies(id) by {
        if world.wakes.dom().contains(id) {}
    }
}

/// A wake lets the next poll succeed, also where nobody has polled before; the poll after it
/// waits; and a wake that comes before the poll adds nothing to an earlier one.
pub proof fn law_wake_is_answered(state: WaiterState, waker: Option<Waker>)
    ensures
        state.woken().awoken,
        !state.woken().polled(waker).awoken,
        state.woken().woken() == state.woken(),
{
}

/// A whole wake marks the waiter as woken. Where it was not marked before, the registered waker is
/// handed out, and a wake of it has returned; where it was, nothing changes.
pub proof fn law_wake(state: WaiterState)
    ensures
        state.woken().awoken,
        state.awoken ==> state.woken() == state,
        !state.awoken ==> state.woken().waker is None,
        state.task_woken() && !state.awoken && state.waker is Some ==> call_ensures(
            Waker::wake,
            (state.waker->0,),
            (),
        ),
{
}

/// A whole poll takes the mark away. Where the waiter was not marked, there is a registered waker
/// afterwards: a clone of that of the polling task, or the one before where that has said that it
/// wakes the same task; where it was, the registered waker stays.
pub proof fn law_poll(state: WaiterState, waker: Waker, after: Option<Waker>)
    ensures
        state.polled(after) == (WaiterState { awoken: false, waker: after }),
        state.registers(waker, after) && state.awoken ==> after == state.waker,
        state.registers(waker, after) && !state.awoken ==> {
            &&& after matches Some(kept)
            &&& cloned(waker, kept) || state.waker == after && call_ensures(
                Waker::will_wake,
                (&kept, &waker),
                true,
            )
        },
{
}

/// What each access does to the waiter, and what decides on the access that comes next: a wake sets
/// the mark, and takes the waker if and only if the mark is new; a poll takes the mark away and is
/// over if it was there, and otherwise registers its task and looks once more.
pub proof fn law_accesses(state: WaiterState, left: Option<Waker>)
    ensures
        wake_next(state, WakeStep::Mark).0 == (WaiterState { awoken: true, waker: state.waker }),
        wake_next(state, WakeStep::Mark).1 is Take <==> !state.awoken,
        wake_next(state, WakeStep::Mark).1 is Done <==> state.awoken,
        wake_next(state, WakeStep::Take).0 == (WaiterState { awoken: state.awoken, waker: None }),
        wake_next(state, WakeStep::Take).1 is Done <==> state.waker is None,
        state.waker matches Some(waker) ==> wake_next(state, WakeStep::Take).1 == (
        WakeStep::Notify { waker }),
        poll_next(state, PollStep::Check, left).0 == (WaiterState {
            awoken: false,
            waker: state.waker,
        }),
        poll_next(state, PollStep::Check, left).1 is Ready <==> state.awoken,
        poll_next(state, PollStep::Check, left).1 is Register <==> !state.awoken,
        poll_next(state, PollStep::Recheck, left).0 == (WaiterState {
            awoken: false,
            waker: state.waker,
        }),
        poll_next(state, PollStep::Recheck, left).1 is Ready <==> state.awoken,
        poll_next(state, PollStep::Recheck, left).1 is Pending <==> !state.awoken,
        poll_next(state, PollStep::Register, left) == (
            WaiterState { awoken: state.awoken, waker: left },
            PollStep::Recheck,
        ),
{
}

} // verus!
