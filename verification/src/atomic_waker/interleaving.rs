//! What holds of a cell that any number of polls and wakes work on at once, whatever the order
//! of their accesses.

use crate::atomic_waker;
use crate::atomic_waker::{
    poll_next, pollable, wake_next, CellState, PollStep, WakeStep, AWOKEN, IDLING, REGISTERING,
    WAKING,
};
use core::task::Waker;
use vstd::prelude::*;

verus! {

/// The operation that has the waker to itself.
pub enum Holder {
    Nobody,
    Poll { id: int },
    Wake { id: int },
}

/// A cell with the polls and wakes begun on it, by numbers of their own.
pub struct World {
    pub cell: CellState,
    pub polls: Map<int, PollStep>,
    pub wakes: Map<int, WakeStep>,
    pub holder: Holder,
    /// The poll that is about to answer an earlier wake.
    pub consumer: Option<int>,
    /// A wake has come since a poll last succeeded.
    pub signalled: bool,
    /// How many wakes have made their first access.
    pub woken: int,
    /// How many polls have succeeded.
    pub succeeded: int,
    /// The poll that was begun last.
    pub latest: Option<int>,
    /// A task was woken since one last registered.
    pub notified: bool,
}

pub enum Event {
    BeginPoll { id: int },
    /// A poll makes its next access; `waker` is what a registration leaves in the cell.
    Poll { id: int, waker: Waker },
    BeginWake { id: int },
    /// A wake makes its next access.
    Wake { id: int },
}

impl World {
    /// The world before any event.
    pub open spec fn init() -> World {
        World {
            cell: CellState { waker: None, state: IDLING },
            polls: Map::empty(),
            wakes: Map::empty(),
            holder: Holder::Nobody,
            consumer: None,
            signalled: false,
            woken: 0,
            succeeded: 0,
            latest: None,
            notified: false,
        }
    }

    pub open spec fn enabled(self, event: Event) -> bool {
        match event {
            Event::BeginPoll { id } => !self.polls.dom().contains(id),
            Event::Poll { id, .. } => self.polls.dom().contains(id),
            Event::BeginWake { id } => !self.wakes.dom().contains(id),
            Event::Wake { id } => self.wakes.dom().contains(id),
        }
    }

    pub open spec fn after_poll(self, id: int, waker: Waker) -> World {
        let step = self.polls[id];
        let (cell, next) = poll_next(self.cell, step, Some(waker));
        World {
            cell,
            polls: self.polls.insert(id, next),
            holder: if next is Register {
                Holder::Poll { id }
            } else if step is Leave {
                Holder::Nobody
            } else {
                self.holder
            },
            consumer: if next is Consume {
                Some(id)
            } else if step is Consume {
                None
            } else {
                self.consumer
            },
            signalled: self.signalled && (step is Ready || !(next is Ready)),
            succeeded: if next is Ready && !(step is Ready) {
                self.succeeded + 1
            } else {
                self.succeeded
            },
            notified: self.notified && !(step is Register),
            ..self
        }
    }

    pub open spec fn after_wake(self, id: int) -> World {
        let step = self.wakes[id];
        let (cell, next) = wake_next(self.cell, step);
        World {
            cell,
            wakes: self.wakes.insert(id, next),
            holder: if next is Take {
                Holder::Wake { id }
            } else if step is Leave {
                Holder::Nobody
            } else {
                self.holder
            },
            signalled: self.signalled || step is Enter,
            woken: if step is Enter {
                self.woken + 1
            } else {
                self.woken
            },
            notified: self.notified || (step matches WakeStep::Notify { waker } && waker is Some),
            ..self
        }
    }

    pub open spec fn after(self, event: Event) -> World {
        match event {
            Event::BeginPoll { id } => World {
                polls: self.polls.insert(id, PollStep::Enter),
                latest: Some(id),
                ..self
            },
            Event::Poll { id, waker } => self.after_poll(id, waker),
            Event::BeginWake { id } => World {
                wakes: self.wakes.insert(id, WakeStep::Enter),
                ..self
            },
            Event::Wake { id } => self.after_wake(id),
        }
    }

    /// The poll has the waker to itself.
    pub open spec fn poll_holds(self, id: int) -> bool {
        &&& self.polls.dom().contains(id)
        &&& self.polls[id] is Register || self.polls[id] is Leave
    }

    /// The wake has the waker to itself.
    pub open spec fn wake_holds(self, id: int) -> bool {
        &&& self.wakes.dom().contains(id)
        &&& self.wakes[id] is Take || self.wakes[id] is Leave
    }

    pub open spec fn consumes(self, id: int) -> bool {
        self.polls.dom().contains(id) && self.polls[id] is Consume
    }

    /// The poll waits out a wake.
    pub open spec fn awaits(self, id: int) -> bool {
        self.polls.dom().contains(id) && self.polls[id] is Await
    }

    /// The poll has begun, and is not over.
    pub open spec fn polling(self, id: int) -> bool {
        &&& self.polls.dom().contains(id)
        &&& !(self.polls[id] is Ready) && !(self.polls[id] is Pending)
    }

    /// The latest poll was told to wait.
    pub open spec fn parked(self) -> bool {
        self.latest matches Some(id) && self.polls[id] is Pending
    }

    /// The wake is about to take the waker.
    pub open spec fn takes(self, id: int) -> bool {
        self.wakes.dom().contains(id) && self.wakes[id] is Take
    }

    /// The wake has taken a waker, and is about to wake its task.
    pub open spec fn carries(self, id: int) -> bool {
        self.wakes.dom().contains(id) && match self.wakes[id] {
            WakeStep::Leave { waker } => waker is Some,
            WakeStep::Notify { waker } => waker is Some,
            _ => false,
        }
    }

    /// What is kept where the polls come one at a time: a poll that waits out a wake has one to
    /// wait for, and a task that was told to wait is registered, or was woken, or is about to be.
    pub open spec fn turn_inv(self) -> bool {
        &&& forall|i: int, j: int| #[trigger]
            self.polling(i) && #[trigger] self.polling(j) ==> i == j
        &&& forall|id: int| #[trigger]
            self.awaits(id) ==> self.cell.state & WAKING != 0 || self.cell.state & AWOKEN != 0
        &&& forall|id: int| #[trigger] self.polling(id) ==> self.latest == Some(id)
        &&& self.latest matches Some(id) ==> self.polls.dom().contains(id)
        &&& self.latest matches Some(id) ==> self.polls[id] is Leave ==> self.cell.waker is Some
        &&& self.parked() && !self.signalled ==> self.cell.state == IDLING
        &&& self.parked() ==> self.cell.waker is Some || self.notified || exists|id: int|
            self.carries(id)
        &&& self.parked() && self.signalled && self.cell.waker is Some ==> exists|id: int|
            self.takes(id)
    }

    /// What every interleaving keeps.
    pub open spec fn inv(self) -> bool {
        let state = self.cell.state;
        &&& state <= 7
        &&& forall|id: int| #[trigger]
            self.poll_holds(id) <==> self.holder == (Holder::Poll { id })
        &&& forall|id: int| #[trigger]
            self.wake_holds(id) <==> self.holder == (Holder::Wake { id })
        &&& forall|id: int| #[trigger] self.consumes(id) <==> self.consumer == Some(id)
        &&& self.holder is Poll ==> state & REGISTERING != 0 && state & AWOKEN == 0
        &&& self.holder is Wake ==> state & WAKING != 0 && state & AWOKEN == 0
        &&& self.consumer is Some ==> state & REGISTERING != 0 && state & AWOKEN != 0
        &&& state & WAKING != 0 && state & AWOKEN == 0 ==> !(self.holder is Nobody)
        &&& state & REGISTERING != 0 ==> !(self.holder is Nobody) || self.consumer is Some
        &&& self.holder is Wake && state & REGISTERING != 0 ==> exists|id: int| self.awaits(id)
        &&& self.signalled ==> state & WAKING != 0 || state & AWOKEN != 0
        &&& self.succeeded + if state & WAKING != 0 || state & AWOKEN != 0 {
            1int
        } else {
            0
        } <= self.woken
    }
}

/// The world after a sequence of events.
pub open spec fn run(events: Seq<Event>) -> World
    decreases events.len(),
{
    if events.len() == 0 {
        World::init()
    } else {
        run(events.drop_last()).after(events.last())
    }
}

/// Each of the events could happen when it did.
pub open spec fn feasible(events: Seq<Event>) -> bool
    decreases events.len(),
{
    events.len() == 0 || {
        &&& feasible(events.drop_last())
        &&& run(events.drop_last()).enabled(events.last())
    }
}

/// Each poll began when the one before it was over.
pub open spec fn in_turn(events: Seq<Event>) -> bool
    decreases events.len(),
{
    events.len() == 0 || {
        &&& in_turn(events.drop_last())
        &&& events.last() is BeginPoll ==> forall|id: int|
            !(#[trigger] run(events.drop_last()).polling(id))
    }
}

/// Every access of a poll and of a wake keeps the invariant.
pub proof fn law_step(world: World, event: Event)
    requires
        world.inv(),
        world.enabled(event),
    ensures
        world.after(event).inv(),
{
    let next = world.after(event);
    atomic_waker::lemma_bits(world.cell.state);
    atomic_waker::lemma_bits(next.cell.state);
    match event {
        Event::BeginPoll { id } => {
            assert forall|i: int| #[trigger] next.poll_holds(i) <==> world.poll_holds(i) by {}
            assert forall|i: int| #[trigger] next.wake_holds(i) <==> world.wake_holds(i) by {}
            assert forall|i: int| #[trigger] next.consumes(i) <==> world.consumes(i) by {}
            assert forall|i: int| #[trigger] world.awaits(i) implies next.awaits(i) by {}
        },
        Event::Poll { id, .. } => {
            assert(world.poll_holds(id) <==> world.holder == (Holder::Poll { id }));
            assert(world.consumes(id) <==> world.consumer == Some(id));
            assert forall|i: int| i != id implies (#[trigger] next.poll_holds(i)
                <==> world.poll_holds(i)) by {}
            assert forall|i: int| i != id implies (#[trigger] next.consumes(i)
                <==> world.consumes(i)) by {}
            assert forall|i: int| #[trigger] next.wake_holds(i) <==> world.wake_holds(i) by {}
            assert forall|i: int| #[trigger] world.awaits(i) && i != id implies next.awaits(i) by {}
            assert(next.polls[id] is Await ==> next.awaits(id));
        },
        Event::BeginWake { id } => {
            assert forall|i: int| #[trigger] next.poll_holds(i) <==> world.poll_holds(i) by {}
            assert forall|i: int| #[trigger] next.wake_holds(i) <==> world.wake_holds(i) by {}
            assert forall|i: int| #[trigger] next.consumes(i) <==> world.consumes(i) by {}
            assert forall|i: int| #[trigger] world.awaits(i) implies next.awaits(i) by {}
        },
        Event::Wake { id } => {
            assert(world.wake_holds(id) <==> world.holder == (Holder::Wake { id }));
            assert forall|i: int| i != id implies (#[trigger] next.wake_holds(i)
                <==> world.wake_holds(i)) by {}
            assert forall|i: int| #[trigger] next.poll_holds(i) <==> world.poll_holds(i) by {}
            assert forall|i: int| #[trigger] next.consumes(i) <==> world.consumes(i) by {}
            assert forall|i: int| #[trigger] world.awaits(i) implies next.awaits(i) by {}
        },
    }
}

/// Every interleaving of polls and wakes keeps the invariant.
pub proof fn law_every_run(events: Seq<Event>)
    requires
        feasible(events),
    ensures
        run(events).inv(),
    decreases events.len(),
{
    if events.len() == 0 {
        atomic_waker::lemma_bits(IDLING);
    } else {
        law_every_run(events.drop_last());
        law_step(run(events.drop_last()), events.last());
    }
}

/// No two operations touch the waker at the same time.
pub proof fn law_exclusive(world: World, i: int, j: int)
    requires
        world.inv(),
    ensures
        world.poll_holds(i) ==> !world.wake_holds(j),
        world.poll_holds(i) && world.poll_holds(j) ==> i == j,
        world.wake_holds(i) && world.wake_holds(j) ==> i == j,
{
}

/// A poll never meets a state that it has no answer to.
pub proof fn law_always_pollable(world: World)
    requires
        world.inv(),
    ensures
        pollable(world.cell.state),
{
    atomic_waker::lemma_bits(world.cell.state);
}

/// A poll that begins where no other is under way does not find the registering bit set, and
/// neither does one that has waited out a wake.
proof fn lemma_alone(world: World, id: int)
    requires
        world.inv(),
        world.turn_inv(),
        world.polling(id),
        world.polls[id] is Enter || world.polls[id] is Await && world.cell.state & AWOKEN != 0,
    ensures
        world.cell.state & REGISTERING == 0,
{
    if world.cell.state & REGISTERING != 0 {
        match world.holder {
            Holder::Nobody => {
                let i = world.consumer->0;
                assert(world.consumes(i));
                assert(world.polling(i));
            },
            Holder::Poll { id: i } => {
                assert(world.poll_holds(i));
                assert(world.polling(i));
            },
            Holder::Wake { .. } => {
                let i = choose|i: int| world.awaits(i);
                assert(world.awaits(i));
                assert(world.polling(i));
            },
        }
    }
}

/// Every interleaving in which the polls come one at a time keeps what is said of those.
proof fn lemma_in_turn(events: Seq<Event>)
    requires
        feasible(events),
        in_turn(events),
    ensures
        run(events).inv(),
        run(events).turn_inv(),
    decreases events.len(),
{
    law_every_run(events);
    if events.len() > 0 {
        let world = run(events.drop_last());
        let next = run(events);
        lemma_in_turn(events.drop_last());
        atomic_waker::lemma_bits(world.cell.state);
        atomic_waker::lemma_bits(next.cell.state);
        match events.last() {
            Event::BeginPoll { id } => {
                assert forall|i: int| #[trigger] next.polling(i) implies i == id by {
                    assert(!world.polling(i));
                }
                assert forall|i: int| #[trigger] next.awaits(i) implies false by {
                    assert(!world.polling(i));
                }
            },
            Event::Poll { id, .. } => {
                assert forall|i: int| #[trigger] next.polling(i) implies world.polling(i) by {}
                assert forall|i: int| #[trigger] world.takes(i) implies next.takes(i) by {}
                assert forall|i: int| #[trigger] world.carries(i) implies next.carries(i) by {}
                assert(world.poll_holds(id) <==> world.holder == (Holder::Poll { id }));
                assert(world.polls[id] is Await ==> world.awaits(id));
                if world.polls[id] is Enter || world.polls[id] is Await && world.cell.state & AWOKEN
                    != 0 {
                    assert(world.polling(id));
                    lemma_alone(world, id);
                }
                if world.polls[id] is Leave {
                    assert(world.poll_holds(id));
                    assert(next.polls[id] is Pending ==> !world.signalled);
                } else if !world.polling(id) {
                    assert(next.cell == world.cell && next.signalled == world.signalled);
                    assert(next.parked() == world.parked());
                } else {
                    assert(!next.parked());
                }
                assert forall|i: int| #[trigger] next.awaits(i) implies next.cell.state & WAKING
                    != 0 || next.cell.state & AWOKEN != 0 by {
                    assert(next.polling(i));
                    assert(world.polling(i));
                    if i != id {
                        assert(!world.polling(id));
                        assert(world.awaits(i));
                    } else if world.polls[id] is Await {
                        assert(world.awaits(id));
                    }
                }
            },
            Event::BeginWake { id } => {
                assert forall|i: int| #[trigger] next.polling(i) implies world.polling(i) by {}
                assert forall|i: int| #[trigger] next.awaits(i) implies world.awaits(i) by {}
                assert forall|i: int| #[trigger] world.takes(i) implies next.takes(i) by {}
                assert forall|i: int| #[trigger] world.carries(i) implies next.carries(i) by {}
            },
            Event::Wake { id } => {
                assert forall|i: int| #[trigger] next.polling(i) implies world.polling(i) by {}
                assert forall|i: int| #[trigger] next.awaits(i) implies world.awaits(i) by {}
                assert forall|i: int| #[trigger] world.takes(i) && i != id implies next.takes(
                    i,
                ) by {}
                assert forall|i: int| #[trigger] world.carries(i) && i != id implies next.carries(
                    i,
                ) by {}
                assert(world.wake_holds(id) <==> world.holder == (Holder::Wake { id }));
                if let Some(i) = world.latest {
                    assert(world.poll_holds(i) <==> world.holder == (Holder::Poll { id: i }));
                }
                match world.wakes[id] {
                    WakeStep::Enter => {
                        assert(world.parked() && !world.signalled ==> next.takes(id));
                    },
                    WakeStep::Take => {
                        assert(world.cell.waker is Some ==> next.carries(id));
                    },
                    WakeStep::Leave { waker } => {
                        assert(waker is Some ==> next.carries(id));
                    },
                    _ => {},
                }
            },
        }
    }
}

/// One wake lets one poll succeed, however many polls there are and however they overlap it.
pub proof fn law_one_poll_per_wake(events: Seq<Event>)
    requires
        feasible(events),
    ensures
        run(events).succeeded <= run(events).woken,
{
    law_every_run(events);
}

/// A poll that waits out a wake succeeds with its next accesses once the wake has set the awoken
/// bit, and the wakes that are over have done so. The polls come one at a time.
pub proof fn law_waiting_poll_is_answered(events: Seq<Event>, id: int, waker: Waker)
    requires
        feasible(events),
        in_turn(events),
        run(events).awaits(id),
        run(events).cell.state & AWOKEN != 0 || forall|i: int| #[trigger]
            run(events).wakes.dom().contains(i) ==> run(events).wakes[i] is Done,
    ensures
        run(events).cell.state & AWOKEN != 0,
        ({
            let seen = poll_next(run(events).cell, PollStep::Await, Some(waker));
            let answered = poll_next(seen.0, seen.1, Some(waker));
            &&& seen.1 is Consume
            &&& answered.1 is Ready
            &&& answered.0.state == IDLING
        }),
{
    let world = run(events);
    lemma_in_turn(events);
    atomic_waker::lemma_bits(world.cell.state);
    assert(world.polling(id));
    match world.holder {
        Holder::Nobody => {},
        Holder::Poll { id: i } => {
            assert(world.poll_holds(i));
            assert(world.polling(i));
        },
        Holder::Wake { id: i } => {
            assert(world.wake_holds(i));
        },
    }
    if let Some(i) = world.consumer {
        assert(world.consumes(i));
        assert(world.polling(i));
    }
}

/// No poll waits for ever: where the polls come one at a time and every wake has come to its end,
/// a poll is over after three accesses at most.
pub proof fn law_poll_ends(events: Seq<Event>, id: int, waker: Waker)
    requires
        feasible(events),
        in_turn(events),
        run(events).polling(id),
        forall|i: int| #[trigger]
            run(events).wakes.dom().contains(i) ==> run(events).wakes[i] is Done,
    ensures
        ({
            let one = poll_next(run(events).cell, run(events).polls[id], Some(waker));
            let two = poll_next(one.0, one.1, Some(waker));
            let three = poll_next(two.0, two.1, Some(waker));
            three.1 is Ready || three.1 is Pending
        }),
{
    let world = run(events);
    lemma_in_turn(events);
    atomic_waker::lemma_bits(world.cell.state);
    if world.polls[id] is Await {
        law_waiting_poll_is_answered(events, id, waker);
    }
    match world.holder {
        Holder::Nobody => {},
        Holder::Poll { id: i } => {
            assert(world.poll_holds(i));
            assert(world.polling(i));
        },
        Holder::Wake { id: i } => {
            assert(world.wake_holds(i));
        },
    }
}

/// No wake is lost: where the polls come one at a time, once every wake has come to its end, a
/// task that still waits although a wake has come was woken itself since it registered, so it
/// polls again.
pub proof fn law_no_lost_wake(events: Seq<Event>)
    requires
        feasible(events),
        in_turn(events),
        run(events).parked(),
        run(events).signalled,
        forall|id: int| #[trigger]
            run(events).wakes.dom().contains(id) ==> run(events).wakes[id] is Done,
    ensures
        run(events).notified,
{
    lemma_in_turn(events);
    let world = run(events);
    assert forall|id: int| !world.takes(id) && !world.carries(id) by {
        if world.wakes.dom().contains(id) {}
    }
}

/// A wake is answered, also where nobody has polled before. Once every poll has come to its end,
/// and a wake has come since a poll last succeeded, the next poll answers it, at once or when the
/// wake that is under way is over; and it succeeds at once where every wake has come to its end.
pub proof fn law_wake_is_answered(world: World, waker: Waker)
    requires
        world.inv(),
        forall|id: int| #[trigger]
            world.polls.dom().contains(id) ==> world.polls[id] is Ready
                || world.polls[id] is Pending,
        world.signalled,
    ensures
        ({
            let entered = poll_next(world.cell, PollStep::Enter, Some(waker));
            let left = poll_next(entered.0, entered.1, Some(waker));
            &&& entered.1 is Consume || entered.1 is Await
            &&& entered.1 is Consume ==> left.1 is Ready && left.0.state == IDLING
            &&& (forall|id: int| #[trigger]
                world.wakes.dom().contains(id) ==> world.wakes[id] is Done) ==> entered.1 is Consume
        }),
{
    atomic_waker::lemma_bits(world.cell.state);
    match world.holder {
        Holder::Nobody => {},
        Holder::Poll { id } => {
            assert(world.poll_holds(id));
        },
        Holder::Wake { id } => {
            assert(world.wake_holds(id));
        },
    }
    if let Some(id) = world.consumer {
        assert(world.consumes(id));
    }
}

/// What decides on the accesses of a poll and of a wake. A poll registers its task if and only if
/// nobody else is there; gives up if and only if another poll is; answers a wake that has set the
/// awoken bit, and waits for one that has not. A wake takes the waker if and only if nobody else is
/// there.
pub proof fn law_decisions(state: u8)
    requires
        state <= 7,
    ensures
        pollable(state),
        PollStep::after_enter(state) is Register <==> state == 0,
        PollStep::after_enter(state) is Pending <==> state & 1 != 0,
        PollStep::after_enter(state) is Consume <==> state & 1 == 0 && state & 4 != 0,
        PollStep::after_enter(state) is Await <==> state == 2,
        PollStep::after_leave(state) is Ready <==> state & 2 != 0,
        PollStep::after_leave(state) is Pending <==> state & 2 == 0,
        PollStep::after_await(state) is Await <==> state & 2 != 0 && state & 4 == 0,
        !(PollStep::after_await(state) is Await) ==> PollStep::after_await(state)
            == PollStep::after_enter(state),
        WakeStep::after_enter(state) is Take <==> state == 0,
        WakeStep::after_enter(state) is Done <==> state != 0,
{
    atomic_waker::lemma_bits(state);
    assert(state <= 7 && state & 1 == 0 && state & 4 == 0 && state != 0 ==> state == 2)
        by (bit_vector);
    assert(2u8 & 1 == 0 && 2u8 & 4 == 0 && 0u8 & 1 == 0 && 0u8 & 4 == 0) by (bit_vector);
}

/// What each access does to the cell: only the first access of a poll sets the registering bit, and
/// only that of a wake the waking bit; a registration and a wake that takes the waker change the
/// waker and nothing else; and each operation that is done with the waker leaves the state as the
/// next one needs it.
pub proof fn law_accesses(cell: CellState, waker: Option<Waker>, taken: Option<Waker>)
    ensures
        poll_next(cell, PollStep::Enter, waker).0 == (CellState {
            waker: cell.waker,
            state: cell.state | 1,
        }),
        poll_next(cell, PollStep::Await, waker).0 == (CellState {
            waker: cell.waker,
            state: cell.state | 1,
        }),
        poll_next(cell, PollStep::Register, waker) == (
            CellState { waker, state: cell.state },
            PollStep::Leave,
        ),
        poll_next(cell, PollStep::Leave, waker).0 == (CellState { waker: cell.waker, state: 0 }),
        poll_next(cell, PollStep::Consume, waker) == (
            CellState { waker: cell.waker, state: 0 },
            PollStep::Ready,
        ),
        wake_next(cell, WakeStep::Enter).0 == (CellState {
            waker: cell.waker,
            state: cell.state | 2,
        }),
        wake_next(cell, WakeStep::Take) == (
            CellState { waker: None, state: cell.state },
            WakeStep::Leave { waker: cell.waker },
        ),
        wake_next(cell, WakeStep::Leave { waker: taken }) == (
            CellState { waker: cell.waker, state: 4 },
            WakeStep::Notify { waker: taken },
        ),
{
}

} // verus!
