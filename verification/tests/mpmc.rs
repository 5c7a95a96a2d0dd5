use borrow_mutex::mpmc::ring::{PopOp, PushOp};
use borrow_mutex::mpmc::steps::{queued, slot_index, PopStep, PushStep};
use borrow_mutex::mpmc::{MPMCRef, MPMC};

#[test]
fn validate_ring_field_offset() {
    // four counters and the size come before the slots
    let header = 5 * core::mem::size_of::<usize>();
    assert_eq!(MPMC::<0, usize>::ring_offset(), header);
    assert_eq!(MPMC::<0, &dyn core::any::Any>::ring_offset(), header);
}

#[test]
fn ring_offset_is_aligned() {
    let header = 5 * core::mem::size_of::<usize>();
    let align = core::mem::align_of::<u128>();
    let offset = MPMC::<0, u128>::ring_offset();
    assert_eq!(offset % align, 0);
    assert!(header <= offset && offset < header + align);
    assert_eq!(MPMC::<0, u8>::ring_offset(), header);
}

#[derive(Debug)]
struct SpamObject {
    push_counter: usize,
    pop_counter: usize,
}

#[derive(Debug, Default)]
struct ThreadStats {
    push_counter: usize,
    pop_counter: usize,
    dropped_push_counter: usize,
    dropped_pop_counter: usize,
}

enum Doing {
    Push(PushOp<SpamObject>),
    Pop(PopOp<SpamObject>),
    PushBack(PushOp<SpamObject>),
}

fn push_new() -> Doing {
    Doing::Push(PushOp::new(SpamObject {
        push_counter: 1,
        pop_counter: 0,
    }))
}

/// Several threads doing concurrent pushes and pops for a fixed number of iterations, one access
/// of one of them at a time, in an order that is picked at random. Afterwards the MPMC is checked
/// for validity.
#[test]
fn mpmc_spam() {
    let mut mpmc = MPMC::<128, SpamObject>::new();

    assert!(mpmc.is_empty());
    assert!(!mpmc.is_full());
    assert_eq!(mpmc.len(), 0);
    assert_eq!(mpmc.capacity(), 128 - 1);

    let num_threads = 8;
    let num_iters = 65539;

    let mut stats: Vec<ThreadStats> = Vec::new();
    let mut threads: Vec<(usize, Doing)> = Vec::new();
    for _ in 0..num_threads {
        stats.push(ThreadStats::default());
        threads.push((num_iters, push_new()));
    }

    let mut seed: u64 = 0x9e37_79b9_7f4a_7c15;
    let mut running = num_threads;
    let shared = mpmc.as_ptr();
    while running > 0 {
        seed ^= seed << 13;
        seed ^= seed >> 7;
        seed ^= seed << 17;
        let n = (seed % num_threads as u64) as usize;
        let (left, doing) = &mut threads[n];
        if *left == 0 {
            continue;
        }
        let stat = &mut stats[n];
        let mut iteration_over = false;
        match doing {
            Doing::Push(op) => {
                op.advance(shared.counters, shared.slots);
                if op.step.finished() {
                    if matches!(op.step, PushStep::Done { .. }) {
                        stat.push_counter += 1;
                    }
                    *doing = Doing::Pop(PopOp::new());
                }
            }
            Doing::Pop(op) => {
                op.advance(shared.counters, shared.slots);
                if op.step.finished() {
                    match op.val.take() {
                        Some(mut popped) => {
                            popped.pop_counter += 1;
                            stat.pop_counter += 1;
                            // increment it optimistically
                            popped.push_counter += 1;
                            *doing = Doing::PushBack(PushOp::new(popped));
                        }
                        None => iteration_over = true,
                    }
                }
            }
            Doing::PushBack(op) => {
                op.advance(shared.counters, shared.slots);
                if op.step.finished() {
                    match op.val.take() {
                        None => stat.push_counter += 1,
                        Some(popped) => {
                            stat.dropped_push_counter += popped.push_counter - 1;
                            stat.dropped_pop_counter += popped.pop_counter;
                        }
                    }
                    iteration_over = true;
                }
            }
        }
        if iteration_over {
            *doing = push_new();
            *left -= 1;
            if *left == 0 {
                running -= 1;
            }
        }
    }

    let mut pushes: usize = 0;
    let mut pops: usize = 0;
    let mut dropped_pushes: usize = 0;
    let mut dropped_pops: usize = 0;
    let mut non_popped_count: isize = 0;
    for stat in stats {
        non_popped_count += stat.push_counter as isize - stat.pop_counter as isize;
        pushes += stat.push_counter;
        pops += stat.pop_counter;
        dropped_pushes += stat.dropped_push_counter;
        dropped_pops += stat.dropped_pop_counter;
    }
    assert_eq!(non_popped_count, mpmc.capacity() as isize);
    assert_eq!(non_popped_count, mpmc.len() as isize);

    let mut obj_average_pushes: usize = 0;
    let mut obj_average_pops: usize = 0;

    let mut popped_count = 0;
    while let Some(popped) = mpmc.pop() {
        obj_average_pushes += popped.push_counter;
        obj_average_pops += popped.pop_counter;
        popped_count += 1;
    }
    assert_eq!(popped_count, mpmc.capacity());
    assert_eq!(0, mpmc.len());

    println!("{}", obj_average_pushes / mpmc.capacity());
    println!("{}", obj_average_pops / mpmc.capacity());

    assert!(obj_average_pushes >= obj_average_pops);
    // every push and every pop is on an object that is still there or was dropped
    assert_eq!(pushes, obj_average_pushes + dropped_pushes);
    assert_eq!(pops, obj_average_pops + dropped_pops);
}

#[test]
fn elements_come_out_in_order() {
    let mut mpmc = MPMC::<4, u32>::new();
    assert_eq!(mpmc.capacity(), 3);
    assert_eq!(mpmc.pop(), None);
    assert_eq!(mpmc.peek(), None);

    assert_eq!(mpmc.push(10), Ok(0));
    assert_eq!(mpmc.push(11), Ok(1));
    assert!(!mpmc.is_full());
    assert_eq!(mpmc.push(12), Ok(2));
    assert!(mpmc.is_full());
    assert_eq!(mpmc.push(13), Err(13));
    assert_eq!(mpmc.len(), 3);

    assert_eq!(mpmc.peek(), Some(&10));
    assert_eq!(mpmc.len(), 3);
    assert_eq!(mpmc.pop(), Some(10));
    assert_eq!(mpmc.pop(), Some(11));
    assert_eq!(mpmc.len(), 1);

    // the slots are used again, in a circle
    assert_eq!(mpmc.push(14), Ok(3));
    assert_eq!(mpmc.push(15), Ok(0));
    assert_eq!(mpmc.front_slot(), 2);
    assert_eq!(mpmc.pop(), Some(12));
    assert_eq!(mpmc.pop(), Some(14));
    assert_eq!(mpmc.pop(), Some(15));
    assert_eq!(mpmc.pop(), None);
    assert!(mpmc.is_empty());
}

#[test]
fn smallest_queue_has_room_for_one() {
    let mut mpmc = MPMC::<2, &str>::new();
    for _ in 0..5 {
        assert!(mpmc.push("one").is_ok());
        assert_eq!(mpmc.push("two"), Err("two"));
        assert_eq!(mpmc.pop(), Some("one"));
        assert_eq!(mpmc.pop(), None);
    }
}

#[test]
fn elements_are_changed_in_place() {
    let mut mpmc = MPMC::<8, String>::new();
    let a = mpmc.push("a".to_string()).unwrap();
    let b = mpmc.push("b".to_string()).unwrap();
    mpmc.slot_mut(b).push('!');
    assert_eq!(mpmc.slot(a), "a");
    assert_eq!(mpmc.slot(b), "b!");
    assert_eq!(mpmc.pop(), Some("a".to_string()));
    assert_eq!(mpmc.slot(b), "b!");
    assert_eq!(mpmc.pop(), Some("b!".to_string()));
}

#[test]
fn reference_works_on_the_same_queue() {
    let mut mpmc = MPMC::<4, u8>::new();
    assert_eq!(mpmc.push(1), Ok(0));
    let mut mpmc_ref = MPMCRef::from_ptr(&mut mpmc);
    assert_eq!(mpmc_ref.capacity(), 3);
    assert_eq!(mpmc_ref.push(2), Ok(1));
    assert_eq!(mpmc_ref.push(3), Ok(2));
    assert!(mpmc_ref.is_full());
    assert_eq!(mpmc_ref.push(4), Err(4));
    assert_eq!(mpmc_ref.peek(), Some(&1));
    assert_eq!(mpmc_ref.pop(), Some(1));
    assert_eq!(mpmc_ref.len(), 2);
    assert!(!mpmc_ref.is_empty());
    assert_eq!(mpmc.len(), 2);
    assert_eq!(mpmc.pop(), Some(2));
}

#[test]
fn queue_in_words() {
    let mut mpmc = MPMC::<128, u8>::new();
    assert_eq!(mpmc.debug_text(), "MPMC { capacity: 127, len: 0 }");
    for n in 0..42 {
        assert!(mpmc.push(n).is_ok());
    }
    assert_eq!(mpmc.debug_text(), "MPMC { capacity: 127, len: 42 }");
}

#[test]
fn counters_wrap_around() {
    assert_eq!(queued(1, usize::MAX, 3, 3), 2);
    assert_eq!(queued(5, 5, 7, 7), 0);
    // a ring that takes as many elements as it has slots
    assert_eq!(queued(2, usize::MAX - 1, 3, 4), 4);
    assert_eq!(queued(2, 2, 3, 4), 0);
    assert_eq!(slot_index(usize::MAX, 15), 15);
    assert_eq!(slot_index(16, 15), 0);

    // full: the head is `capacity` ahead of the tail, across the end of the word
    let step = PushStep::LoadTail { head: 1 };
    assert_eq!(step.on_load(usize::MAX - 1, 3), PushStep::Full);
    assert_eq!(
        step.on_load(usize::MAX, 3),
        PushStep::Reserve { head: 1 }
    );
}

#[test]
fn failed_reservation_starts_over() {
    let step = PushStep::Reserve { head: 4 };
    assert_eq!(step.on_exchange(Err(6)), PushStep::LoadTail { head: 6 });
    assert_eq!(step.on_exchange(Ok(4)), PushStep::Write { head: 4 });
    assert_eq!(
        PushStep::Write { head: 4 }.on_write(),
        PushStep::Publish { head: 4 }
    );
    let step = PushStep::Publish { head: 4 };
    assert_eq!(step.on_exchange(Err(3)), step);
    assert_eq!(step.on_exchange(Ok(4)), PushStep::Done { head: 4 });

    let step = PopStep::Reserve { head: 4 };
    assert_eq!(step.on_exchange(Err(6)), PopStep::LoadTail { head: 6 });
    assert_eq!(step.on_exchange(Ok(4)), PopStep::Read { head: 4 });
    assert_eq!(
        PopStep::Read { head: 4 }.on_read(),
        PopStep::Publish { head: 4 }
    );
    let step = PopStep::Publish { head: 4 };
    assert_eq!(step.on_exchange(Err(3)), step);
    assert_eq!(step.on_exchange(Ok(4)), PopStep::Done { head: 4 });

    assert_eq!(PopStep::LoadTail { head: 4 }.on_load(4), PopStep::Empty);
}

/// A push that has reserved its place first is published first, and the other waits for it.
#[test]
fn pushes_are_published_in_order() {
    let mut mpmc = MPMC::<4, u8>::new();
    let shared = mpmc.as_ptr();
    let mut first = PushOp::new(1);
    let mut second = PushOp::new(2);
    for _ in 0..3 {
        first.advance(shared.counters, shared.slots);
    }
    for _ in 0..10 {
        second.advance(shared.counters, shared.slots);
    }
    assert_eq!(first.step, PushStep::Write { head: 0 });
    assert_eq!(second.step, PushStep::Publish { head: 1 });

    // nothing can be popped yet
    let mut pop = PopOp::new();
    for _ in 0..5 {
        pop.advance(shared.counters, shared.slots);
    }
    assert_eq!(pop.step, PopStep::Empty);

    first.advance(shared.counters, shared.slots);
    first.advance(shared.counters, shared.slots);
    assert_eq!(first.step, PushStep::Done { head: 0 });
    second.advance(shared.counters, shared.slots);
    assert_eq!(second.step, PushStep::Done { head: 1 });
    assert_eq!(mpmc.pop(), Some(1));
    assert_eq!(mpmc.pop(), Some(2));
}
