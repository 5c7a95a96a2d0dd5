use std::sync::atomic::Ordering;

use borrow_mutex::atomic_fat_ptr::{Access, AccessOp, AccessStep, AtomicFatPtr};

#[test]
fn pointer_is_loaded_stored_and_swapped() {
    let (a, b) = ("a wide", "pointer");
    let mut ptr: AtomicFatPtr<&str> = AtomicFatPtr::new(None);
    assert_eq!(ptr.load(Ordering::SeqCst), None);
    ptr.store(Some(a), Ordering::Release);
    assert_eq!(ptr.load(Ordering::Acquire), Some(a));
    assert_eq!(ptr.swap(Some(b), Ordering::AcqRel), Some(a));
    assert_eq!(ptr.swap(None, Ordering::AcqRel), Some(b));
    assert_eq!(ptr.load(Ordering::Relaxed), None);

    let mut ptr = AtomicFatPtr::new(Some(&[1u8, 2][..]));
    assert_eq!(ptr.load(Ordering::Relaxed), Some(&[1u8, 2][..]));
}

/// An operation that finds the lock taken waits, and sees what the other one has stored.
#[test]
fn lock_is_waited_for() {
    let mut ptr = AtomicFatPtr::new(Some(1));
    let mut swap = AccessOp::new(Access::Swap { value: Some(2) });
    let mut load = AccessOp::new(Access::Load);
    ptr.advance(&mut swap);
    assert_eq!(swap.step, AccessStep::Read);
    for _ in 0..5 {
        ptr.advance(&mut load);
        assert_eq!(load.step, AccessStep::Lock);
    }
    for _ in 0..3 {
        ptr.advance(&mut swap);
    }
    assert_eq!(swap.step, AccessStep::Done);
    assert_eq!(swap.seen, Some(1));
    for _ in 0..3 {
        ptr.advance(&mut load);
    }
    assert_eq!(load.step, AccessStep::Done);
    assert_eq!(load.seen, Some(2));
}

#[test]
fn store_does_not_read() {
    let store = AccessOp::new(Access::Store { value: Some(3) });
    assert_eq!(store.on_lock(Ok(false)), AccessStep::Write);
    assert_eq!(store.on_lock(Err(true)), AccessStep::Lock);
    assert_eq!(store.to_write(), Some(3));
    let load: AccessOp<u8> = AccessOp::new(Access::Load);
    assert_eq!(load.on_lock(Ok(false)), AccessStep::Read);
    assert_eq!(load.on_read(), AccessStep::Unlock);
}
