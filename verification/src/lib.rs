//! An async mutex that does not own what it guards: a reference is lended to it for a time, and
//! others borrow it, one at a time and in the order in which they asked.
//!
//! Each piece comes in two forms. Its methods take `&mut self` and say exactly what they do to
//! the state behind it. They are made of single accesses, which can also be made by tasks that
//! share the state; the `interleaving` module next to each piece says what every order of such
//! accesses keeps. For the mutex, that is [`borrow_mutex::threads`], and
//! [`borrow_mutex::interleaving`] is about the order of whole calls.

pub mod atomic_fat_ptr;
pub mod atomic_waiter;
pub mod atomic_waker;
pub mod borrow_mutex;
pub mod counter;
pub mod mpmc;
pub mod task;
pub mod text;

pub use crate::borrow_mutex::{
    BorrowMutex, BorrowMutexAbort, BorrowMutexError, BorrowMutexGuardArmed,
    BorrowMutexGuardUnarmed, BorrowMutexLendGuard, BorrowMutexLender, BorrowMutexTerminate,
};
