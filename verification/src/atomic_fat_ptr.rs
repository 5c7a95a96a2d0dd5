//! A pointer of any width behind a spin lock.

use core::sync::atomic::Ordering;
use vstd::prelude::*;

pub mod interleaving;

verus! {

/// What is stored: the pointer, and the lock.
pub struct FatPtrState<T> {
    pub inner: Option<T>,
    pub locked: bool,
}

/// What an operation is for.
pub enum Access<T> {
    Load,
    Store { value: Option<T> },
    Swap { value: Option<T> },
}

/// The next access of an operation.
#[derive(Clone, Copy, Debug, PartialEq, Eq, Structural)]
pub enum AccessStep {
    /// Set the lock, if it is not set.
    Lock,
    /// Read the pointer.
    Read,
    /// Write the pointer.
    Write,
    /// Clear the lock.
    Unlock,
    Done,
}

impl AccessStep {
    pub open spec fn remaining(self) -> nat {
        match self {
            AccessStep::Lock => 4,
            AccessStep::Read => 3,
            AccessStep::Write => 2,
            AccessStep::Unlock => 1,
            AccessStep::Done => 0,
        }
    }
}

/// An operation under way, and the pointer that it has read.
pub struct AccessOp<T> {
    pub access: Access<T>,
    pub step: AccessStep,
    pub seen: Option<T>,
}

impl<T> AccessOp<T> {
    pub open spec fn after_lock(self, result: Result<bool, bool>) -> AccessStep {
        match (self.access, result) {
            (_, Err(_)) => AccessStep::Lock,
            (Access::Store { .. }, Ok(_)) => AccessStep::Write,
            (_, Ok(_)) => AccessStep::Read,
        }
    }

    pub open spec fn after_read(self) -> AccessStep {
        match self.access {
            Access::Swap { .. } => AccessStep::Write,
            _ => AccessStep::Unlock,
        }
    }

    pub open spec fn written(self) -> Option<T> {
        match self.access {
            Access::Store { value } | Access::Swap { value } => value,
            Access::Load => None,
        }
    }
}

/// One access of an operation; `spurious` fails to take the lock for no reason.
pub open spec fn access_next<T>(state: FatPtrState<T>, op: AccessOp<T>, spurious: bool) -> (
    FatPtrState<T>,
    AccessOp<T>,
) {
    match op.step {
        AccessStep::Lock => if !state.locked && !spurious {
            (
                FatPtrState { locked: true, ..state },
                AccessOp { step: op.after_lock(Ok(false)), ..op },
            )
        } else {
            (state, AccessOp { step: op.after_lock(Err(state.locked)), ..op })
        },
        AccessStep::Read => (state, AccessOp { step: op.after_read(), seen: state.inner, ..op }),
        AccessStep::Write => (
            FatPtrState { inner: op.written(), ..state },
            AccessOp { step: AccessStep::Unlock, ..op },
        ),
        AccessStep::Unlock => (
            FatPtrState { locked: false, ..state },
            AccessOp { step: AccessStep::Done, ..op },
        ),
        AccessStep::Done => (state, op),
    }
}

impl<T: Copy> AccessOp<T> {
    /// An operation that has not started.
    pub fn new(access: Access<T>) -> (op: AccessOp<T>)
        ensures
            op == (AccessOp { access, step: AccessStep::Lock, seen: None }),
    {
        AccessOp { access, step: AccessStep::Lock, seen: None }
    }

    /// The step after the lock was taken, or was found taken: then it is tried again.
    pub fn on_lock(&self, result: Result<bool, bool>) -> (next: AccessStep)
        ensures
            next == self.after_lock(result),
    {
        match (&self.access, result) {
            (_, Err(_)) => AccessStep::Lock,
            (Access::Store { .. }, Ok(_)) => AccessStep::Write,
            (_, Ok(_)) => AccessStep::Read,
        }
    }

    /// The step after the pointer was read.
    pub fn on_read(&self) -> (next: AccessStep)
        ensures
            next == self.after_read(),
    {
        match &self.access {
            Access::Swap { .. } => AccessStep::Write,
            _ => AccessStep::Unlock,
        }
    }

    /// The pointer that the operation writes.
    pub fn to_write(&self) -> (value: Option<T>)
        ensures
            value == self.written(),
    {
        match &self.access {
            Access::Store { value } | Access::Swap { value } => *value,
            Access::Load => None,
        }
    }
}

/// A pointer that is loaded and stored as a whole, however wide it is. `T` is the pointer.
pub struct AtomicFatPtr<T> {
    inner: Option<T>,
    locked: bool,
}

impl<T: Copy> AtomicFatPtr<T> {
    pub closed spec fn state(&self) -> FatPtrState<T> {
        FatPtrState { inner: self.inner, locked: self.locked }
    }

    /// The stored pointer.
    pub open spec fn view(&self) -> Option<T> {
        self.state().inner
    }

    /// No operation is under way.
    pub open spec fn wf(&self) -> bool {
        !self.state().locked
    }

    pub fn new(value: Option<T>) -> (ptr: AtomicFatPtr<T>)
        ensures
            ptr.wf(),
            ptr@ == value,
    {
        AtomicFatPtr { inner: value, locked: false }
    }

    /// Takes the lock if it is free.
    fn try_lock(&mut self) -> (result: Result<bool, bool>)
        ensures
            !old(self).state().locked ==> result == Ok::<bool, bool>(false)
                && final(self).state() == (FatPtrState { locked: true, ..old(self).state() }),
            old(self).state().locked ==> result == Err::<bool, bool>(true)
                && final(self).state() == old(self).state(),
    {
        if self.locked {
            Err(true)
        } else {
            self.locked = true;
            Ok(false)
        }
    }

    /// Makes the next access of `op`.
    pub fn advance(&mut self, op: &mut AccessOp<T>)
        ensures
            (final(self).state(), *final(op)) == access_next(old(self).state(), *old(op), false),
    {
        match op.step {
            AccessStep::Lock => {
                let result = self.try_lock();
                op.step = op.on_lock(result);
            },
            AccessStep::Read => {
                op.seen = self.inner;
                op.step = op.on_read();
            },
            AccessStep::Write => {
                self.inner = op.to_write();
                op.step = AccessStep::Unlock;
            },
            AccessStep::Unlock => {
                self.locked = false;
                op.step = AccessStep::Done;
            },
            AccessStep::Done => {},
        }
    }

    /// Makes every access of an operation, and gives the pointer that it has read.
    fn perform(&mut self, access: Access<T>) -> (seen: Option<T>)
        requires
            old(self).wf(),
        ensures
            final(self).wf(),
            match access {
                Access::Load => final(self)@ == old(self)@ && seen == old(self)@,
                Access::Store { value } => final(self)@ == value,
                Access::Swap { value } => final(self)@ == value && seen == old(self)@,
            },
    {
        let mut op = AccessOp::new(access);
        while !matches!(op.step, AccessStep::Done)
            invariant
                op.access == access,
                self.state().locked == !(op.step is Lock || op.step is Done),
                match op.step {
                    AccessStep::Lock => self@ == old(self)@,
                    AccessStep::Read => self@ == old(self)@ && !(access is Store),
                    AccessStep::Write => self@ == old(self)@ && !(access is Load) && (
                    access is Swap ==> op.seen == old(self)@),
                    AccessStep::Unlock | AccessStep::Done => match access {
                        Access::Load => self@ == old(self)@ && op.seen == old(self)@,
                        Access::Store { value } => self@ == value,
                        Access::Swap { value } => self@ == value && op.seen == old(self)@,
                    },
                },
            decreases op.step.remaining(),
        {
            self.advance(&mut op);
        }
        op.seen
    }

    /// The stored pointer. Every access is made under the lock, whatever `_ordering` asks for.
    pub fn load(&mut self, _ordering: Ordering) -> (r: Option<T>)
        requires
            old(self).wf(),
        ensures
            final(self).wf(),
            r == old(self)@,
            final(self)@ == old(self)@,
    {
        self.perform(Access::Load)
    }

    /// Stores `value`.
    pub fn store(&mut self, value: Option<T>, _ordering: Ordering)
        requires
            old(self).wf(),
        ensures
            final(self).wf(),
            final(self)@ == value,
    {
        self.perform(Access::Store { value });
    }

    /// Stores `value`, and gives back what was stored before.
    pub fn swap(&mut self, value: Option<T>, _ordering: Ordering) -> (r: Option<T>)
        requires
            old(self).wf(),
        ensures
            final(self).wf(),
            r == old(self)@,
            final(self)@ == value,
    {
        self.perform(Access::Swap { value })
    }
}

} // verus!
