//! Borrow state of a guarded entity.
//!
//! Every guarded entity (a kernel object, a capability slot) carries one
//! [`BorrowState`]. Access is checked at run time: any number of shared holders
//! or one exclusive holder, never both. A request that cannot be granted fails
//! at once instead of waiting.

use vstd::prelude::*;

verus! {

/// The error of a borrow that conflicts with the holders already present.
#[derive(Debug, Clone, Copy, PartialEq, Eq, Structural)]
pub enum BorrowError {
    AlreadyBorrowed,
}

/// Who currently holds a guarded entity.
#[derive(Debug, Clone, Copy, PartialEq, Eq, Structural)]
pub enum BorrowState {
    /// Nobody holds it.
    Free,
    /// This many shared holders, at least one.
    Shared(usize),
    /// One exclusive holder.
    Exclusive,
}

impl BorrowState {
    /// A shared count is never zero.
    pub open spec fn wf(self) -> bool {
        self matches BorrowState::Shared(n) ==> n >= 1
    }

    /// Whether a shared borrow is granted in this state.
    pub open spec fn admits_shared(self) -> bool {
        match self {
            BorrowState::Free => true,
            BorrowState::Shared(n) => n < usize::MAX,
            BorrowState::Exclusive => false,
        }
    }

    /// Whether an exclusive borrow is granted in this state.
    pub open spec fn admits_exclusive(self) -> bool {
        self is Free
    }

    /// Whether the entity can be read without taking a guard: no exclusive
    /// holder is present.
    pub open spec fn readable(self) -> bool {
        !(self is Exclusive)
    }

    /// The state after one more shared holder has been admitted.
    pub open spec fn with_shared(self) -> Self {
        match self {
            BorrowState::Shared(n) => BorrowState::Shared((n + 1) as usize),
            _ => BorrowState::Shared(1),
        }
    }

    /// The state after one shared holder has left.
    pub open spec fn without_shared(self) -> Self {
        match self {
            BorrowState::Shared(n) => if n <= 1 {
                BorrowState::Free
            } else {
                BorrowState::Shared((n - 1) as usize)
            },
            other => other,
        }
    }

    /// The state after the exclusive holder has left.
    pub open spec fn without_exclusive(self) -> Self {
        match self {
            BorrowState::Exclusive => BorrowState::Free,
            other => other,
        }
    }

    /// The state of an entity that nobody holds.
    pub fn new() -> (state: Self)
        ensures
            state == BorrowState::Free,
            state.wf(),
    {
        BorrowState::Free
    }

    /// Whether nobody holds the entity.
    pub fn is_free(&self) -> (free: bool)
        ensures
            free == self.admits_exclusive(),
    {
        match self {
            BorrowState::Free => true,
            _ => false,
        }
    }

    /// Whether no exclusive holder is present.
    pub fn is_readable(&self) -> (readable: bool)
        ensures
            readable == self.readable(),
    {
        match self {
            BorrowState::Exclusive => false,
            _ => true,
        }
    }

    /// Admits one more shared holder, unless an exclusive holder is present or
    /// the count of shared holders cannot grow.
    pub fn try_borrow(&mut self) -> (res: Result<(), BorrowError>)
        requires
            old(self).wf(),
        ensures
            final(self).wf(),
            res is Ok <==> old(self).admits_shared(),
            res is Ok ==> *final(self) == old(self).with_shared(),
            res is Err ==> *final(self) == *old(self),
    {
        match *self {
            BorrowState::Free => {
                *self = BorrowState::Shared(1);
                Ok(())
            },
            BorrowState::Shared(n) => {
                if n < usize::MAX {
                    *self = BorrowState::Shared(n + 1);
                    Ok(())
                } else {
                    Err(BorrowError::AlreadyBorrowed)
                }
            },
            BorrowState::Exclusive => Err(BorrowError::AlreadyBorrowed),
        }
    }

    /// Admits the exclusive holder, unless anybody holds the entity.
    pub fn try_borrow_mut(&mut self) -> (res: Result<(), BorrowError>)
        requires
            old(self).wf(),
        ensures
            final(self).wf(),
            res is Ok <==> old(self).admits_exclusive(),
            res is Ok ==> *final(self) == BorrowState::Exclusive,
            res is Err ==> *final(self) == *old(self),
    {
        match *self {
            BorrowState::Free => {
                *self = BorrowState::Exclusive;
                Ok(())
            },
            _ => Err(BorrowError::AlreadyBorrowed),
        }
    }

    /// Lets one shared holder go. Returns whether there was one.
    pub fn release(&mut self) -> (released: bool)
        requires
            old(self).wf(),
        ensures
            final(self).wf(),
            released == (*old(self) is Shared),
            *final(self) == old(self).without_shared(),
    {
        match *self {
            BorrowState::Shared(n) => {
                if n <= 1 {
                    *self = BorrowState::Free;
                } else {
                    *self = BorrowState::Shared(n - 1);
                }
                true
            },
            _ => false,
        }
    }

    /// Lets the exclusive holder go. Returns whether there was one.
    pub fn release_mut(&mut self) -> (released: bool)
        requires
            old(self).wf(),
        ensures
            final(self).wf(),
            released == (*old(self) is Exclusive),
            *final(self) == old(self).without_exclusive(),
    {
        match *self {
            BorrowState::Exclusive => {
                *self = BorrowState::Free;
                true
            },
            _ => false,
        }
    }
}

/// The two ways to hold a guarded entity.
#[derive(Debug, Clone, Copy, PartialEq, Eq, Structural)]
pub enum Access {
    /// Together with other shared holders, to read.
    Shared,
    /// Alone, to write.
    Exclusive,
}

impl Access {
    /// Whether a guard in state `guard` admits one more holder of this kind.
    pub open spec fn admitted(self, guard: BorrowState) -> bool {
        match self {
            Access::Shared => guard.admits_shared(),
            Access::Exclusive => guard.admits_exclusive(),
        }
    }

    /// The guard after one more holder of this kind has been admitted.
    pub open spec fn acquired(self, guard: BorrowState) -> BorrowState {
        match self {
            Access::Shared => guard.with_shared(),
            Access::Exclusive => BorrowState::Exclusive,
        }
    }

    /// Whether a guard in state `guard` has a holder of this kind.
    pub open spec fn held(self, guard: BorrowState) -> bool {
        match self {
            Access::Shared => guard is Shared,
            Access::Exclusive => guard is Exclusive,
        }
    }

    /// The guard after one holder of this kind has left.
    pub open spec fn released(self, guard: BorrowState) -> BorrowState {
        match self {
            Access::Shared => guard.without_shared(),
            Access::Exclusive => guard.without_exclusive(),
        }
    }
}

} // verus!
