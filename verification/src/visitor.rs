//! The visitor count and the write barrier of a pool.
//!
//! Every operator that takes or returns a value registers as a visitor first and
//! leaves when it is done. An operator that wants the pool for itself raises the
//! barrier, which keeps new visitors out, and waits until the count is down to
//! its resting value of one; it then swaps the one for a zero, does its work, and
//! restores both.

use vstd::prelude::*;
use crate::bits::cpu_relax;

verus! {
/// The count at rest: no visitor is inside.
pub const NO_VISITOR: usize = 1;

/// How often an exclusive operator that does not block looks at the count.
pub const DRAIN_TRIALS: usize = 8;

/// How often an exclusive operator that blocks looks at the count.
pub const DRAIN_TRIALS_BLOCKING: usize = 64;

/// What the counter is: the count, and whether the barrier is up.
pub struct VisitorsView {
    /// One more than the number of visitors inside; zero while an exclusive
    /// operator has the pool.
    pub count: usize,
    /// Whether the barrier is up.
    pub barrier: bool,
}

impl VisitorsView {
    /// Nobody is inside and nobody asks to be alone.
    pub open spec fn idle(self) -> bool {
        self.count == NO_VISITOR && !self.barrier
    }

    /// An exclusive operator has the pool for itself.
    pub open spec fn exclusive(self) -> bool {
        self.count == 0 && self.barrier
    }
}

/// Visitor count and write barrier.
pub struct Visitors {
    count: usize,
    barrier: bool,
}

/// Proof of a registration; handing it back ends the visit.
pub struct VisitorGuard {}

impl View for Visitors {
    type V = VisitorsView;

    closed spec fn view(&self) -> VisitorsView {
        VisitorsView { count: self.count, barrier: self.barrier }
    }
}

impl Visitors {
    /// A counter at rest.
    pub fn new() -> (r: Self)
        ensures
            r@.idle(),
    {
        Visitors { count: NO_VISITOR, barrier: false }
    }

    /// Raises the barrier. Fails, and changes nothing, if it is up already.
    pub fn raise(&mut self) -> (r: bool)
        ensures
            r == !old(self)@.barrier,
            final(self)@ == (VisitorsView { barrier: true, ..old(self)@ }),
    {
        if self.barrier {
            return false;
        }
        self.barrier = true;
        true
    }

    /// Waits for the visitors to leave and then takes the count from one to zero.
    /// Gives up after a bounded number of looks, sooner if `block` is not set.
    /// Succeeds exactly if no visitor is inside.
    pub fn drain(&mut self, block: bool) -> (r: bool)
        ensures
            r == (old(self)@.count == NO_VISITOR),
            final(self)@ == if r {
                VisitorsView { count: 0, ..old(self)@ }
            } else {
                old(self)@
            },
            r && old(self)@.barrier ==> final(self)@.exclusive(),
    {
        let mut count: usize = if block {
            DRAIN_TRIALS_BLOCKING
        } else {
            DRAIN_TRIALS
        };
        while count > 0
            invariant
                *self == *old(self),
                count <= DRAIN_TRIALS_BLOCKING,
            decreases count,
        {
            if self.count == NO_VISITOR {
                self.count = 0;
                return true;
            }
            cpu_relax(2);
            count -= 1;
        }
        if self.count == NO_VISITOR {
            self.count = 0;
            return true;
        }
        false
    }

    /// Lowers the barrier.
    pub fn lower(&mut self)
        ensures
            final(self)@ == (VisitorsView { barrier: false, ..old(self)@ }),
    {
        self.barrier = false;
    }

    /// Ends an exclusive operation: the count goes back to one and the barrier
    /// down.
    pub fn restore(&mut self)
        ensures
            final(self)@.idle(),
    {
        self.count = NO_VISITOR;
        self.barrier = false;
    }
}

impl VisitorGuard {
    /// Registers a visitor. While the barrier is up nobody gets in: a visitor that
    /// wants a value (`get`) is turned away at once, any other after a bounded
    /// wait.
    pub fn register(base: &mut Visitors, get: bool) -> (r: Option<VisitorGuard>)
        requires
            old(base)@.count < usize::MAX,
        ensures
            r is Some <==> !old(base)@.barrier,
            final(base)@ == if r is Some {
                VisitorsView { count: (old(base)@.count + 1) as usize, ..old(base)@ }
            } else {
                old(base)@
            },
    {
        let mut count: usize = 8;
        while base.barrier
            invariant
                *base == *old(base),
                4 <= count <= 8,
            decreases count,
        {
            if get || count <= 4 {
                return None;
            }
            cpu_relax(count);
            count -= 1;
        }
        base.count = base.count + 1;
        Some(VisitorGuard {  })
    }

    /// Ends the visit.
    pub fn leave(self, base: &mut Visitors)
        requires
            old(base)@.count > 0,
        ensures
            final(base)@ == (VisitorsView { count: (old(base)@.count - 1) as usize, ..old(base)@ }),
    {
        base.count = base.count - 1;
    }
}
} // verus!
