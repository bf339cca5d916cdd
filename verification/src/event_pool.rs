//! A fixed-capacity ring of pre-allocated output rows, one pool per worker:
//! acquiring hands out the next slot's row, reset.

use vstd::prelude::*;
use vstd::pervasive::VecAdditionalExecFns;
use crate::writer::{EventRow, row_is_reset};

verus! {

/// A ring buffer of reusable output rows.
pub struct EventPool {
    pool: Vec<EventRow>,
    next: usize,
    capacity: usize,
}

/// A point-in-time description of pool usage.
#[derive(Debug, Clone, Copy, PartialEq, Eq, Structural)]
pub struct PoolStats {
    pub capacity: usize,
    pub current_index: usize,
}

impl EventPool {
    /// The pool holds exactly its capacity of rows and the cursor is inside
    /// (at zero for a capacity of zero, which only `acquire` refuses).
    pub closed spec fn well_formed(&self) -> bool {
        self.pool@.len() == self.capacity && (if self.capacity == 0 {
            self.next == 0
        } else {
            self.next < self.capacity
        })
    }

    /// The pool's capacity.
    pub closed spec fn spec_capacity(&self) -> nat {
        self.capacity as nat
    }

    /// The slot the next acquisition uses.
    pub closed spec fn spec_next(&self) -> nat {
        self.next as nat
    }

    /// Creates a pool of `capacity` pre-allocated rows.
    pub fn new(capacity: usize) -> (r: Self)
        ensures
            r.well_formed(),
            r.spec_capacity() == capacity,
            r.spec_next() == 0,
    {
        let mut pool: Vec<EventRow> = Vec::new();
        let mut i: usize = 0;
        while i < capacity
            invariant
                0 <= i <= capacity,
                pool@.len() == i,
            decreases capacity - i,
        {
            pool.push(EventRow::default());
            i = i + 1;
        }
        EventPool { pool, next: 0, capacity }
    }

    /// Hands out the next slot's row, reset, and advances the ring cursor.
    pub fn acquire(&mut self) -> (r: EventRow)
        requires
            old(self).well_formed(),
            old(self).spec_capacity() > 0,
        ensures
            final(self).well_formed(),
            final(self).spec_capacity() == old(self).spec_capacity(),
            final(self).spec_next() == (old(self).spec_next() + 1) % old(self).spec_capacity(),
            row_is_reset(r),
    {
        let row = EventRow::default();
        self.pool.set(self.next, row);
        self.next = (self.next + 1) % self.capacity;
        row
    }

    /// The pool's capacity.
    pub fn capacity(&self) -> (r: usize)
        ensures
            r == self.spec_capacity(),
    {
        self.capacity
    }

    /// A snapshot of pool usage.
    pub fn stats(&self) -> (r: PoolStats)
        ensures
            r.capacity == self.spec_capacity(),
            r.current_index == self.spec_next(),
    {
        PoolStats { capacity: self.capacity, current_index: self.next }
    }
}

} // verus!
