//! Batches of output rows handed from generation workers to writer tasks,
//! and the message protocol between them. The writer tasks themselves do
//! file I/O and live with the program around the library.

use vstd::prelude::*;
use crate::writer::EventRow;

verus! {

/// The estimated on-disk size of one row, in bytes.
pub const ROW_SIZE_ESTIMATE: usize = 230;

/// A batch of rows ready to be written, with its estimated serialized size.
pub struct EventBatch {
    pub events: Vec<EventRow>,
    pub estimated_size: usize,
}

impl EventBatch {
    /// An empty batch with room for `capacity` rows.
    pub fn new(capacity: usize) -> (r: Self)
        ensures
            r.events@.len() == 0,
            r.estimated_size == 0,
    {
        EventBatch { events: Vec::with_capacity(capacity), estimated_size: 0 }
    }

    /// Appends a row, growing the size estimate by one row's estimate.
    pub fn push(&mut self, event: EventRow)
        requires
            old(self).estimated_size + ROW_SIZE_ESTIMATE <= usize::MAX,
        ensures
            final(self).events@ == old(self).events@.push(event),
            final(self).estimated_size == old(self).estimated_size + ROW_SIZE_ESTIMATE,
    {
        self.estimated_size = self.estimated_size + ROW_SIZE_ESTIMATE;
        self.events.push(event);
    }

    /// Whether the batch's estimated size has reached `max_size`.
    pub fn is_full(&self, max_size: usize) -> (r: bool)
        ensures
            r == (self.estimated_size >= max_size),
    {
        self.estimated_size >= max_size
    }

    /// Empties the batch.
    pub fn clear(&mut self)
        ensures
            final(self).events@.len() == 0,
            final(self).estimated_size == 0,
    {
        self.events.clear();
        self.estimated_size = 0;
    }

    /// The number of rows in the batch.
    pub fn len(&self) -> (r: usize)
        ensures
            r == self.events@.len(),
    {
        self.events.len()
    }

    /// Whether the batch holds no rows.
    pub fn is_empty(&self) -> (r: bool)
        ensures
            r == (self.events@.len() == 0),
    {
        self.events.is_empty()
    }
}

/// What a generation worker sends a writer task.
pub enum WriterMessage {
    /// Rows to write.
    Batch(EventBatch),
    /// No more rows will come.
    Close,
}

} // verus!
