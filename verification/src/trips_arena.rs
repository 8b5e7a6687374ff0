//! The per-run boarding arena: an append-only, position-indexed record of
//! every transit boarding that produced an improved arrival label.
//!
//! The arena replaces an explicit predecessor graph: a downstream formatter
//! reconstructs a representative path from the records alone.  It is owned
//! exclusively by one run and cleared (not reallocated) between runs.

use vstd::prelude::*;

verus! {

/// Provenance of one improved arrival label: which trip was ridden and at
/// which stop-sequence position it was left.
#[derive(Clone, Copy, Debug, PartialEq, Eq, Structural)]
pub struct BusPickupInfo {
    /// The improved arrival label, seconds since midnight.
    pub timestamp: u32,
    /// Stop-sequence position (index into the trip's stop-time list) at
    /// which the label was produced.
    pub stop_sequence_no: u16,
    /// Index of the ridden trip in the schedule store.
    pub trip_id: usize,
}

/// Append-only store of boarding records, in insertion order.
#[derive(Clone, Debug)]
pub struct TripsArena {
    pub boardings: Vec<BusPickupInfo>,
}

impl TripsArena {
    /// An empty arena.
    pub fn new() -> (r: TripsArena)
        ensures
            r.boardings@.len() == 0,
    {
        TripsArena { boardings: Vec::new() }
    }

    /// Appends one record; everything already recorded stays in place.
    pub fn append(&mut self, rec: BusPickupInfo)
        ensures
            final(self).boardings@ == old(self).boardings@.push(rec),
    {
        self.boardings.push(rec);
    }

    /// Discards every record, keeping the allocation, for reuse by the next
    /// run.
    pub fn clear(&mut self)
        ensures
            final(self).boardings@.len() == 0,
    {
        self.boardings.clear();
    }

    /// Number of records.
    pub fn len(&self) -> (r: usize)
        ensures
            r == self.boardings@.len(),
    {
        self.boardings.len()
    }
}

} // verus!
