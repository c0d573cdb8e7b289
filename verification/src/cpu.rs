//! Per-CPU data. On the machine this record lives at a fixed address and
//! stores a pointer to itself so it can be reached through a segment
//! register; the model carries that address as a plain word.

use vstd::prelude::*;

verus! {

/// Per-CPU data.
pub struct CpuData {
    /// Self reference: the address this record lives at, or 0 before
    /// `prepare_to_set` has run.
    pub reference: u64,
}

impl CpuData {
    /// Creates a new empty per-CPU data.
    pub fn new() -> (r: CpuData)
        ensures
            r.reference == 0,
    {
        CpuData {
            // Need to fill in once we know the address.
            reference: 0,
        }
    }

    /// Prepare to set the per-CPU data, recording the address it lives at.
    /// May only run once.
    pub fn prepare_to_set(&mut self, self_addr: u64)
        requires
            old(self).reference == 0,
        ensures
            final(self).reference == self_addr,
    {
        self.reference = self_addr;
    }
}

} // verus!
