//! The immutable capture of the process table that one run works from.

use vstd::prelude::*;

verus! {

/// One process at capture time: its identifier and, when resolution
/// succeeded, its name.
pub struct ProcessRecord {
    pub pid: u64,
    pub name: Option<String>,
}

/// A point-in-time capture of the process table, in enumeration order.
pub struct ProcessSnapshot {
    pub records: Vec<ProcessRecord>,
}

impl ProcessSnapshot {
    /// Identifiers are unique within a well-formed snapshot.
    pub open spec fn wf(&self) -> bool {
        forall|i: int, j: int|
            0 <= i < j < self.records@.len() ==> (#[trigger] self.records@[i]).pid != (
            #[trigger] self.records@[j]).pid
    }

    pub fn new() -> (s: Self)
        ensures
            s.records@.len() == 0,
            s.wf(),
    {
        ProcessSnapshot { records: Vec::new() }
    }

    /// Append one record; the identifier must be new to the snapshot.
    pub fn push(&mut self, rec: ProcessRecord)
        requires
            forall|i: int|
                0 <= i < old(self).records@.len() ==> (#[trigger] old(self).records@[i]).pid
                    != rec.pid,
        ensures
            final(self).records@ == old(self).records@.push(rec),
            old(self).wf() ==> final(self).wf(),
    {
        self.records.push(rec);
        proof {
            if old(self).wf() {
                assert forall|i: int, j: int|
                    0 <= i < j < self.records@.len() implies (#[trigger] self.records@[i]).pid != (
                #[trigger] self.records@[j]).pid by {
                    if j < self.records@.len() - 1 {
                        assert(old(self).records@[i].pid != old(self).records@[j].pid);
                    } else {
                        assert(old(self).records@[i].pid != rec.pid);
                    }
                }
            }
        }
    }
}

} // verus!
