//! The bookkeeping of a folder scan: how far it has got, what to report after
//! each file, and whether the indexed files go on to the enrichment pass. The
//! scan itself (walking the folder, indexing each file) is the caller's work.
use vstd::prelude::*;

verus! {

/// Where a scan stands.
pub struct ScanState {
    /// How many files the scan found to look at.
    pub total: i64,
    /// How many it has looked at.
    pub done: i64,
    /// How many of those were added or changed.
    pub indexed: i64,
}

/// How indexing one file went.
#[derive(Debug, Clone, Copy, PartialEq, Eq, Structural)]
pub enum FileOutcome {
    /// Added, or changed since it was last indexed.
    Indexed,
    /// Already indexed with the same contents, or not a photo or video.
    Unchanged,
    /// Indexing failed; the job records the error and the scan goes on.
    Failed,
}

/// A progress report for the job: its status and how far it has got.
#[derive(Debug, Clone, Copy)]
pub struct ScanReport {
    pub status: &'static str,
    pub current: i64,
    pub total: i64,
}

impl ScanState {
    /// The counts agree with each other.
    pub open spec fn well_formed(&self) -> bool {
        0 <= self.indexed <= self.done <= self.total
    }

    /// A scan over `total` files, and the report that it is under way.
    pub fn start(total: usize) -> (r: (ScanState, ScanReport))
        requires
            total <= i64::MAX,
        ensures
            r.0.well_formed(),
            r.0.total == total && r.0.done == 0 && r.0.indexed == 0,
            r.1.status@ == "running"@ && r.1.current == 0 && r.1.total == total,
    {
        let state = ScanState { total: total as i64, done: 0, indexed: 0 };
        (state, ScanReport { status: "running", current: 0, total: total as i64 })
    }

    /// Records one file and returns the report to send after it.
    pub fn after(&mut self, outcome: FileOutcome) -> (report: ScanReport)
        requires
            old(self).well_formed(),
            old(self).done < old(self).total,
        ensures
            final(self).well_formed(),
            final(self).total == old(self).total,
            final(self).done == old(self).done + 1,
            final(self).indexed == old(self).indexed + (if outcome == FileOutcome::Indexed {
                1int
            } else {
                0int
            }),
            report.status@ == "running"@ && report.current == final(self).done && report.total
                == final(self).total,
    {
        self.done = self.done + 1;
        if outcome == FileOutcome::Indexed {
            self.indexed = self.indexed + 1;
        }
        ScanReport { status: "running", current: self.done, total: self.total }
    }

    /// The report when the user stops the scan before the next file.
    pub fn cancelled(&self) -> (report: ScanReport)
        ensures
            report.status@ == "cancelled"@ && report.current == self.done && report.total == self.total,
    {
        ScanReport { status: "cancelled", current: self.done, total: self.total }
    }

    /// The report when every file has been looked at.
    pub fn finished(&self) -> (report: ScanReport)
        ensures
            report.status@ == "completed"@ && report.current == self.total && report.total == self.total,
    {
        ScanReport { status: "completed", current: self.total, total: self.total }
    }

    /// Whether the files this scan indexed go on to enrichment: only when a
    /// model that enriches is loaded, and only when there is something new.
    pub fn wants_enrichment(&self, model_loaded: bool) -> (r: bool)
        ensures
            r == (model_loaded && self.indexed > 0),
    {
        model_loaded && self.indexed > 0
    }
}

} // verus!
