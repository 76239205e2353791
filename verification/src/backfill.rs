//! The bookkeeping of a backfill: a run over every photo still missing a
//! caption, a score or a tag. Each photo either succeeds or fails; the run as a
//! whole fails only when not one photo succeeded, since one unreadable file
//! among hundreds is not worth failing for, while nothing at all means the model
//! itself is the problem and saying so beats an empty success.
use vstd::prelude::*;

verus! {

/// Where a backfill run stands.
pub struct BackfillRun {
    /// How many photos the run set out to do.
    pub total: i64,
    /// How many it has been through, successful or not.
    pub done: i64,
    /// How many succeeded.
    pub succeeded: i64,
    /// The first failure, kept for the report.
    pub first_error: Option<String>,
}

/// The view of an optional message.
pub open spec fn error_view(e: Option<String>) -> Option<Seq<char>> {
    match e {
        Some(s) => Some(s@),
        None => None,
    }
}

impl BackfillRun {
    /// The counts of a run agree with each other.
    pub open spec fn well_formed(&self) -> bool {
        0 <= self.succeeded <= self.done <= self.total
    }

    /// A run over `total` photos, none of them done.
    pub fn new(total: usize) -> (run: BackfillRun)
        requires
            total <= i64::MAX,
        ensures
            run.well_formed(),
            run.total == total,
            run.done == 0,
            run.succeeded == 0,
            run.first_error is None,
    {
        BackfillRun { total: total as i64, done: 0, succeeded: 0, first_error: None }
    }

    /// Records how one photo went. An earlier failure is never replaced by a
    /// later one.
    pub fn record(&mut self, outcome: Result<(), String>)
        requires
            old(self).well_formed(),
            old(self).done < old(self).total,
        ensures
            final(self).well_formed(),
            final(self).total == old(self).total,
            final(self).done == old(self).done + 1,
            final(self).succeeded == old(self).succeeded + (if outcome is Ok {
                1int
            } else {
                0int
            }),
            error_view(final(self).first_error) == match old(self).first_error {
                Some(e) => Some(e@),
                None => match outcome {
                    Ok(_) => None,
                    Err(e) => Some(e@),
                },
            },
    {
        self.done = self.done + 1;
        match outcome {
            Ok(()) => {
                self.succeeded = self.succeeded + 1;
            },
            Err(cause) => {
                if self.first_error.is_none() {
                    self.first_error = Some(cause);
                }
            },
        }
    }

    /// The failure to report when the run as a whole failed: some photo failed
    /// and none succeeded, out of a run that had photos to do. `None` when the
    /// run counts as completed.
    pub fn failure(&self) -> (r: Option<String>)
        ensures
            error_view(r) == (if self.succeeded == 0 && self.total > 0 {
                error_view(self.first_error)
            } else {
                None
            }),
    {
        if self.succeeded == 0 && self.total > 0 {
            match &self.first_error {
                Some(e) => Some(e.clone()),
                None => None,
            }
        } else {
            None
        }
    }
}

} // verus!
