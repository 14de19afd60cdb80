//! The per-file decision and the run's counters.

use vstd::prelude::*;

verus! {

/// What happened to one source file.
#[derive(PartialEq, Eq, Structural, Clone, Copy, Debug)]
pub enum Outcome {
    Copied,
    SkippedDataless,
    SkippedExists,
}

/// The decision for a file: a dataless file is skipped whatever the
/// destination holds; otherwise an existing destination path is left alone;
/// otherwise the file is copied.
pub open spec fn outcome_spec(dataless: bool, dest_exists: bool) -> Outcome {
    if dataless {
        Outcome::SkippedDataless
    } else if dest_exists {
        Outcome::SkippedExists
    } else {
        Outcome::Copied
    }
}

/// Decides what to do with a file from its classification and whether its
/// destination path already exists.
pub fn decide(dataless: bool, dest_exists: bool) -> (r: Outcome)
    ensures
        r == outcome_spec(dataless, dest_exists),
        dataless ==> r == Outcome::SkippedDataless,
        !dataless && dest_exists ==> r == Outcome::SkippedExists,
        !dataless && !dest_exists ==> r == Outcome::Copied,
{
    if dataless {
        Outcome::SkippedDataless
    } else if dest_exists {
        Outcome::SkippedExists
    } else {
        Outcome::Copied
    }
}

/// Counters of a run.
#[derive(PartialEq, Eq, Structural, Clone, Copy, Debug)]
pub struct RunSummary {
    pub total: u64,
    pub copied: u64,
    pub skipped_dataless: u64,
    pub skipped_exists: u64,
}

/// The counter that an outcome advances.
pub open spec fn counts_for(o: Outcome) -> (nat, nat, nat) {
    match o {
        Outcome::Copied => (1, 0, 0),
        Outcome::SkippedDataless => (0, 1, 0),
        Outcome::SkippedExists => (0, 0, 1),
    }
}

impl RunSummary {
    /// Every file seen is counted under exactly one outcome.
    pub open spec fn wf(&self) -> bool {
        self.total == self.copied + self.skipped_dataless + self.skipped_exists
    }

    /// A summary with every counter at zero.
    pub fn new() -> (r: RunSummary)
        ensures
            r.wf(),
            r.total == 0,
            r.copied == 0,
            r.skipped_dataless == 0,
            r.skipped_exists == 0,
    {
        RunSummary { total: 0, copied: 0, skipped_dataless: 0, skipped_exists: 0 }
    }

    /// Counts one file under its outcome.
    pub fn record(&mut self, outcome: Outcome)
        requires
            old(self).wf(),
            old(self).total < u64::MAX,
        ensures
            final(self).wf(),
            final(self).total == old(self).total + 1,
            final(self).copied == old(self).copied + counts_for(outcome).0,
            final(self).skipped_dataless == old(self).skipped_dataless + counts_for(outcome).1,
            final(self).skipped_exists == old(self).skipped_exists + counts_for(outcome).2,
    {
        self.total = self.total + 1;
        match outcome {
            Outcome::Copied => {
                self.copied = self.copied + 1;
            },
            Outcome::SkippedDataless => {
                self.skipped_dataless = self.skipped_dataless + 1;
            },
            Outcome::SkippedExists => {
                self.skipped_exists = self.skipped_exists + 1;
            },
        }
    }

    /// Decides the outcome of one file and counts it.
    pub fn process(&mut self, dataless: bool, dest_exists: bool) -> (r: Outcome)
        requires
            old(self).wf(),
            old(self).total < u64::MAX,
        ensures
            r == outcome_spec(dataless, dest_exists),
            final(self).wf(),
            final(self).total == old(self).total + 1,
            final(self).copied == old(self).copied + counts_for(r).0,
            final(self).skipped_dataless == old(self).skipped_dataless + counts_for(r).1,
            final(self).skipped_exists == old(self).skipped_exists + counts_for(r).2,
    {
        let r = decide(dataless, dest_exists);
        self.record(r);
        r
    }
}

/// Files between two progress reports.
pub const PROGRESS_EVERY: u64 = 100;

/// Whether a progress report is due after `processed` files.
pub fn progress_due(processed: u64) -> (r: bool)
    ensures
        r == (processed % PROGRESS_EVERY == 0),
{
    processed % PROGRESS_EVERY == 0
}

} // verus!
