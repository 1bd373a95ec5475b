//! The counters of a run: how many bytes are expected and done, and how many
//! files were written and given up. They only ever grow.

use vstd::prelude::*;

verus! {

/// A count held at the largest number that a counter takes.
pub open spec fn capped(count: int) -> u64 {
    if count > u64::MAX {
        u64::MAX
    } else {
        count as u64
    }
}

/// The counters of a run as plain numbers.
pub struct Counts {
    pub length: u64,
    pub position: u64,
    pub written: u64,
    pub failed: u64,
}

impl Counts {
    /// The counters of a run that has not begun.
    pub open spec fn zero() -> Counts {
        Counts { length: 0, position: 0, written: 0, failed: 0 }
    }

    /// The counters with the end of one more file taken in.
    pub open spec fn record(self, success: bool) -> Counts {
        if success {
            Counts { written: capped(self.written + 1), ..self }
        } else {
            Counts { failed: capped(self.failed + 1), ..self }
        }
    }

    /// The counters with the ends of a run of files taken in.
    pub open spec fn record_all(self, outcomes: Seq<bool>) -> Counts
        decreases outcomes.len(),
    {
        if outcomes.len() == 0 {
            self
        } else {
            self.record_all(outcomes.drop_last()).record(outcomes.last())
        }
    }

    /// Whether no counter is smaller than it is in `earlier`.
    pub open spec fn grown_from(self, earlier: Counts) -> bool {
        &&& earlier.length <= self.length
        &&& earlier.position <= self.position
        &&& earlier.written <= self.written
        &&& earlier.failed <= self.failed
    }
}

/// How many of a run of files ended well, if `success`, or were given up.
pub open spec fn count_of(outcomes: Seq<bool>, success: bool) -> nat
    decreases outcomes.len(),
{
    if outcomes.len() == 0 {
        0
    } else {
        count_of(outcomes.drop_last(), success) + if outcomes.last() == success {
            1nat
        } else {
            0nat
        }
    }
}

/// Every file of a run is counted once, as written or as given up, and a file
/// that is given up takes nothing from the others: after a run the counters
/// hold the number of files that ended well and the number that did not.
pub proof fn lemma_every_file_is_counted(outcomes: Seq<bool>)
    ensures
        Counts::zero().record_all(outcomes).written == capped(count_of(outcomes, true) as int),
        Counts::zero().record_all(outcomes).failed == capped(count_of(outcomes, false) as int),
        count_of(outcomes, true) + count_of(outcomes, false) == outcomes.len(),
        Counts::zero().record_all(outcomes).length == 0,
        Counts::zero().record_all(outcomes).position == 0,
    decreases outcomes.len(),
{
    if outcomes.len() > 0 {
        lemma_every_file_is_counted(outcomes.drop_last());
    }
}

/// The counters of a run.
#[derive(Clone, Copy, Debug, PartialEq, Eq)]
pub struct ProgressState {
    length: u64,
    position: u64,
    written: u64,
    failed: u64,
}

impl View for ProgressState {
    type V = Counts;

    closed spec fn view(&self) -> Counts {
        Counts {
            length: self.length,
            position: self.position,
            written: self.written,
            failed: self.failed,
        }
    }
}

impl ProgressState {
    /// The counters of a run that has not begun.
    pub fn new() -> (state: ProgressState)
        ensures
            state@ == Counts::zero(),
    {
        ProgressState { length: 0, position: 0, written: 0, failed: 0 }
    }

    /// Adds to the number of bytes that the run is expected to read.
    pub fn inc_length(&mut self, num: u64)
        ensures
            final(self)@ == (Counts { length: capped(old(self)@.length + num), ..old(self)@ }),
            final(self)@.grown_from(old(self)@),
    {
        self.length = self.length.saturating_add(num);
    }

    /// Adds to the number of bytes that the run has read.
    pub fn inc(&mut self, num: u64)
        ensures
            final(self)@ == (Counts { position: capped(old(self)@.position + num), ..old(self)@ }),
            final(self)@.grown_from(old(self)@),
    {
        self.position = self.position.saturating_add(num);
    }

    /// Takes in the end of one file: written, if `success`, or given up.
    pub fn record(&mut self, success: bool)
        ensures
            final(self)@ == old(self)@.record(success),
            final(self)@.grown_from(old(self)@),
    {
        if success {
            self.written = self.written.saturating_add(1);
        } else {
            self.failed = self.failed.saturating_add(1);
        }
    }

    /// The number of bytes that the run is expected to read.
    pub fn length(&self) -> (length: u64)
        ensures
            length == self@.length,
    {
        self.length
    }

    /// The number of bytes that the run has read.
    pub fn position(&self) -> (position: u64)
        ensures
            position == self@.position,
    {
        self.position
    }

    /// The number of files that were written.
    pub fn written(&self) -> (written: u64)
        ensures
            written == self@.written,
    {
        self.written
    }

    /// The number of files that were given up.
    pub fn failed(&self) -> (failed: u64)
        ensures
            failed == self@.failed,
    {
        self.failed
    }
}

} // verus!
