//! Bookkeeping of attempts made and attempts kept, for the caller's
//! progress display.

use vstd::prelude::*;

verus! {

/// Counts of attempts performed and attempts that reduced the files, out
/// of an expected total of candidate ranges.
pub struct ProgressTracker {
    total_ranges: usize,
    chomps_performed: usize,
    successful_chomps: usize,
}

/// Mathematical image of a `ProgressTracker`.
#[verifier::ext_equal]
pub struct ProgressView {
    pub total_ranges: int,
    pub performed: int,
    pub successful: int,
}

impl View for ProgressTracker {
    type V = ProgressView;

    closed spec fn view(&self) -> ProgressView {
        ProgressView {
            total_ranges: self.total_ranges as int,
            performed: self.chomps_performed as int,
            successful: self.successful_chomps as int,
        }
    }
}

impl ProgressTracker {
    /// A fresh tracker expecting `total_ranges` candidate ranges.
    pub fn new(total_ranges: usize) -> (r: ProgressTracker)
        ensures
            r@.total_ranges == total_ranges as int,
            r@.performed == 0,
            r@.successful == 0,
    {
        ProgressTracker { total_ranges, chomps_performed: 0, successful_chomps: 0 }
    }

    /// Record one attempt and whether it reduced the files. Successful
    /// attempts never outnumber attempts.
    pub fn record_chomp(&mut self, success: bool)
        requires
            old(self)@.performed < usize::MAX,
            old(self)@.successful < usize::MAX,
        ensures
            final(self)@.total_ranges == old(self)@.total_ranges,
            final(self)@.performed == old(self)@.performed + 1,
            final(self)@.successful == old(self)@.successful + if success {
                1int
            } else {
                0int
            },
    {
        self.chomps_performed = self.chomps_performed + 1;
        if success {
            self.successful_chomps = self.successful_chomps + 1;
        }
    }

    /// How many attempts were recorded.
    pub fn chomps_performed(&self) -> (r: usize)
        ensures
            r == self@.performed,
    {
        self.chomps_performed
    }

    /// How many recorded attempts reduced the files.
    pub fn successful_chomps(&self) -> (r: usize)
        ensures
            r == self@.successful,
    {
        self.successful_chomps
    }
}

} // verus!
