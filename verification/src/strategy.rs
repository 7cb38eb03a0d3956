//! The strategy capability: a pure generator of candidate chomp ranges.

use vstd::prelude::*;
use crate::file_state::FileState;
use crate::file_state::FileStateView;
use crate::file_manager::views_of;
use crate::file_manager::wf_files;
use crate::file_manager::sum_non_blank;

verus! {

/// A candidate chomp: the half-open interval `[start_line, end_line)` of
/// line indices of the file at `file`.
pub struct ChompRange {
    pub file: String,
    pub start_line: usize,
    pub end_line: usize,
}

/// Mathematical image of a `ChompRange`.
#[verifier::ext_equal]
pub struct ChompRangeView {
    pub file: Seq<char>,
    pub start: int,
    pub end: int,
}

impl View for ChompRange {
    type V = ChompRangeView;

    open spec fn view(&self) -> ChompRangeView {
        ChompRangeView {
            file: self.file@,
            start: self.start_line as int,
            end: self.end_line as int,
        }
    }
}

impl DeepView for ChompRange {
    type V = ChompRangeView;

    open spec fn deep_view(&self) -> ChompRangeView {
        self@
    }
}

impl Clone for ChompRange {
    fn clone(&self) -> (r: Self)
        ensures
            r@ == self@,
    {
        ChompRange {
            file: self.file.clone(),
            start_line: self.start_line,
            end_line: self.end_line,
        }
    }
}

/// A generator of candidate chomp ranges.
///
/// `generate_ranges` is pure: its result is exactly `spec_ranges` applied
/// to the views of the file states it is given, so two calls on the same
/// input always yield the same ordered list of ranges.
pub trait Strategy {
    /// The ranges this strategy proposes, as a function of its own
    /// parameters and the given file states.
    spec fn spec_ranges(&self, files: Seq<FileStateView>) -> Seq<ChompRangeView>;

    /// Name of this strategy for display purposes.
    fn name(&self) -> (r: &'static str);

    /// Generate the chomp ranges to try, in order.
    fn generate_ranges(&self, files: &Vec<FileState>) -> (r: Vec<ChompRange>)
        requires
            wf_files(views_of(files@)),
            sum_non_blank(views_of(files@)) <= usize::MAX,
        ensures
            r.deep_view() == self.spec_ranges(views_of(files@)),
    ;
}

} // verus!
