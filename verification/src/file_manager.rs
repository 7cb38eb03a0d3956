//! The set of managed files: every file the reduction run may edit.
//!
//! The set is fixed for the duration of an engine run; files are added up
//! front and never removed. Reading files from disk and writing renderings
//! back belongs to the caller; the manager only holds and mutates the
//! in-memory states.

use vstd::prelude::*;
use crate::file_state::FileState;
use crate::file_state::FileStateView;
use crate::file_state::no_blanks;
use crate::file_state::blank_flags;
use crate::file_state::unblank_flags;
use crate::file_state::spec_split_lines;

verus! {

/// The views of a sequence of file states.
pub open spec fn views_of(files: Seq<FileState>) -> Seq<FileStateView> {
    Seq::new(files.len(), |i: int| files[i]@)
}

/// Well-formedness of a managed set: every file well-formed, no two files
/// with the same path.
pub open spec fn wf_files(files: Seq<FileStateView>) -> bool {
    &&& forall|i: int| 0 <= i < files.len() ==> (#[trigger] files[i]).wf()
    &&& forall|i: int, j: int|
        0 <= i < j < files.len() ==> (#[trigger] files[i]).path != (#[trigger] files[j]).path
}

/// Sum of the original line counts of the first `n` files.
pub open spec fn sum_total_upto(files: Seq<FileStateView>, n: int) -> int
    decreases n,
{
    if n <= 0 {
        0
    } else {
        sum_total_upto(files, n - 1) + files[n - 1].total()
    }
}

/// Sum of the original line counts of all files.
pub open spec fn sum_total(files: Seq<FileStateView>) -> int {
    sum_total_upto(files, files.len() as int)
}

/// Sum of the non-blank line counts of the first `n` files.
pub open spec fn sum_non_blank_upto(files: Seq<FileStateView>, n: int) -> int
    decreases n,
{
    if n <= 0 {
        0
    } else {
        sum_non_blank_upto(files, n - 1) + files[n - 1].non_blank()
    }
}

/// Sum of the non-blank line counts of all files.
pub open spec fn sum_non_blank(files: Seq<FileStateView>) -> int {
    sum_non_blank_upto(files, files.len() as int)
}

/// Partial sums of line counts grow with the prefix.
pub proof fn lemma_sum_total_mono(files: Seq<FileStateView>, a: int, b: int)
    requires
        0 <= a <= b,
    ensures
        sum_total_upto(files, a) <= sum_total_upto(files, b),
    decreases b,
{
    if a < b {
        lemma_sum_total_mono(files, a, b - 1);
    }
}

/// Partial sums of non-blank counts grow with the prefix.
pub proof fn lemma_sum_non_blank_mono(files: Seq<FileStateView>, a: int, b: int)
    requires
        0 <= a <= b,
    ensures
        sum_non_blank_upto(files, a) <= sum_non_blank_upto(files, b),
    decreases b,
{
    if a < b {
        lemma_sum_non_blank_mono(files, a, b - 1);
    }
}

/// Two file sequences that agree everywhere but at one index have
/// non-blank sums that differ exactly by the difference at that index.
pub proof fn lemma_sum_non_blank_update(
    a: Seq<FileStateView>,
    b: Seq<FileStateView>,
    fi: int,
    n: int,
)
    requires
        a.len() == b.len(),
        0 <= fi < a.len(),
        forall|j: int| 0 <= j < a.len() && j != fi ==> a[j] == b[j],
        0 <= n <= a.len(),
    ensures
        n <= fi ==> sum_non_blank_upto(b, n) == sum_non_blank_upto(a, n),
        n > fi ==> sum_non_blank_upto(b, n) == sum_non_blank_upto(a, n) + b[fi].non_blank()
            - a[fi].non_blank(),
    decreases n,
{
    if n > 0 {
        lemma_sum_non_blank_update(a, b, fi, n - 1);
    }
}

/// The set of files managed by one reduction run, keyed by path.
pub struct FileManager {
    files: Vec<FileState>,
}

impl View for FileManager {
    type V = Seq<FileStateView>;

    closed spec fn view(&self) -> Seq<FileStateView> {
        views_of(self.files@)
    }
}

impl FileManager {
    /// An empty managed set.
    pub fn new() -> (r: FileManager)
        ensures
            r@.len() == 0,
            wf_files(r@),
    {
        let r = FileManager { files: Vec::new() };
        proof {
            assert(r@ =~= Seq::<FileStateView>::empty());
        }
        r
    }

    /// The managed file states, in the order they were added.
    pub fn files(&self) -> (r: &Vec<FileState>)
        ensures
            views_of(r@) == self@,
    {
        &self.files
    }

    /// Add a file state built from in-memory content. A file already
    /// managed under the same path is replaced by the fresh state.
    #[verifier::loop_isolation(false)]
    pub fn add_file_from_content(&mut self, path: String, content: String)
        requires
            wf_files(old(self)@),
        ensures
            wf_files(final(self)@),
            ({
                let fv = FileStateView {
                    path: path@,
                    lines: spec_split_lines(content@),
                    blanked: no_blanks(spec_split_lines(content@).len()),
                };
                if exists|i: int| 0 <= i < old(self)@.len() && (#[trigger] old(self)@[i]).path
                    == path@ {
                    exists|i: int|
                        0 <= i < old(self)@.len() && (#[trigger] old(self)@[i]).path == path@
                            && final(self)@ == old(self)@.update(i, fv)
                } else {
                    final(self)@ == old(self)@.push(fv)
                }
            }),
    {
        let ghost fv = FileStateView {
            path: path@,
            lines: spec_split_lines(content@),
            blanked: no_blanks(spec_split_lines(content@).len()),
        };
        let n = self.files.len();
        let mut i: usize = 0;
        while i < n
            invariant
                0 <= i <= n,
                n == self@.len(),
                wf_files(self@),
                self@ == old(self)@,
                forall|j: int| 0 <= j < i ==> (#[trigger] self@[j]).path != path@,
            decreases n - i,
        {
            if *self.files[i].path() == path {
                let fs = FileState::new(path, content);
                proof {
                    assert(fs@ =~= fv);
                }
                self.files[i] = fs;
                proof {
                    assert(0 <= (i as int) && (i as int) < old(self)@.len() && (old(
                        self,
                    )@[i as int]).path == path@);
                    assert(self@ =~= old(self)@.update(i as int, fv));
                    assert forall|a: int, b: int|
                        0 <= a < b < self@.len() implies (#[trigger] self@[a]).path != (
                    #[trigger] self@[b]).path by {
                        assert(old(self)@[a].path != old(self)@[b].path);
                    }
                    assert(wf_files(self@));
                }
                return ;
            }
            i += 1;
        }
        let fs = FileState::new(path, content);
        self.files.push(fs);
        proof {
            assert(self@ =~= old(self)@.push(fv));
            assert(forall|j: int|
                0 <= j < old(self)@.len() ==> (#[trigger] old(self)@[j]).path != path@);
            assert(wf_files(self@));
        }
    }

    /// Borrow the state of the file at `path` for mutation, if it is
    /// managed. Only the file at that path can change through the result.
    pub fn get_file_mut(&mut self, path: &String) -> (r: Option<&mut FileState>)
        requires
            wf_files(old(self)@),
        ensures
            match r {
                Some(m) => {
                    exists|i: int|
                        {
                            &&& 0 <= i < old(self)@.len()
                            &&& (#[trigger] old(self)@[i]).path == path@
                            &&& *m == old(self).spec_file_at(i)
                            &&& final(self).spec_files() == old(self).spec_files().update(
                                i,
                                *final(m),
                            )
                        }
                },
                None => final(self)@ == old(self)@ && forall|i: int|
                    0 <= i < old(self)@.len() ==> (#[trigger] old(self)@[i]).path != path@,
            },
    {
        let n = self.files.len();
        let mut i: usize = 0;
        while i < n
            invariant
                0 <= i <= n,
                n == self@.len(),
                self@ == old(self)@,
                self.files@ == old(self).spec_files(),
                forall|j: int| 0 <= j < i ==> (#[trigger] self@[j]).path != path@,
            decreases n - i,
        {
            if *self.files[i].path() == *path {
                proof {
                    assert(self@[i as int].path == path@);
                    assert(self.files@[i as int] == old(self).spec_file_at(i as int));
                }
                let m = &mut self.files[i];
                return Some(m);
            }
            i += 1;
        }
        None
    }

    /// The file states as exec values, for internal reasoning.
    pub closed spec fn spec_files(&self) -> Seq<FileState> {
        self.files@
    }

    /// The exec file state at index `i`.
    pub closed spec fn spec_file_at(&self, i: int) -> FileState {
        self.files@[i]
    }

    /// The file state at index `i`.
    pub fn file_at(&self, i: usize) -> (r: &FileState)
        requires
            i < self@.len(),
        ensures
            r@ == self@[i as int],
    {
        &self.files[i]
    }

    /// The index of the file managed under `path`, if any.
    pub fn find_index(&self, path: &String) -> (r: Option<usize>)
        ensures
            match r {
                Some(i) => i < self@.len() && self@[i as int].path == path@ && forall|j: int|
                    0 <= j < i ==> (#[trigger] self@[j]).path != path@,
                None => forall|i: int|
                    0 <= i < self@.len() ==> (#[trigger] self@[i]).path != path@,
            },
    {
        let n = self.files.len();
        let mut i: usize = 0;
        while i < n
            invariant
                0 <= i <= n,
                n == self@.len(),
                forall|j: int| 0 <= j < i ==> (#[trigger] self@[j]).path != path@,
            decreases n - i,
        {
            if *self.files[i].path() == *path {
                proof {
                    assert(self@[i as int].path == path@);
                }
                return Some(i);
            }
            i += 1;
        }
        None
    }

    /// Blank the listed lines of the file at index `i`; out-of-range
    /// indices are ignored.
    pub(crate) fn blank_in(&mut self, i: usize, lines: &[usize])
        requires
            i < old(self)@.len(),
            old(self)@[i as int].wf(),
        ensures
            final(self)@ == old(self)@.update(
                i as int,
                (FileStateView {
                    path: old(self)@[i as int].path,
                    lines: old(self)@[i as int].lines,
                    blanked: blank_flags(old(self)@[i as int].blanked, lines@),
                }),
            ),
            wf_files(old(self)@) ==> wf_files(final(self)@),
    {
        proof {
            assert(self.files@[i as int]@ == self@[i as int]);
        }
        self.files[i].blank_lines(lines);
        proof {
            assert(final(self)@ =~= old(self)@.update(
                i as int,
                (FileStateView {
                    path: old(self)@[i as int].path,
                    lines: old(self)@[i as int].lines,
                    blanked: blank_flags(old(self)@[i as int].blanked, lines@),
                }),
            ));
            if wf_files(old(self)@) {
                assert forall|a: int, b: int|
                    0 <= a < b < final(self)@.len() implies (#[trigger] final(self)@[a]).path != (
                #[trigger] final(self)@[b]).path by {
                    assert(old(self)@[a].path != old(self)@[b].path);
                }
                assert(wf_files(final(self)@));
            }
        }
    }

    /// Unblank the listed lines of the file at index `i`.
    pub(crate) fn unblank_in(&mut self, i: usize, lines: &[usize])
        requires
            i < old(self)@.len(),
            old(self)@[i as int].wf(),
        ensures
            final(self)@ == old(self)@.update(
                i as int,
                (FileStateView {
                    path: old(self)@[i as int].path,
                    lines: old(self)@[i as int].lines,
                    blanked: unblank_flags(old(self)@[i as int].blanked, lines@),
                }),
            ),
            wf_files(old(self)@) ==> wf_files(final(self)@),
    {
        proof {
            assert(self.files@[i as int]@ == self@[i as int]);
        }
        self.files[i].unblank_lines(lines);
        proof {
            assert(final(self)@ =~= old(self)@.update(
                i as int,
                (FileStateView {
                    path: old(self)@[i as int].path,
                    lines: old(self)@[i as int].lines,
                    blanked: unblank_flags(old(self)@[i as int].blanked, lines@),
                }),
            ));
            if wf_files(old(self)@) {
                assert forall|a: int, b: int|
                    0 <= a < b < final(self)@.len() implies (#[trigger] final(self)@[a]).path != (
                #[trigger] final(self)@[b]).path by {
                    assert(old(self)@[a].path != old(self)@[b].path);
                }
                assert(wf_files(final(self)@));
            }
        }
    }

    /// Sum of the original line counts of all managed files.
    pub fn total_lines(&self) -> (r: usize)
        requires
            sum_total(self@) <= usize::MAX,
            forall|i: int| 0 <= i < self@.len() ==> (#[trigger] self@[i]).wf(),
        ensures
            r == sum_total(self@),
    {
        let n = self.files.len();
        let mut acc: usize = 0;
        let mut i: usize = 0;
        while i < n
            invariant
                0 <= i <= n,
                n == self@.len(),
                forall|k: int| 0 <= k < self@.len() ==> (#[trigger] self@[k]).wf(),
                sum_total(self@) <= usize::MAX,
                acc == sum_total_upto(self@, i as int),
            decreases n - i,
        {
            proof {
                lemma_sum_total_mono(self@, i as int + 1, self@.len() as int);
                assert(self@[i as int].total() >= 0);
                lemma_sum_total_mono(self@, 0, i as int);
            }
            let t = self.files[i].total_lines();
            proof {
                assert(self.files@[i as int]@ == self@[i as int]);
            }
            acc = acc + t;
            i += 1;
        }
        acc
    }

    /// Sum of the non-blank line counts of all managed files.
    pub fn non_blank_lines(&self) -> (r: usize)
        requires
            sum_non_blank(self@) <= usize::MAX,
            forall|i: int| 0 <= i < self@.len() ==> (#[trigger] self@[i]).wf(),
        ensures
            r == sum_non_blank(self@),
    {
        let n = self.files.len();
        let mut acc: usize = 0;
        let mut i: usize = 0;
        while i < n
            invariant
                0 <= i <= n,
                n == self@.len(),
                forall|k: int| 0 <= k < self@.len() ==> (#[trigger] self@[k]).wf(),
                sum_non_blank(self@) <= usize::MAX,
                acc == sum_non_blank_upto(self@, i as int),
            decreases n - i,
        {
            proof {
                lemma_sum_non_blank_mono(self@, i as int + 1, self@.len() as int);
                assert(self@[i as int].non_blank() >= 0);
                lemma_sum_non_blank_mono(self@, 0, i as int);
            }
            let t = self.files[i].non_blank_lines();
            proof {
                assert(self.files@[i as int]@ == self@[i as int]);
            }
            acc = acc + t;
            i += 1;
        }
        acc
    }
}

} // verus!
