//! A self-contained single-strategy reducer: an engine wired to a built-in
//! bisection generator that halves whole files by raw line numbers,
//! ignoring what is already blanked.

use vstd::prelude::*;
use crate::chomper::AttemptStart;
use crate::chomper::Chomper;
use crate::chomper::ChomperView;
use crate::chomper::EngineError;
use crate::command_runner::CommandRunner;
use crate::command_runner::RunResult;
use crate::file_manager::FileManager;
use crate::file_manager::wf_files;
use crate::file_state::FileStateView;
use crate::strategy::ChompRangeView;

verus! {

/// A candidate chomp for the bisector: the half-open interval
/// `[start_line, end_line)` of line indices of the file at `file`.
pub struct ChompRange {
    pub file: String,
    pub start_line: usize,
    pub end_line: usize,
}

impl View for ChompRange {
    type V = ChompRangeView;

    open spec fn view(&self) -> ChompRangeView {
        ChompRangeView {
            file: self.file@,
            start: self.start_line as int,
            end: self.end_line as int,
        }
    }
}

impl DeepView for ChompRange {
    type V = ChompRangeView;

    open spec fn deep_view(&self) -> ChompRangeView {
        self@
    }
}

/// The consecutive chunks of width `w` of the raw line range
/// `[si, total)`.
pub open spec fn raw_chunks(path: Seq<char>, total: int, w: int, si: int) -> Seq<ChompRangeView>
    decreases total - si,
{
    if w <= 0 || si < 0 || si >= total {
        Seq::empty()
    } else {
        let ei = if si + w <= total {
            si + w
        } else {
            total
        };
        seq![ChompRangeView { file: path, start: si, end: ei }] + raw_chunks(path, total, w, ei)
    }
}

/// All chunk rows for widths `w`, `w / 2`, ... down to `1`.
pub open spec fn raw_sizes(path: Seq<char>, total: int, w: int) -> Seq<ChompRangeView>
    decreases w,
{
    if w <= 0 {
        Seq::empty()
    } else {
        raw_chunks(path, total, w, 0) + raw_sizes(path, total, w / 2)
    }
}

/// One file's contribution: bisect its raw line count, starting from half
/// of it.
pub open spec fn raw_file(f: FileStateView) -> Seq<ChompRangeView> {
    raw_sizes(f.path, f.lines.len() as int, f.lines.len() as int / 2)
}

/// The contributions of the files from index `i` on, in order.
pub open spec fn raw_ranges(files: Seq<FileStateView>, i: int) -> Seq<ChompRangeView>
    decreases files.len() - i,
{
    if i < 0 || i >= files.len() {
        Seq::empty()
    } else {
        raw_file(files[i]) + raw_ranges(files, i + 1)
    }
}

/// The bisector: a reduction engine together with its built-in bisection
/// generator over raw line numbers.
pub struct Bisector {
    engine: Chomper,
}

impl View for Bisector {
    type V = ChomperView;

    closed spec fn view(&self) -> ChomperView {
        self.engine@
    }
}

impl Bisector {
    /// A bisector over the given managed set and oracle configuration.
    pub fn new(file_manager: FileManager, command_runner: CommandRunner) -> (r: Bisector)
        requires
            wf_files(file_manager@),
        ensures
            r@.files == file_manager@,
            r@.command == command_runner@,
            r@.baseline is None,
            r@.memo == Seq::<Seq<Seq<bool>>>::empty(),
            r@.pending is None,
            r@.wf(),
    {
        Bisector { engine: Chomper::new(file_manager, command_runner) }
    }

    /// Record the oracle's outcome under the untouched files as the
    /// baseline. Callers must establish it exactly once, before any
    /// attempt.
    pub fn establish_baseline(&mut self, result: RunResult)
        requires
            old(self)@.wf(),
            old(self)@.baseline is None,
        ensures
            final(self)@ == (ChomperView { baseline: Some(result@), ..old(self)@ }),
            final(self)@.wf(),
    {
        self.engine.establish_baseline(result);
        proof {
            assert(final(self)@ =~= (ChomperView { baseline: Some(result@), ..old(self)@ }));
        }
    }

    /// The captured baseline, if one was established.
    pub fn baseline_result(&self) -> (r: Option<&RunResult>)
        ensures
            match r {
                Some(b) => self@.baseline == Some(b@),
                None => self@.baseline is None,
            },
    {
        self.engine.baseline_result()
    }

    /// Decide one chomp attempt; see the engine for the exact protocol.
    pub fn try_blank_range(&mut self, range: &ChompRange) -> (r: Result<AttemptStart, EngineError>)
        requires
            old(self)@.wf(),
        ensures
            final(self)@.wf(),
            final(self)@.command == old(self)@.command,
            final(self)@.baseline == old(self)@.baseline,
            final(self)@.memo == old(self)@.memo,
            old(self)@.baseline is None ==> r == Err::<AttemptStart, EngineError>(
                EngineError::MissingBaseline,
            ) && final(self)@ == old(self)@,
            old(self)@.baseline is Some && old(self)@.pending is Some ==> r == Err::<
                AttemptStart,
                EngineError,
            >(EngineError::AttemptInProgress) && final(self)@ == old(self)@,
            old(self)@.baseline is Some && old(self)@.pending is None && (forall|i: int|
                0 <= i < old(self)@.files.len() ==> (#[trigger] old(self)@.files[i]).path
                    != range@.file) ==> r == Err::<AttemptStart, EngineError>(
                EngineError::UnknownFile,
            ) && final(self)@ == old(self)@,
            old(self)@.baseline is Some && old(self)@.pending is None && (exists|i: int|
                0 <= i < old(self)@.files.len() && (#[trigger] old(self)@.files[i]).path
                    == range@.file) ==> (exists|i: int|
                {
                    &&& 0 <= i < old(self)@.files.len()
                    &&& (#[trigger] old(self)@.files[i]).path == range@.file
                    &&& ({
                        let lines = crate::chomper::fresh_in_range(
                            old(self)@.files[i].blanked,
                            range@.start,
                            range@.end,
                        );
                        let post = crate::chomper::files_after_blank(old(self)@.files, i, lines);
                        if old(self)@.memo.contains(crate::chomper::key_of(post)) {
                            r == Ok::<AttemptStart, EngineError>(AttemptStart::AlreadyTested)
                                && final(self)@ == old(self)@
                        } else {
                            r == Ok::<AttemptStart, EngineError>(AttemptStart::NeedsOracle)
                                && final(self)@.files == post && final(self)@.pending == Some(
                                (i, lines),
                            )
                        }
                    })
                }),
            crate::file_manager::sum_non_blank(final(self)@.files)
                <= crate::file_manager::sum_non_blank(old(self)@.files),
            r == Ok::<AttemptStart, EngineError>(AttemptStart::NeedsOracle)
                ==> !(final(self)@.memo.contains(crate::chomper::key_of(final(self)@.files))),
    {
        let engine_range = crate::strategy::ChompRange {
            file: range.file.clone(),
            start_line: range.start_line,
            end_line: range.end_line,
        };
        proof {
            assert(engine_range@ == range@);
        }
        self.engine.try_blank_range(&engine_range)
    }

    /// Settle the attempt begun by `try_blank_range` with the oracle's
    /// outcome; see the engine for the exact protocol.
    pub fn finish_blank_range(&mut self, result: RunResult) -> (r: Result<bool, EngineError>)
        requires
            old(self)@.wf(),
        ensures
            final(self)@.wf(),
            final(self)@.command == old(self)@.command,
            final(self)@.baseline == old(self)@.baseline,
            old(self)@.pending is None ==> r == Err::<bool, EngineError>(
                EngineError::NoAttemptPending,
            ) && final(self)@ == old(self)@,
            old(self)@.pending matches Some((fi, lines)) ==> {
                &&& final(self)@.memo == old(self)@.memo.push(
                    crate::chomper::key_of(old(self)@.files),
                )
                &&& final(self)@.pending is None
                &&& (r == Ok::<bool, EngineError>(true) <==> old(self)@.baseline == Some(result@))
                &&& (r is Ok)
                &&& (r == Ok::<bool, EngineError>(true) ==> final(self)@.files == old(self)@.files)
                &&& (r == Ok::<bool, EngineError>(false) ==> final(self)@.files
                    == crate::chomper::files_after_unblank(old(self)@.files, fi, lines))
            },
    {
        self.engine.finish_blank_range(result)
    }

    /// The candidate ranges of the built-in bisection: for each file,
    /// consecutive chunks of half its raw line count, then quarters, and
    /// so on down to single lines.
    #[verifier::loop_isolation(false)]
    pub fn generate_ranges(&self) -> (r: Vec<ChompRange>)
        ensures
            r.deep_view() == raw_ranges(self@.files, 0),
    {
        let ghost fvs = self@.files;
        let mut ranges: Vec<ChompRange> = Vec::new();
        proof {
            assert(ranges.deep_view() + raw_ranges(fvs, 0) =~= raw_ranges(fvs, 0));
        }
        let files = self.engine.file_manager().files();
        proof {
            assert(crate::file_manager::views_of(files@) == fvs);
        }
        let file_count = files.len();
        let mut fi: usize = 0;
        while fi < file_count
            invariant
                0 <= fi <= file_count,
                ranges.deep_view() + raw_ranges(fvs, fi as int) == raw_ranges(fvs, 0),
            decreases file_count - fi,
        {
            let f = &files[fi];
            proof {
                assert(f@ == fvs[fi as int]);
            }
            let total = f.total_lines();
            let ghost path = f@.path;
            let mut w: usize = total / 2;
            proof {
                assert(raw_ranges(fvs, fi as int) == raw_file(fvs[fi as int]) + raw_ranges(
                    fvs,
                    fi as int + 1,
                ));
                assert(ranges.deep_view() + (raw_sizes(path, total as int, w as int) + raw_ranges(
                    fvs,
                    fi as int + 1,
                )) =~= (ranges.deep_view() + raw_sizes(path, total as int, w as int)) + raw_ranges(
                    fvs,
                    fi as int + 1,
                ));
            }
            while w > 0
                invariant
                    (ranges.deep_view() + raw_sizes(path, total as int, w as int)) + raw_ranges(
                        fvs,
                        fi as int + 1,
                    ) == raw_ranges(fvs, 0),
                decreases w,
            {
                let mut si: usize = 0;
                proof {
                    assert(raw_sizes(path, total as int, w as int) == raw_chunks(
                        path,
                        total as int,
                        w as int,
                        0,
                    ) + raw_sizes(path, total as int, w as int / 2));
                    assert((ranges.deep_view() + (raw_chunks(path, total as int, w as int, 0)
                        + raw_sizes(path, total as int, w as int / 2))) =~= ((ranges.deep_view()
                        + raw_chunks(path, total as int, w as int, 0)) + raw_sizes(
                        path,
                        total as int,
                        w as int / 2,
                    )));
                }
                while si < total
                    invariant
                        0 <= si <= total,
                        w > 0,
                        ((ranges.deep_view() + raw_chunks(path, total as int, w as int, si as int))
                            + raw_sizes(path, total as int, w as int / 2)) + raw_ranges(
                            fvs,
                            fi as int + 1,
                        ) == raw_ranges(fvs, 0),
                    decreases total - si,
                {
                    let ei = if total - si > w {
                        si + w
                    } else {
                        total
                    };
                    let ghost before = ranges.deep_view();
                    let crv = ChompRange {
                        file: f.path().clone(),
                        start_line: si,
                        end_line: ei,
                    };
                    ranges.push(crv);
                    proof {
                        assert(raw_chunks(path, total as int, w as int, si as int) == seq![crv@]
                            + raw_chunks(path, total as int, w as int, ei as int));
                        assert(ranges.deep_view() =~= before + seq![crv@]);
                        assert((before + (seq![crv@] + raw_chunks(
                            path,
                            total as int,
                            w as int,
                            ei as int,
                        ))) =~= ((before + seq![crv@]) + raw_chunks(
                            path,
                            total as int,
                            w as int,
                            ei as int,
                        )));
                    }
                    si = ei;
                }
                proof {
                    assert(raw_chunks(path, total as int, w as int, si as int) =~= Seq::<
                        ChompRangeView,
                    >::empty());
                    assert(ranges.deep_view() + Seq::<ChompRangeView>::empty()
                        =~= ranges.deep_view());
                }
                w = w / 2;
            }
            proof {
                assert(raw_sizes(path, total as int, 0) =~= Seq::<ChompRangeView>::empty());
                assert(ranges.deep_view() + Seq::<ChompRangeView>::empty() =~= ranges.deep_view());
            }
            fi += 1;
        }
        proof {
            assert(raw_ranges(fvs, file_count as int) =~= Seq::<ChompRangeView>::empty());
            assert(ranges.deep_view() + Seq::<ChompRangeView>::empty() =~= ranges.deep_view());
        }
        ranges
    }

    /// The managed files.
    pub fn file_manager(&self) -> (r: &FileManager)
        ensures
            r@ == self@.files,
    {
        self.engine.file_manager()
    }
}

} // verus!
