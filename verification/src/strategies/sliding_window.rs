//! Sliding window: exhaustively tries removing every window of `w`
//! consecutive non-blank lines of each file.

use vstd::prelude::*;
use crate::file_state::FileState;
use crate::file_state::FileStateView;
use crate::file_state::nb_of;
use crate::file_state::lemma_nb_of_props;
use crate::file_manager::views_of;
use crate::strategy::ChompRange;
use crate::strategy::ChompRangeView;
use crate::strategy::Strategy;

verus! {

/// The windows of `w` consecutive entries of the non-blank index list
/// `nb`, from position `si` on, each translated to original line numbers.
pub open spec fn sw_windows(path: Seq<char>, nb: Seq<usize>, w: int, si: int) -> Seq<
    ChompRangeView,
>
    decreases nb.len() - si,
{
    if w < 1 || si < 0 || si > nb.len() - w {
        Seq::empty()
    } else {
        seq![
            ChompRangeView { file: path, start: nb[si] as int, end: nb[si + w - 1] as int + 1 },
        ] + sw_windows(path, nb, w, si + 1)
    }
}

/// One file's contribution for window size `w`: every window of `w`
/// consecutive non-blank lines; or, when the file has fewer than `w` but
/// at least one non-blank line, a single range covering all of them.
pub open spec fn sw_file(f: FileStateView, w: int) -> Seq<ChompRangeView> {
    let nb = nb_of(f.blanked);
    if nb.len() == 0 {
        Seq::empty()
    } else if nb.len() < w {
        seq![
            ChompRangeView {
                file: f.path,
                start: nb[0] as int,
                end: nb[nb.len() - 1] as int + 1,
            },
        ]
    } else {
        sw_windows(f.path, nb, w, 0)
    }
}

/// The contributions of the files from index `i` on, in order.
pub open spec fn sw_ranges(files: Seq<FileStateView>, w: int, i: int) -> Seq<ChompRangeView>
    decreases files.len() - i,
{
    if i < 0 || i >= files.len() {
        Seq::empty()
    } else {
        sw_file(files[i], w) + sw_ranges(files, w, i + 1)
    }
}

/// A file with zero lines contributes zero ranges to the sliding window,
/// whatever the window size.
pub proof fn lemma_sliding_window_empty_file(f: FileStateView, w: int)
    requires
        f.wf(),
        f.lines.len() == 0,
    ensures
        sw_file(f, w) == Seq::<ChompRangeView>::empty(),
{
    assert(nb_of(f.blanked) =~= Seq::<usize>::empty());
}

/// Sliding window strategy with a fixed window size (at least one).
pub struct SlidingWindowStrategy {
    window_size: usize,
}

impl SlidingWindowStrategy {
    /// The effective window size: the configured one, raised to one if it
    /// was zero.
    pub closed spec fn spec_window(&self) -> int {
        if self.window_size == 0 {
            1
        } else {
            self.window_size as int
        }
    }

    /// A sliding window of `window_size` lines; a size of zero is raised
    /// to one.
    pub fn new(window_size: usize) -> (r: SlidingWindowStrategy)
        ensures
            r.spec_window() == if window_size == 0 {
                1int
            } else {
                window_size as int
            },
            r.spec_window() >= 1,
    {
        SlidingWindowStrategy { window_size }
    }
}

impl Strategy for SlidingWindowStrategy {
    open spec fn spec_ranges(&self, files: Seq<FileStateView>) -> Seq<ChompRangeView> {
        sw_ranges(files, self.spec_window(), 0)
    }

    fn name(&self) -> (r: &'static str) {
        "sliding_window"
    }

    #[verifier::loop_isolation(false)]
    fn generate_ranges(&self, files: &Vec<FileState>) -> (r: Vec<ChompRange>) {
        let ghost fvs = views_of(files@);
        let w = if self.window_size == 0 {
            1
        } else {
            self.window_size
        };
        let ghost ws = self.spec_window();
        proof {
            assert(w as int == ws);
        }
        let mut ranges: Vec<ChompRange> = Vec::new();
        proof {
            assert(ranges.deep_view() + sw_ranges(fvs, ws, 0) =~= sw_ranges(fvs, ws, 0));
        }
        let file_count = files.len();
        let mut fi: usize = 0;
        while fi < file_count
            invariant
                0 <= fi <= file_count,
                ranges.deep_view() + sw_ranges(fvs, ws, fi as int) == sw_ranges(fvs, ws, 0),
            decreases file_count - fi,
        {
            let f = &files[fi];
            proof {
                assert(f@ == fvs[fi as int]);
                assert(f@.wf());
            }
            let nb = f.non_blank_line_indices();
            let total = f.total_lines();
            proof {
                lemma_nb_of_props(f@.blanked);
            }
            let ghost path = f@.path;
            let count = nb.len();
            proof {
                assert(sw_ranges(fvs, ws, fi as int) == sw_file(fvs[fi as int], ws) + sw_ranges(
                    fvs,
                    ws,
                    fi as int + 1,
                ));
            }
            if count == 0 {
                proof {
                    assert(sw_file(fvs[fi as int], ws) =~= Seq::<ChompRangeView>::empty());
                    assert(ranges.deep_view() + Seq::<ChompRangeView>::empty()
                        =~= ranges.deep_view());
                }
            } else if count < w {
                let ghost before = ranges.deep_view();
                let crv = ChompRange {
                    file: f.path().clone(),
                    start_line: nb[0],
                    end_line: nb[count - 1] + 1,
                };
                ranges.push(crv);
                proof {
                    assert(sw_file(fvs[fi as int], ws) =~= seq![crv@]);
                    assert(ranges.deep_view() =~= before + seq![crv@]);
                    assert((before + seq![crv@]) + sw_ranges(fvs, ws, fi as int + 1) =~= before + (
                    seq![crv@] + sw_ranges(fvs, ws, fi as int + 1)));
                }
            } else {
                proof {
                    assert((ranges.deep_view() + (sw_windows(path, nb@, ws, 0) + sw_ranges(
                        fvs,
                        ws,
                        fi as int + 1,
                    ))) =~= ((ranges.deep_view() + sw_windows(path, nb@, ws, 0)) + sw_ranges(
                        fvs,
                        ws,
                        fi as int + 1,
                    )));
                }
                let mut si: usize = 0;
                while si <= count - w
                    invariant
                        0 <= si <= count - w + 1,
                        w >= 1,
                        count == nb@.len(),
                        count >= w,
                        (ranges.deep_view() + sw_windows(path, nb@, ws, si as int)) + sw_ranges(
                            fvs,
                            ws,
                            fi as int + 1,
                        ) == sw_ranges(fvs, ws, 0),
                    decreases count - si,
                {
                    let ghost before = ranges.deep_view();
                    let crv = ChompRange {
                        file: f.path().clone(),
                        start_line: nb[si],
                        end_line: nb[si + w - 1] + 1,
                    };
                    ranges.push(crv);
                    proof {
                        assert(sw_windows(path, nb@, ws, si as int) == seq![crv@] + sw_windows(
                            path,
                            nb@,
                            ws,
                            si as int + 1,
                        ));
                        assert(ranges.deep_view() =~= before + seq![crv@]);
                        assert((before + (seq![crv@] + sw_windows(path, nb@, ws, si as int + 1)))
                            =~= ((before + seq![crv@]) + sw_windows(path, nb@, ws, si as int + 1)));
                    }
                    si += 1;
                }
                proof {
                    assert(sw_windows(path, nb@, ws, si as int) =~= Seq::<ChompRangeView>::empty());
                    assert(ranges.deep_view() + Seq::<ChompRangeView>::empty()
                        =~= ranges.deep_view());
                }
            }
            fi += 1;
        }
        proof {
            assert(sw_ranges(fvs, ws, file_count as int) =~= Seq::<ChompRangeView>::empty());
            assert(ranges.deep_view() + Seq::<ChompRangeView>::empty() =~= ranges.deep_view());
        }
        ranges
    }
}

} // verus!
