//! Up-to-N lines: tries removing blocks of one line, then two, then three,
//! up to a maximum window size, with overlapping windows over the
//! non-blank lines of each file.

use vstd::prelude::*;
use crate::file_state::FileState;
use crate::file_state::FileStateView;
use crate::file_state::nb_of;
use crate::file_state::lemma_nb_of_props;
use crate::file_manager::views_of;
use crate::strategy::ChompRange;
use crate::strategy::ChompRangeView;
use crate::strategy::Strategy;
use crate::strategies::sliding_window::sw_windows;

verus! {

/// One file's contribution for window size `w`: every window of `w`
/// consecutive non-blank lines. A file with fewer than `w` non-blank
/// lines contributes nothing for this size.
pub open spec fn utn_file(f: FileStateView, w: int) -> Seq<ChompRangeView> {
    let nb = nb_of(f.blanked);
    if 1 <= w <= nb.len() {
        sw_windows(f.path, nb, w, 0)
    } else {
        Seq::empty()
    }
}

/// The contributions of the files from index `i` on, for window size `w`.
pub open spec fn utn_files(files: Seq<FileStateView>, w: int, i: int) -> Seq<ChompRangeView>
    decreases files.len() - i,
{
    if i < 0 || i >= files.len() {
        Seq::empty()
    } else {
        utn_file(files[i], w) + utn_files(files, w, i + 1)
    }
}

/// All contributions for window sizes `w`, `w + 1`, ..., `maxw`, size by
/// size.
pub open spec fn utn_sizes(files: Seq<FileStateView>, maxw: int, w: int) -> Seq<ChompRangeView>
    decreases maxw - w + 1,
{
    if w < 1 || w > maxw {
        Seq::empty()
    } else {
        utn_files(files, w, 0) + utn_sizes(files, maxw, w + 1)
    }
}

/// A file with zero lines contributes zero ranges for every window size.
pub proof fn lemma_up_to_n_empty_file(f: FileStateView, w: int)
    requires
        f.wf(),
        f.lines.len() == 0,
    ensures
        utn_file(f, w) == Seq::<ChompRangeView>::empty(),
{
    assert(nb_of(f.blanked) =~= Seq::<usize>::empty());
}

/// Up-to-N strategy: overlapping windows of every size from one up to a
/// maximum (at least one).
pub struct UpToNLinesStrategy {
    max_window_size: usize,
}

impl UpToNLinesStrategy {
    /// The effective maximum window size: the configured one, raised to
    /// one if it was zero.
    pub closed spec fn spec_max_window(&self) -> int {
        if self.max_window_size == 0 {
            1
        } else {
            self.max_window_size as int
        }
    }

    /// Windows of every size from one through `max_window_size`; a
    /// maximum of zero is raised to one.
    pub fn new(max_window_size: usize) -> (r: UpToNLinesStrategy)
        ensures
            r.spec_max_window() == if max_window_size == 0 {
                1int
            } else {
                max_window_size as int
            },
            r.spec_max_window() >= 1,
    {
        UpToNLinesStrategy { max_window_size }
    }
}

impl Strategy for UpToNLinesStrategy {
    open spec fn spec_ranges(&self, files: Seq<FileStateView>) -> Seq<ChompRangeView> {
        utn_sizes(files, self.spec_max_window(), 1)
    }

    fn name(&self) -> (r: &'static str) {
        "up_to_n_lines"
    }

    #[verifier::loop_isolation(false)]
    fn generate_ranges(&self, files: &Vec<FileState>) -> (r: Vec<ChompRange>) {
        let ghost fvs = views_of(files@);
        let maxw = if self.max_window_size == 0 {
            1
        } else {
            self.max_window_size
        };
        let ghost mw = self.spec_max_window();
        proof {
            assert(maxw as int == mw);
        }
        let mut ranges: Vec<ChompRange> = Vec::new();
        proof {
            assert(ranges.deep_view() + utn_sizes(fvs, mw, 1) =~= utn_sizes(fvs, mw, 1));
        }
        let file_count = files.len();
        let mut k: usize = 0;
        while k < maxw
            invariant
                0 <= k <= maxw,
                ranges.deep_view() + utn_sizes(fvs, mw, k as int + 1) == utn_sizes(fvs, mw, 1),
            decreases maxw - k,
        {
            let w = k + 1;
            proof {
                assert(utn_sizes(fvs, mw, w as int) == utn_files(fvs, w as int, 0) + utn_sizes(
                    fvs,
                    mw,
                    w as int + 1,
                ));
                assert((ranges.deep_view() + (utn_files(fvs, w as int, 0) + utn_sizes(
                    fvs,
                    mw,
                    w as int + 1,
                ))) =~= ((ranges.deep_view() + utn_files(fvs, w as int, 0)) + utn_sizes(
                    fvs,
                    mw,
                    w as int + 1,
                )));
            }
            let mut fi: usize = 0;
            while fi < file_count
                invariant
                    0 <= fi <= file_count,
                    1 <= w,
                    w == k + 1,
                    (ranges.deep_view() + utn_files(fvs, w as int, fi as int)) + utn_sizes(
                        fvs,
                        mw,
                        w as int + 1,
                    ) == utn_sizes(fvs, mw, 1),
                decreases file_count - fi,
            {
                let f = &files[fi];
                proof {
                    assert(f@ == fvs[fi as int]);
                    assert(f@.wf());
                }
                let nb = f.non_blank_line_indices();
                let total = f.total_lines();
                proof {
                    lemma_nb_of_props(f@.blanked);
                }
                let ghost path = f@.path;
                let count = nb.len();
                proof {
                    assert(utn_files(fvs, w as int, fi as int) == utn_file(fvs[fi as int], w as int)
                        + utn_files(fvs, w as int, fi as int + 1));
                }
                if w <= count {
                    proof {
                        assert((ranges.deep_view() + (sw_windows(path, nb@, w as int, 0)
                            + utn_files(fvs, w as int, fi as int + 1))) =~= ((ranges.deep_view()
                            + sw_windows(path, nb@, w as int, 0)) + utn_files(
                            fvs,
                            w as int,
                            fi as int + 1,
                        )));
                    }
                    let mut si: usize = 0;
                    while si <= count - w
                        invariant
                            0 <= si <= count - w + 1,
                            w >= 1,
                            count == nb@.len(),
                            count >= w,
                            ((ranges.deep_view() + sw_windows(path, nb@, w as int, si as int))
                                + utn_files(fvs, w as int, fi as int + 1)) + utn_sizes(
                                fvs,
                                mw,
                                w as int + 1,
                            ) == utn_sizes(fvs, mw, 1),
                        decreases count - si,
                    {
                        let ghost before = ranges.deep_view();
                        let crv = ChompRange {
                            file: f.path().clone(),
                            start_line: nb[si],
                            end_line: nb[si + w - 1] + 1,
                        };
                        ranges.push(crv);
                        proof {
                            assert(sw_windows(path, nb@, w as int, si as int) == seq![crv@]
                                + sw_windows(path, nb@, w as int, si as int + 1));
                            assert(ranges.deep_view() =~= before + seq![crv@]);
                            assert((before + (seq![crv@] + sw_windows(
                                path,
                                nb@,
                                w as int,
                                si as int + 1,
                            ))) =~= ((before + seq![crv@]) + sw_windows(
                                path,
                                nb@,
                                w as int,
                                si as int + 1,
                            )));
                        }
                        si += 1;
                    }
                    proof {
                        assert(sw_windows(path, nb@, w as int, si as int) =~= Seq::<
                            ChompRangeView,
                        >::empty());
                        assert(ranges.deep_view() + Seq::<ChompRangeView>::empty()
                            =~= ranges.deep_view());
                    }
                } else {
                    proof {
                        assert(utn_file(fvs[fi as int], w as int) =~= Seq::<
                            ChompRangeView,
                        >::empty());
                        assert(ranges.deep_view() + Seq::<ChompRangeView>::empty()
                            =~= ranges.deep_view());
                    }
                }
                fi += 1;
            }
            proof {
                assert(utn_files(fvs, w as int, file_count as int) =~= Seq::<
                    ChompRangeView,
                >::empty());
                assert(ranges.deep_view() + Seq::<ChompRangeView>::empty() =~= ranges.deep_view());
            }
            k += 1;
        }
        proof {
            assert(utn_sizes(fvs, mw, maxw as int + 1) =~= Seq::<ChompRangeView>::empty());
            assert(ranges.deep_view() + Seq::<ChompRangeView>::empty() =~= ranges.deep_view());
        }
        ranges
    }
}

} // verus!
