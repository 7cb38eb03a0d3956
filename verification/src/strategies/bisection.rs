//! Bisection: systematically tries removing halves, then quarters, then
//! eighths of each file's non-blank lines.

use vstd::prelude::*;
use crate::file_state::FileState;
use crate::file_state::FileStateView;
use crate::file_state::nb_of;
use crate::file_state::lemma_nb_of_props;
use crate::file_manager::views_of;
use crate::strategy::ChompRange;
use crate::strategy::ChompRangeView;
use crate::strategy::Strategy;

verus! {

/// The consecutive chunks of width `w` of the non-blank index list `nb`,
/// starting at position `si`, each translated to a range of original line
/// numbers.
pub open spec fn bis_chunks(path: Seq<char>, nb: Seq<usize>, w: int, si: int) -> Seq<
    ChompRangeView,
>
    decreases nb.len() - si,
{
    if w <= 0 || si < 0 || si >= nb.len() {
        Seq::empty()
    } else {
        let ei = if si + w <= nb.len() {
            si + w
        } else {
            nb.len() as int
        };
        seq![
            ChompRangeView { file: path, start: nb[si] as int, end: nb[ei - 1] as int + 1 },
        ] + bis_chunks(path, nb, w, ei)
    }
}

/// All chunk rows for widths `w`, `w / 2`, `w / 4`, ... down to `1`.
pub open spec fn bis_sizes(path: Seq<char>, nb: Seq<usize>, w: int) -> Seq<ChompRangeView>
    decreases w,
{
    if w <= 0 {
        Seq::empty()
    } else {
        bis_chunks(path, nb, w, 0) + bis_sizes(path, nb, w / 2)
    }
}

/// One file's contribution: bisect the non-blank lines, starting from half
/// their count. A file with fewer than two non-blank lines contributes
/// nothing.
pub open spec fn bis_file(f: FileStateView) -> Seq<ChompRangeView> {
    bis_sizes(f.path, nb_of(f.blanked), nb_of(f.blanked).len() as int / 2)
}

/// The contributions of the files from index `i` on, in order.
pub open spec fn bis_ranges(files: Seq<FileStateView>, i: int) -> Seq<ChompRangeView>
    decreases files.len() - i,
{
    if i < 0 || i >= files.len() {
        Seq::empty()
    } else {
        bis_file(files[i]) + bis_ranges(files, i + 1)
    }
}

/// A file with zero lines contributes zero ranges to bisection; so does a
/// file with a single non-blank line, since half of one line is none.
pub proof fn lemma_bisection_small_file(f: FileStateView)
    requires
        f.wf(),
        nb_of(f.blanked).len() <= 1,
    ensures
        bis_file(f) == Seq::<ChompRangeView>::empty(),
{
    assert(nb_of(f.blanked).len() as int / 2 == 0);
}

/// Bisection strategy: propose the consecutive halves of every file's
/// non-blank lines, then the quarters, and so on down to single lines.
pub struct BisectionStrategy;

impl Strategy for BisectionStrategy {
    open spec fn spec_ranges(&self, files: Seq<FileStateView>) -> Seq<ChompRangeView> {
        bis_ranges(files, 0)
    }

    fn name(&self) -> (r: &'static str) {
        "bisection"
    }

    #[verifier::loop_isolation(false)]
    fn generate_ranges(&self, files: &Vec<FileState>) -> (r: Vec<ChompRange>) {
        let ghost fvs = views_of(files@);
        let mut ranges: Vec<ChompRange> = Vec::new();
        proof {
            assert(ranges.deep_view() + bis_ranges(fvs, 0) =~= bis_ranges(fvs, 0));
        }
        let file_count = files.len();
        let mut fi: usize = 0;
        while fi < file_count
            invariant
                0 <= fi <= file_count,
                ranges.deep_view() + bis_ranges(fvs, fi as int) == bis_ranges(fvs, 0),
            decreases file_count - fi,
        {
            let f = &files[fi];
            proof {
                assert(f@ == fvs[fi as int]);
                assert(f@.wf());
            }
            let nb = f.non_blank_line_indices();
            let total = f.total_lines();
            proof {
                lemma_nb_of_props(f@.blanked);
            }
            let ghost path = f@.path;
            let count = nb.len();
            let mut w: usize = count / 2;
            proof {
                assert(bis_ranges(fvs, fi as int) == bis_file(fvs[fi as int]) + bis_ranges(
                    fvs,
                    fi as int + 1,
                ));
                assert(ranges.deep_view() + (bis_sizes(path, nb@, w as int) + bis_ranges(
                    fvs,
                    fi as int + 1,
                )) =~= (ranges.deep_view() + bis_sizes(path, nb@, w as int)) + bis_ranges(
                    fvs,
                    fi as int + 1,
                ));
            }
            while w > 0
                invariant
                    (ranges.deep_view() + bis_sizes(path, nb@, w as int)) + bis_ranges(
                        fvs,
                        fi as int + 1,
                    ) == bis_ranges(fvs, 0),
                decreases w,
            {
                let mut si: usize = 0;
                proof {
                    assert(bis_sizes(path, nb@, w as int) == bis_chunks(path, nb@, w as int, 0)
                        + bis_sizes(path, nb@, w as int / 2));
                    assert((ranges.deep_view() + (bis_chunks(path, nb@, w as int, 0) + bis_sizes(
                        path,
                        nb@,
                        w as int / 2,
                    ))) =~= ((ranges.deep_view() + bis_chunks(path, nb@, w as int, 0)) + bis_sizes(
                        path,
                        nb@,
                        w as int / 2,
                    )));
                }
                while si < count
                    invariant
                        0 <= si <= count,
                        w > 0,
                        ((ranges.deep_view() + bis_chunks(path, nb@, w as int, si as int))
                            + bis_sizes(path, nb@, w as int / 2)) + bis_ranges(fvs, fi as int + 1)
                            == bis_ranges(fvs, 0),
                    decreases count - si,
                {
                    let ei = if count - si > w {
                        si + w
                    } else {
                        count
                    };
                    let start_line = nb[si];
                    let end_line = nb[ei - 1] + 1;
                    let ghost before = ranges.deep_view();
                    let crv = ChompRange {
                        file: f.path().clone(),
                        start_line,
                        end_line,
                    };
                    proof {
                        assert(crv@ == (ChompRangeView {
                            file: path,
                            start: nb@[si as int] as int,
                            end: nb@[ei as int - 1] as int + 1,
                        }));
                    }
                    ranges.push(crv);
                    proof {
                        assert(ranges.deep_view() =~= before.push(crv@));
                        assert(bis_chunks(path, nb@, w as int, si as int) == seq![crv@]
                            + bis_chunks(path, nb@, w as int, ei as int));
                        assert(before.push(crv@) =~= before + seq![crv@]);
                        assert((before + (seq![crv@] + bis_chunks(path, nb@, w as int, ei as int)))
                            =~= ((before + seq![crv@]) + bis_chunks(
                            path,
                            nb@,
                            w as int,
                            ei as int,
                        )));
                    }
                    si = ei;
                }
                proof {
                    assert(bis_chunks(path, nb@, w as int, si as int) =~= Seq::<
                        ChompRangeView,
                    >::empty());
                    assert((ranges.deep_view() + Seq::<ChompRangeView>::empty()) =~= ranges.deep_view());
                }
                w = w / 2;
            }
            proof {
                assert(bis_sizes(path, nb@, 0) =~= Seq::<ChompRangeView>::empty());
                assert((ranges.deep_view() + Seq::<ChompRangeView>::empty()) =~= ranges.deep_view());
            }
            fi += 1;
        }
        proof {
            assert(bis_ranges(fvs, file_count as int) =~= Seq::<ChompRangeView>::empty());
            assert((ranges.deep_view() + Seq::<ChompRangeView>::empty()) =~= ranges.deep_view());
        }
        ranges
    }
}

} // verus!
