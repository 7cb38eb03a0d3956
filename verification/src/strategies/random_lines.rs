//! Random single lines: tries removing individual lines picked pseudo-
//! randomly among the non-blank lines, which can free lines that bisection
//! misses because they interleave with live ones.

use vstd::prelude::*;
use crate::file_state::FileState;
use crate::file_state::FileStateView;
use crate::file_state::nb_of;
use crate::file_state::lemma_nb_of_props;
use crate::file_state::lemma_take_contains;
use crate::file_manager::views_of;
use crate::file_manager::wf_files;
use crate::file_manager::sum_non_blank;
use crate::file_manager::sum_non_blank_upto;
use crate::file_manager::lemma_sum_non_blank_mono;
use crate::rng::lcg_step;
use crate::rng::lcg_draw;
use crate::rng::lcg_next;
use crate::strategy::ChompRange;
use crate::strategy::ChompRangeView;
use crate::strategy::Strategy;

verus! {

/// The `(file index, line)` pairs already proposed, as mathematical pairs.
pub open spec fn pairs_view(s: Seq<(usize, usize)>) -> Seq<(int, int)> {
    s.map_values(|p: (usize, usize)| (p.0 as int, p.1 as int))
}

/// The generator's full walking state: the rng, the pairs already
/// proposed, and the ranges emitted so far.
#[verifier::ext_equal]
pub struct RlState {
    pub rng: u64,
    pub tried: Seq<(int, int)>,
    pub acc: Seq<ChompRangeView>,
}

/// One attempt: draw a file, then a non-blank line of it; skip files with
/// no non-blank line and `(file, line)` pairs already proposed.
pub open spec fn rl_step(files: Seq<FileStateView>, st: RlState) -> RlState {
    let s1 = lcg_step(st.rng);
    let fi = lcg_draw(st.rng) as int % files.len() as int;
    let f = files[fi];
    let nb = nb_of(f.blanked);
    if nb.len() == 0 {
        RlState { rng: s1, tried: st.tried, acc: st.acc }
    } else {
        let s2 = lcg_step(s1);
        let idx = lcg_draw(s1) as int % nb.len() as int;
        let line = nb[idx];
        if st.tried.contains((fi, line as int)) {
            RlState { rng: s2, tried: st.tried, acc: st.acc }
        } else {
            RlState {
                rng: s2,
                tried: st.tried.push((fi, line as int)),
                acc: st.acc.push(
                    ChompRangeView { file: f.path, start: line as int, end: line as int + 1 },
                ),
            }
        }
    }
}

/// The walking state after `k` attempts from `seed`.
pub open spec fn rl_iter(files: Seq<FileStateView>, seed: u64, k: int) -> RlState
    decreases k,
{
    if k <= 0 {
        RlState { rng: seed, tried: Seq::empty(), acc: Seq::empty() }
    } else {
        rl_step(files, rl_iter(files, seed, k - 1))
    }
}

/// All ranges the strategy proposes: up to `min(max_attempts, total
/// non-blank lines)` attempts, nothing when no line is left.
pub open spec fn rl_ranges(files: Seq<FileStateView>, seed: u64, max_attempts: int) -> Seq<
    ChompRangeView,
> {
    let total = sum_non_blank(files);
    if total == 0 {
        Seq::empty()
    } else {
        let attempts = if max_attempts <= total {
            max_attempts
        } else {
            total
        };
        rl_iter(files, seed, attempts).acc
    }
}

/// No emitted range ever names a file without a non-blank line.
pub proof fn lemma_rl_targets_non_blank(files: Seq<FileStateView>, seed: u64, k: int)
    requires
        files.len() > 0,
    ensures
        forall|r: ChompRangeView|
            rl_iter(files, seed, k).acc.contains(r) ==> exists|i: int|
                0 <= i < files.len() && (#[trigger] files[i]).path == r.file && nb_of(
                    files[i].blanked,
                ).len() > 0,
    decreases k,
{
    if k > 0 {
        lemma_rl_targets_non_blank(files, seed, k - 1);
        let st = rl_iter(files, seed, k - 1);
        let st2 = rl_iter(files, seed, k);
        let fi = lcg_draw(st.rng) as int % files.len() as int;
        assert forall|r: ChompRangeView| st2.acc.contains(r) implies exists|i: int|
            0 <= i < files.len() && (#[trigger] files[i]).path == r.file && nb_of(
                files[i].blanked,
            ).len() > 0 by {
            if st2.acc == st.acc {
                assert(st.acc.contains(r));
            } else {
                let j = choose|j: int| 0 <= j < st2.acc.len() && st2.acc[j] == r;
                if j < st.acc.len() {
                    assert(st.acc[j] == r);
                    assert(st.acc.contains(r));
                } else {
                    assert(0 <= fi < files.len());
                    assert(files[fi].path == r.file);
                    assert(nb_of(files[fi].blanked).len() > 0);
                }
            }
        }
    }
}

/// A file with zero lines contributes zero ranges: no proposal of the
/// random single-line strategy ever names it.
pub proof fn lemma_random_lines_empty_file(
    files: Seq<FileStateView>,
    seed: u64,
    max_attempts: int,
    i: int,
)
    requires
        wf_files(files),
        0 <= i < files.len(),
        files[i].lines.len() == 0,
    ensures
        forall|r: ChompRangeView|
            rl_ranges(files, seed, max_attempts).contains(r) ==> r.file != files[i].path,
{
    if sum_non_blank(files) != 0 {
        let total = sum_non_blank(files);
        let attempts = if max_attempts <= total {
            max_attempts
        } else {
            total
        };
        lemma_rl_targets_non_blank(files, seed, attempts);
        assert(nb_of(files[i].blanked) =~= Seq::<usize>::empty());
        assert forall|r: ChompRangeView|
            rl_ranges(files, seed, max_attempts).contains(r) implies r.file != files[i].path by {
            let j = choose|j: int|
                0 <= j < files.len() && (#[trigger] files[j]).path == r.file && nb_of(
                    files[j].blanked,
                ).len() > 0;
            if r.file == files[i].path {
                assert(files[j].path == files[i].path);
                assert(j == i);
                assert(false);
            }
        }
    }
}

/// Determinism given a seed: the proposals are a function of the seed,
/// the attempt cap, and the file states alone, so two strategies built
/// alike propose identical range sequences on the same input.
pub proof fn lemma_random_lines_deterministic(
    a: RandomLinesStrategy,
    b: RandomLinesStrategy,
    files: Seq<FileStateView>,
)
    requires
        a.spec_seed() == b.spec_seed(),
        a.spec_max_attempts() == b.spec_max_attempts(),
    ensures
        a.spec_ranges(files) == b.spec_ranges(files),
{
}

/// Random single-line strategy with an attempt cap and a seed.
pub struct RandomLinesStrategy {
    max_attempts: usize,
    seed: u64,
}

impl RandomLinesStrategy {
    /// The configured attempt cap.
    pub closed spec fn spec_max_attempts(&self) -> int {
        self.max_attempts as int
    }

    /// The seed the generator starts from.
    pub closed spec fn spec_seed(&self) -> u64 {
        self.seed
    }

    /// Up to `max_attempts` random single lines, from the fixed default
    /// seed, so that runs are reproducible.
    pub fn new(max_attempts: usize) -> (r: RandomLinesStrategy)
        ensures
            r.spec_max_attempts() == max_attempts as int,
            r.spec_seed() == 12345u64,
    {
        RandomLinesStrategy { max_attempts, seed: 12345 }
    }

    /// The same strategy under a caller-chosen seed.
    pub fn with_seed(max_attempts: usize, seed: u64) -> (r: RandomLinesStrategy)
        ensures
            r.spec_max_attempts() == max_attempts as int,
            r.spec_seed() == seed,
    {
        RandomLinesStrategy { max_attempts, seed }
    }
}

impl Strategy for RandomLinesStrategy {
    open spec fn spec_ranges(&self, files: Seq<FileStateView>) -> Seq<ChompRangeView> {
        rl_ranges(files, self.spec_seed(), self.spec_max_attempts())
    }

    fn name(&self) -> (r: &'static str) {
        "random_lines"
    }

    #[verifier::loop_isolation(false)]
    fn generate_ranges(&self, files: &Vec<FileState>) -> (r: Vec<ChompRange>) {
        let ghost fvs = views_of(files@);
        let ghost seed = self.spec_seed();
        let mut ranges: Vec<ChompRange> = Vec::new();
        let file_count = files.len();

        let mut total: usize = 0;
        let mut i: usize = 0;
        while i < file_count
            invariant
                0 <= i <= file_count,
                total == sum_non_blank_upto(fvs, i as int),
            decreases file_count - i,
        {
            proof {
                lemma_sum_non_blank_mono(fvs, i as int + 1, fvs.len() as int);
                assert(fvs[i as int].non_blank() >= 0);
                lemma_sum_non_blank_mono(fvs, 0, i as int);
                assert(files@[i as int]@ == fvs[i as int]);
            }
            let t = files[i].non_blank_lines();
            total = total + t;
            i += 1;
        }
        if total == 0 {
            proof {
                assert(ranges.deep_view() =~= rl_ranges(fvs, seed, self.spec_max_attempts()));
            }
            return ranges;
        }
        let attempts = if self.max_attempts <= total {
            self.max_attempts
        } else {
            total
        };
        proof {
            if fvs.len() == 0 {
                assert(sum_non_blank(fvs) == 0);
            }
        }
        let mut tried: Vec<(usize, usize)> = Vec::new();
        let mut state: u64 = self.seed;
        let mut a: usize = 0;
        proof {
            assert(pairs_view(tried@) =~= rl_iter(fvs, seed, 0).tried);
            assert(ranges.deep_view() =~= rl_iter(fvs, seed, 0).acc);
        }
        while a < attempts
            invariant
                0 <= a <= attempts,
                fvs.len() > 0,
                state == rl_iter(fvs, seed, a as int).rng,
                pairs_view(tried@) == rl_iter(fvs, seed, a as int).tried,
                ranges.deep_view() == rl_iter(fvs, seed, a as int).acc,
            decreases attempts - a,
        {
            let ghost st = rl_iter(fvs, seed, a as int);
            let (s1, d1) = lcg_next(state);
            let fi = (d1 as usize) % file_count;
            let f = &files[fi];
            proof {
                assert(f@ == fvs[fi as int]);
                assert(f@.wf());
            }
            let nb = f.non_blank_line_indices();
            let total_f = f.total_lines();
            proof {
                lemma_nb_of_props(f@.blanked);
            }
            if nb.len() == 0 {
                state = s1;
                proof {
                    assert(rl_iter(fvs, seed, a as int + 1) == rl_step(fvs, st));
                    assert(rl_step(fvs, st) =~= (RlState {
                        rng: s1,
                        tried: st.tried,
                        acc: st.acc,
                    }));
                }
            } else {
                let (s2, d2) = lcg_next(s1);
                let idx = (d2 as usize) % nb.len();
                let line = nb[idx];
                let ghost pair = (fi as int, line as int);

                let mut seen = false;
                let tried_count = tried.len();
                let mut j: usize = 0;
                while j < tried_count
                    invariant
                        0 <= j <= tried_count,
                        tried_count == tried@.len(),
                        seen <==> pairs_view(tried@).take(j as int).contains(pair),
                    decreases tried_count - j,
                {
                    let p = tried[j];
                    if p.0 == fi && p.1 == line {
                        seen = true;
                    }
                    proof {
                        lemma_take_contains(pairs_view(tried@), j as int, pair);
                        assert(pairs_view(tried@)[j as int] == (
                        tried@[j as int].0 as int,
                        tried@[j as int].1 as int,
                        ));
                    }
                    j += 1;
                }
                proof {
                    assert(pairs_view(tried@).take(tried@.len() as int) =~= pairs_view(tried@));
                    assert(seen <==> st.tried.contains(pair));
                }
                if seen {
                    state = s2;
                    proof {
                        assert(rl_iter(fvs, seed, a as int + 1) == rl_step(fvs, st));
                        assert(rl_step(fvs, st) =~= (RlState {
                            rng: s2,
                            tried: st.tried,
                            acc: st.acc,
                        }));
                    }
                } else {
                    let ghost tried_before = pairs_view(tried@);
                    let ghost acc_before = ranges.deep_view();
                    tried.push((fi, line));
                    let crv = ChompRange {
                        file: f.path().clone(),
                        start_line: line,
                        end_line: line + 1,
                    };
                    ranges.push(crv);
                    state = s2;
                    proof {
                        assert(rl_iter(fvs, seed, a as int + 1) == rl_step(fvs, st));
                        assert(pairs_view(tried@) =~= tried_before.push(pair));
                        assert(ranges.deep_view() =~= acc_before.push(crv@));
                        assert(crv@ =~= (ChompRangeView {
                            file: f@.path,
                            start: line as int,
                            end: line as int + 1,
                        }));
                        assert(rl_step(fvs, st) =~= (RlState {
                            rng: s2,
                            tried: st.tried.push(pair),
                            acc: st.acc.push(crv@),
                        }));
                    }
                }
            }
            a += 1;
        }
        proof {
            assert(attempts as int == if self.spec_max_attempts() <= sum_non_blank(fvs) {
                self.spec_max_attempts()
            } else {
                sum_non_blank(fvs)
            });
        }
        ranges
    }
}

} // verus!
