//! Random ranges: tries removing pseudo-randomly placed contiguous runs of
//! non-blank lines of varying length, which can free chunks that bisection
//! never aligns with.

use vstd::prelude::*;
use crate::file_state::FileState;
use crate::file_state::FileStateView;
use crate::file_state::nb_of;
use crate::file_state::lemma_nb_of_props;
use crate::file_manager::views_of;
use crate::file_manager::wf_files;
use crate::rng::lcg_step;
use crate::rng::lcg_draw;
use crate::rng::lcg_next;
use crate::strategy::ChompRange;
use crate::strategy::ChompRangeView;
use crate::strategy::Strategy;

verus! {

/// The generator's walking state: the rng and the ranges emitted so far.
#[verifier::ext_equal]
pub struct RrState {
    pub rng: u64,
    pub acc: Seq<ChompRangeView>,
}

/// One attempt: draw a file, a start position among its non-blank lines,
/// and a length of at most a quarter of them (at least one); skip files
/// with fewer than two non-blank lines.
pub open spec fn rr_step(files: Seq<FileStateView>, st: RrState) -> RrState {
    let s1 = lcg_step(st.rng);
    let fi = lcg_draw(st.rng) as int % files.len() as int;
    let f = files[fi];
    let nb = nb_of(f.blanked);
    if nb.len() < 2 {
        RrState { rng: s1, acc: st.acc }
    } else {
        let count = nb.len() as int;
        let s2 = lcg_step(s1);
        let start_idx = lcg_draw(s1) as int % count;
        let s3 = lcg_step(s2);
        let max_size = if count / 4 >= 1 {
            count / 4
        } else {
            1
        };
        let size = lcg_draw(s2) as int % max_size + 1;
        let end_idx = if start_idx + size <= count {
            start_idx + size
        } else {
            count
        };
        RrState {
            rng: s3,
            acc: st.acc.push(
                ChompRangeView {
                    file: f.path,
                    start: nb[start_idx] as int,
                    end: nb[end_idx - 1] as int + 1,
                },
            ),
        }
    }
}

/// The walking state after `k` attempts from `seed`.
pub open spec fn rr_iter(files: Seq<FileStateView>, seed: u64, k: int) -> RrState
    decreases k,
{
    if k <= 0 {
        RrState { rng: seed, acc: Seq::empty() }
    } else {
        rr_step(files, rr_iter(files, seed, k - 1))
    }
}

/// All ranges the strategy proposes: `max_attempts` attempts, nothing when
/// no file is managed.
pub open spec fn rr_ranges(files: Seq<FileStateView>, seed: u64, max_attempts: int) -> Seq<
    ChompRangeView,
> {
    if files.len() == 0 {
        Seq::empty()
    } else {
        rr_iter(files, seed, max_attempts).acc
    }
}

/// No emitted range ever names a file with fewer than two non-blank
/// lines.
pub proof fn lemma_rr_targets_non_blank(files: Seq<FileStateView>, seed: u64, k: int)
    requires
        files.len() > 0,
    ensures
        forall|r: ChompRangeView|
            rr_iter(files, seed, k).acc.contains(r) ==> exists|i: int|
                0 <= i < files.len() && (#[trigger] files[i]).path == r.file && nb_of(
                    files[i].blanked,
                ).len() >= 2,
    decreases k,
{
    if k > 0 {
        lemma_rr_targets_non_blank(files, seed, k - 1);
        let st = rr_iter(files, seed, k - 1);
        let st2 = rr_iter(files, seed, k);
        let fi = lcg_draw(st.rng) as int % files.len() as int;
        assert forall|r: ChompRangeView| st2.acc.contains(r) implies exists|i: int|
            0 <= i < files.len() && (#[trigger] files[i]).path == r.file && nb_of(
                files[i].blanked,
            ).len() >= 2 by {
            if st2.acc == st.acc {
                assert(st.acc.contains(r));
            } else {
                let j = choose|j: int| 0 <= j < st2.acc.len() && st2.acc[j] == r;
                if j < st.acc.len() {
                    assert(st.acc[j] == r);
                    assert(st.acc.contains(r));
                } else {
                    assert(0 <= fi < files.len());
                    assert(files[fi].path == r.file);
                    assert(nb_of(files[fi].blanked).len() >= 2);
                }
            }
        }
    }
}

/// A file with zero lines contributes zero ranges: no proposal of the
/// random-range strategy ever names it.
pub proof fn lemma_random_ranges_empty_file(
    files: Seq<FileStateView>,
    seed: u64,
    max_attempts: int,
    i: int,
)
    requires
        wf_files(files),
        0 <= i < files.len(),
        files[i].lines.len() == 0,
    ensures
        forall|r: ChompRangeView|
            rr_ranges(files, seed, max_attempts).contains(r) ==> r.file != files[i].path,
{
    lemma_rr_targets_non_blank(files, seed, max_attempts);
    assert(nb_of(files[i].blanked) =~= Seq::<usize>::empty());
    assert forall|r: ChompRangeView|
        rr_ranges(files, seed, max_attempts).contains(r) implies r.file != files[i].path by {
        let j = choose|j: int|
            0 <= j < files.len() && (#[trigger] files[j]).path == r.file && nb_of(
                files[j].blanked,
            ).len() >= 2;
        if r.file == files[i].path {
            assert(files[j].path == files[i].path);
            assert(j == i);
            assert(false);
        }
    }
}

/// Determinism given a seed: the proposals are a function of the seed,
/// the attempt cap, and the file states alone, so two strategies built
/// alike propose identical range sequences on the same input.
pub proof fn lemma_random_ranges_deterministic(
    a: RandomRangesStrategy,
    b: RandomRangesStrategy,
    files: Seq<FileStateView>,
)
    requires
        a.spec_seed() == b.spec_seed(),
        a.spec_max_attempts() == b.spec_max_attempts(),
    ensures
        a.spec_ranges(files) == b.spec_ranges(files),
{
}

/// Random contiguous-range strategy with an attempt cap and a seed.
pub struct RandomRangesStrategy {
    max_attempts: usize,
    seed: u64,
}

impl RandomRangesStrategy {
    /// The configured attempt cap.
    pub closed spec fn spec_max_attempts(&self) -> int {
        self.max_attempts as int
    }

    /// The seed the generator starts from.
    pub closed spec fn spec_seed(&self) -> u64 {
        self.seed
    }

    /// Up to `max_attempts` random ranges, from the fixed default seed,
    /// so that runs are reproducible.
    pub fn new(max_attempts: usize) -> (r: RandomRangesStrategy)
        ensures
            r.spec_max_attempts() == max_attempts as int,
            r.spec_seed() == 54321u64,
    {
        RandomRangesStrategy { max_attempts, seed: 54321 }
    }

    /// The same strategy under a caller-chosen seed.
    pub fn with_seed(max_attempts: usize, seed: u64) -> (r: RandomRangesStrategy)
        ensures
            r.spec_max_attempts() == max_attempts as int,
            r.spec_seed() == seed,
    {
        RandomRangesStrategy { max_attempts, seed }
    }
}

impl Strategy for RandomRangesStrategy {
    open spec fn spec_ranges(&self, files: Seq<FileStateView>) -> Seq<ChompRangeView> {
        rr_ranges(files, self.spec_seed(), self.spec_max_attempts())
    }

    fn name(&self) -> (r: &'static str) {
        "random_ranges"
    }

    #[verifier::loop_isolation(false)]
    fn generate_ranges(&self, files: &Vec<FileState>) -> (r: Vec<ChompRange>) {
        let ghost fvs = views_of(files@);
        let ghost seed = self.spec_seed();
        let mut ranges: Vec<ChompRange> = Vec::new();
        let file_count = files.len();
        if file_count == 0 {
            proof {
                assert(ranges.deep_view() =~= rr_ranges(fvs, seed, self.spec_max_attempts()));
            }
            return ranges;
        }
        let attempts = self.max_attempts;
        let mut state: u64 = self.seed;
        let mut a: usize = 0;
        proof {
            assert(ranges.deep_view() =~= rr_iter(fvs, seed, 0).acc);
        }
        while a < attempts
            invariant
                0 <= a <= attempts,
                fvs.len() > 0,
                state == rr_iter(fvs, seed, a as int).rng,
                ranges.deep_view() == rr_iter(fvs, seed, a as int).acc,
            decreases attempts - a,
        {
            let ghost st = rr_iter(fvs, seed, a as int);
            let (s1, d1) = lcg_next(state);
            let fi = (d1 as usize) % file_count;
            let f = &files[fi];
            proof {
                assert(f@ == fvs[fi as int]);
                assert(f@.wf());
            }
            let nb = f.non_blank_line_indices();
            let total_f = f.total_lines();
            proof {
                lemma_nb_of_props(f@.blanked);
            }
            let count = nb.len();
            if count < 2 {
                state = s1;
                proof {
                    assert(rr_iter(fvs, seed, a as int + 1) == rr_step(fvs, st));
                    assert(rr_step(fvs, st) =~= (RrState { rng: s1, acc: st.acc }));
                }
            } else {
                let (s2, d2) = lcg_next(s1);
                let start_idx = (d2 as usize) % count;
                let (s3, d3) = lcg_next(s2);
                let max_size = if count / 4 >= 1 {
                    count / 4
                } else {
                    1
                };
                let size = (d3 as usize) % max_size + 1;
                let end_idx = if count - start_idx > size {
                    start_idx + size
                } else {
                    count
                };
                let ghost acc_before = ranges.deep_view();
                let crv = ChompRange {
                    file: f.path().clone(),
                    start_line: nb[start_idx],
                    end_line: nb[end_idx - 1] + 1,
                };
                ranges.push(crv);
                state = s3;
                proof {
                    assert(rr_iter(fvs, seed, a as int + 1) == rr_step(fvs, st));
                    assert(ranges.deep_view() =~= acc_before.push(crv@));
                    assert(rr_step(fvs, st) =~= (RrState { rng: s3, acc: st.acc.push(crv@) }));
                }
            }
            a += 1;
        }
        ranges
    }
}

} // verus!
