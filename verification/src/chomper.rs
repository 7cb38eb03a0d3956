//! The reduction engine: it owns the managed files, the oracle's
//! configuration, the captured baseline, and the memo of configurations
//! already tested.
//!
//! Running the user's command and writing renderings to disk belong to the
//! caller, so one attempt is a pair of calls: `try_blank_range` decides
//! whether the attempt is worth an oracle run and blanks the candidate
//! lines; when it answers `NeedsOracle`, the caller persists every file's
//! current rendering, runs the command, and hands the outcome to
//! `finish_blank_range`, which keeps the blanking on a baseline match and
//! reverts it exactly otherwise (after a revert the caller persists
//! again). The memo is keyed on the configuration under which the oracle
//! ran, so no configuration is ever tested twice.

use vstd::prelude::*;
use crate::command_runner::CommandRunner;
use crate::command_runner::CommandRunnerView;
use crate::command_runner::RunResult;
use crate::command_runner::RunResultView;
use crate::file_manager::FileManager;
use crate::file_manager::sum_non_blank;
use crate::file_manager::lemma_sum_non_blank_update;
use crate::file_manager::wf_files;
use crate::file_state::FileStateView;
use crate::file_state::blank_flags;
use crate::file_state::unblank_flags;
use crate::file_state::nb_of;
use crate::file_state::lemma_take_contains;
use crate::strategy::ChompRange;

verus! {

/// What `try_blank_range` decided about an attempt.
#[derive(Debug, PartialEq, Eq, Structural, Clone, Copy)]
pub enum AttemptStart {
    /// The configuration the range leads to was already tested; nothing
    /// changed and no oracle run is needed.
    AlreadyTested,
    /// The candidate lines are blanked in memory; the caller must persist
    /// the renderings, run the command, and call `finish_blank_range`.
    NeedsOracle,
}

/// The ways the engine can refuse a call.
#[derive(Debug, PartialEq, Eq, Structural, Clone, Copy)]
pub enum EngineError {
    /// `try_blank_range` before `establish_baseline`.
    MissingBaseline,
    /// `try_blank_range` while an attempt awaits its oracle outcome.
    AttemptInProgress,
    /// `finish_blank_range` with no attempt under way.
    NoAttemptPending,
    /// The range names a file that is not managed.
    UnknownFile,
}

/// An attempt between its two halves: which file was touched and which
/// lines were newly blanked (they were non-blank before the attempt).
struct PendingChomp {
    file_index: usize,
    lines: Vec<usize>,
}

/// Mathematical image of a `Chomper`.
#[verifier::ext_equal]
pub struct ChomperView {
    pub files: Seq<FileStateView>,
    pub command: CommandRunnerView,
    pub baseline: Option<RunResultView>,
    pub memo: Seq<Seq<Seq<bool>>>,
    pub pending: Option<(int, Seq<usize>)>,
}

/// The memo key of a configuration: each file's blanked flags, in the
/// fixed order of the managed set. Two logically identical blanking
/// configurations of one engine always yield the same key, however the
/// blanking was arrived at.
pub open spec fn key_of(files: Seq<FileStateView>) -> Seq<Seq<bool>> {
    files.map_values(|f: FileStateView| f.blanked)
}

/// The mathematical value of an exec memo key.
pub open spec fn rows_view(key: Seq<Vec<bool>>) -> Seq<Seq<bool>> {
    Seq::new(key.len(), |i: int| key[i]@)
}

/// The mathematical value of the exec memo.
pub open spec fn memo_view(memo: Seq<Vec<Vec<bool>>>) -> Seq<Seq<Seq<bool>>> {
    Seq::new(memo.len(), |i: int| rows_view(memo[i]@))
}

/// The files after blanking the listed lines of file `fi`.
pub open spec fn files_after_blank(files: Seq<FileStateView>, fi: int, lines: Seq<usize>) -> Seq<
    FileStateView,
> {
    files.update(
        fi,
        FileStateView {
            path: files[fi].path,
            lines: files[fi].lines,
            blanked: blank_flags(files[fi].blanked, lines),
        },
    )
}

/// The files after unblanking the listed lines of file `fi`.
pub open spec fn files_after_unblank(files: Seq<FileStateView>, fi: int, lines: Seq<usize>) -> Seq<
    FileStateView,
> {
    files.update(
        fi,
        FileStateView {
            path: files[fi].path,
            lines: files[fi].lines,
            blanked: unblank_flags(files[fi].blanked, lines),
        },
    )
}

/// The in-range indices of `[start, end)` that are not blanked, in
/// increasing order: exactly the lines an attempt newly blanks. Indices
/// beyond the flags are dropped, which is how a range reaching past the
/// end of the file is silently clamped.
pub open spec fn fresh_in_range(blanked: Seq<bool>, start: int, end: int) -> Seq<usize>
    decreases end - start,
{
    if end <= start || end <= 0 {
        Seq::empty()
    } else if end - 1 < blanked.len() && !blanked[end - 1] {
        fresh_in_range(blanked, start, end - 1).push((end - 1) as usize)
    } else {
        fresh_in_range(blanked, start, end - 1)
    }
}

/// Shape of `fresh_in_range`: its entries lie in `[start, end)`, are in
/// range of the flags, not blanked, and strictly increasing.
pub proof fn lemma_fresh_props(blanked: Seq<bool>, start: int, end: int)
    requires
        blanked.len() <= usize::MAX,
        0 <= start,
    ensures
        forall|k: int|
            0 <= k < fresh_in_range(blanked, start, end).len() ==> start <= (#[trigger] fresh_in_range(
                blanked,
                start,
                end,
            )[k]) && (fresh_in_range(blanked, start, end)[k] as int) < end && (fresh_in_range(
                blanked,
                start,
                end,
            )[k] as int) < blanked.len() && !blanked[fresh_in_range(blanked, start, end)[k] as int],
        forall|k1: int, k2: int|
            0 <= k1 < k2 < fresh_in_range(blanked, start, end).len() ==> fresh_in_range(
                blanked,
                start,
                end,
            )[k1] < fresh_in_range(blanked, start, end)[k2],
    decreases end - start,
{
    if end > start && end > 0 {
        lemma_fresh_props(blanked, start, end - 1);
        let f0 = fresh_in_range(blanked, start, end - 1);
        let f1 = fresh_in_range(blanked, start, end);
        if end - 1 < blanked.len() && !blanked[end - 1] {
            assert(f1 == f0.push((end - 1) as usize));
            assert(forall|k: int| 0 <= k < f0.len() ==> f1[k] == f0[k]);
            assert(f1[f1.len() - 1] == (end - 1) as usize);
        } else {
            assert(f1 == f0);
        }
        assert forall|k: int|
            0 <= k < f1.len() implies start <= f1[k] && (f1[k] as int) < end && (f1[k] as int)
            < blanked.len() && !blanked[f1[k] as int] by {
            if k < f0.len() {
                assert(f1[k] == f0[k]);
            }
        }
        assert forall|k1: int, k2: int| 0 <= k1 < k2 < f1.len() implies f1[k1] < f1[k2] by {
            if k2 < f0.len() {
                assert(f1[k1] == f0[k1] && f1[k2] == f0[k2]);
            } else {
                assert(f1[k1] == f0[k1]);
            }
        }
    }
}

/// Past the end of the flags, widening the range adds nothing.
pub proof fn lemma_fresh_clamp(blanked: Seq<bool>, start: int, end: int)
    requires
        0 <= start,
        end >= blanked.len(),
    ensures
        fresh_in_range(blanked, start, end) == fresh_in_range(blanked, start, blanked.len() as int),
    decreases end,
{
    if end > blanked.len() && end > start && end > 0 {
        lemma_fresh_clamp(blanked, start, end - 1);
    }
}

/// Blanking can only lower a file's non-blank count.
pub proof fn lemma_nb_count_mono(b1: Seq<bool>, b2: Seq<bool>)
    requires
        b1.len() == b2.len(),
        forall|i: int| 0 <= i < b1.len() && b1[i] ==> b2[i],
    ensures
        nb_of(b2).len() <= nb_of(b1).len(),
    decreases b1.len(),
{
    if b1.len() > 0 {
        lemma_nb_count_mono(b1.drop_last(), b2.drop_last());
        assert(forall|i: int| 0 <= i < b1.len() - 1 ==> b1.drop_last()[i] == b1[i]);
        assert(forall|i: int| 0 <= i < b2.len() - 1 ==> b2.drop_last()[i] == b2[i]);
    }
}

/// The engine: file states, oracle configuration, baseline, memo, and at
/// most one attempt under way.
pub struct Chomper {
    file_manager: FileManager,
    command_runner: CommandRunner,
    baseline_result: Option<RunResult>,
    tested_states: Vec<Vec<Vec<bool>>>,
    pending: Option<PendingChomp>,
}

impl View for Chomper {
    type V = ChomperView;

    closed spec fn view(&self) -> ChomperView {
        ChomperView {
            files: self.file_manager@,
            command: self.command_runner@,
            baseline: match self.baseline_result {
                Some(b) => Some(b@),
                None => None,
            },
            memo: memo_view(self.tested_states@),
            pending: match self.pending {
                Some(p) => Some((p.file_index as int, p.lines@)),
                None => None,
            },
        }
    }
}

impl ChomperView {
    /// Well-formedness: the managed set is well-formed, and a pending
    /// attempt points at a managed file whose listed lines are in range,
    /// strictly increasing, and currently blanked.
    pub open spec fn wf(self) -> bool {
        &&& wf_files(self.files)
        &&& match self.pending {
            Some((fi, lines)) => {
                &&& self.baseline is Some
                &&& 0 <= fi < self.files.len()
                &&& forall|k: int|
                    0 <= k < lines.len() ==> (#[trigger] lines[k]) < self.files[fi].blanked.len()
                        && self.files[fi].blanked[lines[k] as int]
                &&& forall|k1: int, k2: int| 0 <= k1 < k2 < lines.len() ==> lines[k1] < lines[k2]
            },
            None => true,
        }
    }

    /// The total number of non-blank lines across the managed files: the
    /// measure every kept attempt can only lower.
    pub open spec fn non_blank_total(self) -> int {
        sum_non_blank(self.files)
    }
}

impl Chomper {
    /// An engine over the given managed set and oracle configuration,
    /// with no baseline, an empty memo, and no attempt under way.
    pub fn new(file_manager: FileManager, command_runner: CommandRunner) -> (r: Chomper)
        requires
            wf_files(file_manager@),
        ensures
            r@.files == file_manager@,
            r@.command == command_runner@,
            r@.baseline is None,
            r@.memo == Seq::<Seq<Seq<bool>>>::empty(),
            r@.pending is None,
            r@.wf(),
    {
        let r = Chomper {
            file_manager,
            command_runner,
            baseline_result: None,
            tested_states: Vec::new(),
            pending: None,
        };
        proof {
            assert(r@.memo =~= Seq::<Seq<Seq<bool>>>::empty());
        }
        r
    }

    /// Record the oracle's outcome under the untouched files as the
    /// baseline every attempt is compared against. Callers must establish
    /// the baseline exactly once, before any attempt.
    pub fn establish_baseline(&mut self, result: RunResult)
        requires
            old(self)@.wf(),
            old(self)@.baseline is None,
        ensures
            final(self)@ == (ChomperView { baseline: Some(result@), ..old(self)@ }),
            final(self)@.wf(),
    {
        self.baseline_result = Some(result);
    }

    /// The captured baseline, if one was established.
    pub fn baseline_result(&self) -> (r: Option<&RunResult>)
        ensures
            match r {
                Some(b) => self@.baseline == Some(b@),
                None => self@.baseline is None,
            },
    {
        self.baseline_result.as_ref()
    }

    /// The managed files.
    pub fn file_manager(&self) -> (r: &FileManager)
        ensures
            r@ == self@.files,
    {
        &self.file_manager
    }

    /// The oracle configuration the engine was built with.
    pub fn command_runner(&self) -> (r: &CommandRunner)
        ensures
            r@ == self@.command,
    {
        &self.command_runner
    }

    /// How many configurations have been tested against the oracle.
    pub fn chomps_tested(&self) -> (r: usize)
        ensures
            r == self@.memo.len(),
    {
        self.tested_states.len()
    }

    /// The memo key of the current configuration.
    #[verifier::loop_isolation(false)]
    fn state_key(&self) -> (r: Vec<Vec<bool>>)
        requires
            wf_files(self@.files),
        ensures
            rows_view(r@) == key_of(self@.files),
    {
        let files = self.file_manager.files();
        let n = files.len();
        let mut key: Vec<Vec<bool>> = Vec::new();
        let mut fi: usize = 0;
        while fi < n
            invariant
                0 <= fi <= n,
                n == self@.files.len(),
                key@.len() == fi,
                forall|j: int| 0 <= j < fi ==> rows_view(key@)[j] == self@.files[j].blanked,
            decreases n - fi,
        {
            let f = &files[fi];
            proof {
                assert(f@ == self@.files[fi as int]);
                assert(f@.wf());
            }
            let total = f.total_lines();
            let mut row: Vec<bool> = Vec::new();
            let mut i: usize = 0;
            while i < total
                invariant
                    0 <= i <= total,
                    total == f@.blanked.len(),
                    row@ == f@.blanked.take(i as int),
                decreases total - i,
            {
                row.push(f.is_line_blanked(i));
                proof {
                    assert(row@ =~= f@.blanked.take(i as int + 1));
                }
                i += 1;
            }
            proof {
                assert(row@ =~= f@.blanked);
            }
            let ghost key_before = key@;
            key.push(row);
            proof {
                assert forall|j: int| 0 <= j < fi + 1 implies rows_view(key@)[j] == self@.files[j].blanked by {
                    if j < fi {
                        assert(key@[j] == key_before[j]);
                        assert(rows_view(key_before)[j] == self@.files[j].blanked);
                    } else {
                        assert(rows_view(key@)[j] == self@.files[fi as int].blanked);
                    }
                }
            }
            fi += 1;
        }
        proof {
            assert(rows_view(key@) =~= key_of(self@.files));
        }
        key
    }

    /// Whether the memo already holds this key.
    #[verifier::loop_isolation(false)]
    fn memo_contains(&self, key: &Vec<Vec<bool>>) -> (r: bool)
        ensures
            r <==> self@.memo.contains(rows_view(key@)),
    {
        let n = self.tested_states.len();
        let mut found = false;
        let mut j: usize = 0;
        while j < n
            invariant
                0 <= j <= n,
                n == self@.memo.len(),
                found <==> self@.memo.take(j as int).contains(rows_view(key@)),
            decreases n - j,
        {
            if key_eq(&self.tested_states[j], key) {
                found = true;
            }
            proof {
                lemma_take_contains(self@.memo, j as int, rows_view(key@));
                assert(self@.memo[j as int] == rows_view(self.tested_states@[j as int]@));
            }
            j += 1;
        }
        proof {
            assert(self@.memo.take(n as int) =~= self@.memo);
        }
        found
    }

    /// Decide one chomp attempt. With no baseline, or while another
    /// attempt awaits its oracle outcome, or for an unmanaged file, the
    /// engine refuses and changes nothing. Otherwise the lines of
    /// `[start_line, end_line)` that exist and are not yet blanked are the
    /// candidate; if the configuration they lead to is already in the
    /// memo the attempt is rejected without any change, and otherwise the
    /// candidate is blanked and the caller owes the engine an oracle
    /// outcome via `finish_blank_range`.
    #[verifier::loop_isolation(false)]
    pub fn try_blank_range(&mut self, range: &ChompRange) -> (r: Result<AttemptStart, EngineError>)
        requires
            old(self)@.wf(),
        ensures
            final(self)@.wf(),
            final(self)@.command == old(self)@.command,
            final(self)@.baseline == old(self)@.baseline,
            final(self)@.memo == old(self)@.memo,
            old(self)@.baseline is None ==> r == Err::<AttemptStart, EngineError>(
                EngineError::MissingBaseline,
            ) && final(self)@ == old(self)@,
            old(self)@.baseline is Some && old(self)@.pending is Some ==> r == Err::<
                AttemptStart,
                EngineError,
            >(EngineError::AttemptInProgress) && final(self)@ == old(self)@,
            old(self)@.baseline is Some && old(self)@.pending is None && (forall|i: int|
                0 <= i < old(self)@.files.len() ==> (#[trigger] old(self)@.files[i]).path
                    != range@.file) ==> r == Err::<AttemptStart, EngineError>(
                EngineError::UnknownFile,
            ) && final(self)@ == old(self)@,
            old(self)@.baseline is Some && old(self)@.pending is None && (exists|i: int|
                0 <= i < old(self)@.files.len() && (#[trigger] old(self)@.files[i]).path
                    == range@.file) ==> (exists|i: int|
                {
                    &&& 0 <= i < old(self)@.files.len()
                    &&& (#[trigger] old(self)@.files[i]).path == range@.file
                    &&& ({
                        let lines = fresh_in_range(
                            old(self)@.files[i].blanked,
                            range@.start,
                            range@.end,
                        );
                        let post = files_after_blank(old(self)@.files, i, lines);
                        if old(self)@.memo.contains(key_of(post)) {
                            r == Ok::<AttemptStart, EngineError>(AttemptStart::AlreadyTested)
                                && final(self)@ == old(self)@
                        } else {
                            r == Ok::<AttemptStart, EngineError>(AttemptStart::NeedsOracle)
                                && final(self)@.files == post && final(self)@.pending == Some(
                                (i, lines),
                            )
                        }
                    })
                }),
            sum_non_blank(final(self)@.files) <= sum_non_blank(old(self)@.files),
            r == Ok::<AttemptStart, EngineError>(AttemptStart::NeedsOracle)
                ==> !(final(self)@.memo.contains(key_of(final(self)@.files))),
    {
        if self.baseline_result.is_none() {
            return Err(EngineError::MissingBaseline);
        }
        if self.pending.is_some() {
            return Err(EngineError::AttemptInProgress);
        }
        let fi = match self.file_manager.find_index(&range.file) {
            Some(fi) => fi,
            None => {
                return Err(EngineError::UnknownFile);
            },
        };
        let f = self.file_manager.file_at(fi);
        proof {
            assert(f@.wf());
        }
        let total = f.total_lines();
        let end_c = if range.end_line > total {
            total
        } else {
            range.end_line
        };
        let ghost b = old(self)@.files[fi as int].blanked;
        let mut newly: Vec<usize> = Vec::new();
        let mut i: usize = range.start_line;
        proof {
            assert(fresh_in_range(b, range@.start, i as int) =~= Seq::<usize>::empty());
            assert(newly@ =~= fresh_in_range(b, range@.start, i as int));
        }
        while i < end_c
            invariant
                range@.start <= i <= end_c || (i == range@.start && range@.start >= end_c),
                end_c <= b.len(),
                newly@ == fresh_in_range(b, range@.start, i as int),
            decreases end_c - i,
        {
            if !f.is_line_blanked(i) {
                newly.push(i);
            }
            proof {
                assert(newly@ =~= fresh_in_range(b, range@.start, i as int + 1));
            }
            i += 1;
        }
        proof {
            if range@.end > total as int {
                lemma_fresh_clamp(b, range@.start, range@.end);
            }
            assert(newly@ == fresh_in_range(b, range@.start, range@.end));
            lemma_fresh_props(b, range@.start, range@.end);
        }
        let ghost lines = newly@;
        let ghost post = files_after_blank(old(self)@.files, fi as int, lines);
        self.file_manager.blank_in(fi, newly.as_slice());
        proof {
            assert(self@.files =~= post);
            lemma_nb_count_mono(old(self)@.files[fi as int].blanked, post[fi as int].blanked);
            lemma_sum_non_blank_update(
                old(self)@.files,
                post,
                fi as int,
                old(self)@.files.len() as int,
            );
        }
        let key = self.state_key();
        if self.memo_contains(&key) {
            self.file_manager.unblank_in(fi, newly.as_slice());
            proof {
                crate::file_state::lemma_blank_revert(b, lines);
                assert(self@.files =~= old(self)@.files);
                assert(self@ =~= old(self)@);
            }
            return Ok(AttemptStart::AlreadyTested);
        }
        self.pending = Some(PendingChomp { file_index: fi, lines: newly });
        proof {
            assert(self@.files == post);
            assert(self@.pending == Some((fi as int, lines)));
            assert forall|k: int| 0 <= k < lines.len() implies (#[trigger] lines[k])
                < self@.files[fi as int].blanked.len() && self@.files[fi as int].blanked[lines[k] as int] by {
                assert(blank_flags(b, lines)[lines[k] as int] == (b[lines[k] as int]
                    || lines.contains(lines[k])));
            }
            assert(self@.wf());
        }
        Ok(AttemptStart::NeedsOracle)
    }

    /// Settle the attempt begun by `try_blank_range` with the oracle's
    /// outcome, observed after the caller persisted the blanked
    /// renderings. The configuration under test is recorded in the memo
    /// either way. On a bit-exact baseline match the blanking is kept and
    /// `true` returned; otherwise the newly blanked lines are unblanked
    /// again, and the caller persists the restored renderings.
    #[verifier::loop_isolation(false)]
    pub fn finish_blank_range(&mut self, result: RunResult) -> (r: Result<bool, EngineError>)
        requires
            old(self)@.wf(),
        ensures
            final(self)@.wf(),
            final(self)@.command == old(self)@.command,
            final(self)@.baseline == old(self)@.baseline,
            old(self)@.pending is None ==> r == Err::<bool, EngineError>(
                EngineError::NoAttemptPending,
            ) && final(self)@ == old(self)@,
            old(self)@.pending matches Some((fi, lines)) ==> {
                &&& final(self)@.memo == old(self)@.memo.push(key_of(old(self)@.files))
                &&& final(self)@.pending is None
                &&& (r == Ok::<bool, EngineError>(true) <==> old(self)@.baseline == Some(result@))
                &&& (r is Ok)
                &&& (r == Ok::<bool, EngineError>(true) ==> final(self)@.files == old(self)@.files)
                &&& (r == Ok::<bool, EngineError>(false) ==> final(self)@.files
                    == files_after_unblank(old(self)@.files, fi, lines))
            },
    {
        if self.pending.is_none() {
            return Err(EngineError::NoAttemptPending);
        }
        let key = self.state_key();
        let ghost memo_before = self@.memo;
        self.tested_states.push(key);
        proof {
            assert(self@.memo =~= memo_before.push(key_of(old(self)@.files)));
        }
        let matches_baseline = match &self.baseline_result {
            Some(b) => result.is_identical(b),
            None => false,
        };
        let p = self.pending.take();
        match p {
            Some(p) => {
                if matches_baseline {
                    Ok(true)
                } else {
                    proof {
                        assert(old(self)@.pending == Some((p.file_index as int, p.lines@)));
                    }
                    self.file_manager.unblank_in(p.file_index, p.lines.as_slice());
                    proof {
                        assert(self@.files =~= files_after_unblank(
                            old(self)@.files,
                            p.file_index as int,
                            p.lines@,
                        ));
                    }
                    Ok(false)
                }
            },
            None => Err(EngineError::NoAttemptPending),
        }
    }
}

/// Revert correctness: a failed attempt restores every managed file
/// exactly. `try_blank_range` blanks only lines that were not blanked
/// before (`fresh_in_range`), and `finish_blank_range` unblanks that same
/// list on failure, so the file states — and with them the renderings the
/// caller persists to disk — equal what they were at the instant the
/// attempt began.
pub proof fn lemma_failed_attempt_restores(pre: Seq<FileStateView>, fi: int, lines: Seq<usize>)
    requires
        0 <= fi < pre.len(),
        pre[fi].blanked.len() <= usize::MAX,
        forall|j: usize|
            lines.contains(j) ==> j < pre[fi].blanked.len() && !pre[fi].blanked[j as int],
    ensures
        files_after_unblank(files_after_blank(pre, fi, lines), fi, lines) == pre,
        forall|i: int|
            0 <= i < pre.len() ==> (#[trigger] files_after_unblank(
                files_after_blank(pre, fi, lines),
                fi,
                lines,
            )[i]).rendering() == pre[i].rendering(),
    {
    crate::file_state::lemma_blank_revert(pre[fi].blanked, lines);
    let reverted = files_after_unblank(files_after_blank(pre, fi, lines), fi, lines);
    assert(reverted[fi] =~= pre[fi]);
    assert(reverted =~= pre);
}

/// Monotone progress: blanking an attempt's candidate lines can only
/// lower the total number of non-blank lines, and the exact revert of a
/// failed attempt brings the total back to precisely what it was. Chained
/// over any sequence of attempts (`lemma_monotone_chain`), the total after
/// the sequence never exceeds the total before it.
pub proof fn lemma_attempt_monotone(pre: Seq<FileStateView>, fi: int, lines: Seq<usize>)
    requires
        0 <= fi < pre.len(),
        pre[fi].blanked.len() <= usize::MAX,
        forall|j: usize|
            lines.contains(j) ==> j < pre[fi].blanked.len() && !pre[fi].blanked[j as int],
    ensures
        sum_non_blank(files_after_blank(pre, fi, lines)) <= sum_non_blank(pre),
        sum_non_blank(files_after_unblank(files_after_blank(pre, fi, lines), fi, lines))
            == sum_non_blank(pre),
{
    let post = files_after_blank(pre, fi, lines);
    lemma_nb_count_mono(pre[fi].blanked, post[fi].blanked);
    lemma_sum_non_blank_update(pre, post, fi, pre.len() as int);
    lemma_failed_attempt_restores(pre, fi, lines);
}

/// A chain of non-increasing totals ends no higher than it began.
pub proof fn lemma_monotone_chain(totals: Seq<int>)
    requires
        totals.len() > 0,
        forall|i: int| 0 < i < totals.len() ==> #[trigger] totals[i] <= totals[i - 1],
    ensures
        totals.last() <= totals[0],
    decreases totals.len(),
{
    if totals.len() > 1 {
        lemma_monotone_chain(totals.drop_last());
        assert(totals.drop_last()[0] == totals[0]);
        assert(totals.drop_last().last() == totals[totals.len() - 2]);
    }
}

/// Meta-driver termination: every kept attempt that changes the files
/// strictly lowers the total of non-blank lines, a non-negative integer.
/// A chain of strictly decreasing non-negative totals therefore has at
/// most `initial + 1` entries, so only finitely many reducing attempts —
/// and hence finitely many rounds of a driver that stops on a round
/// without a kept attempt — are possible.
pub proof fn lemma_termination_bound(totals: Seq<int>)
    requires
        totals.len() > 0,
        forall|i: int| 0 <= i < totals.len() ==> totals[i] >= 0,
        forall|i: int| 0 < i < totals.len() ==> #[trigger] totals[i] < totals[i - 1],
    ensures
        totals.len() <= totals[0] + 1,
    decreases totals.len(),
{
    if totals.len() > 1 {
        let rest = totals.drop_first();
        assert(forall|i: int| 0 <= i < rest.len() ==> rest[i] == totals[i + 1]);
        lemma_termination_bound(rest);
        assert(rest[0] == totals[1]);
        assert(totals[1] < totals[0]);
    }
}

/// Memo soundness: the oracle only ever runs when `try_blank_range`
/// answers `NeedsOracle`, whose contract says the key of the configuration
/// under test is absent from the memo, and the matching
/// `finish_blank_range` appends exactly that key. Every engine operation
/// leaves the memo equal or appends to it, and appending preserves
/// membership — so a key once recorded keeps blocking retests for the
/// rest of the run, and at most one oracle run happens under any one
/// State Key.
pub proof fn lemma_memo_soundness(
    memo: Seq<Seq<Seq<bool>>>,
    grown: Seq<Seq<Seq<bool>>>,
    key: Seq<Seq<bool>>,
)
    requires
        memo.contains(key),
    ensures
        (memo + grown).contains(key),
{
    let idx = choose|idx: int| 0 <= idx < memo.len() && memo[idx] == key;
    assert((memo + grown)[idx] == key);
}

/// Compare two rows of blanked flags.
#[verifier::loop_isolation(false)]
fn row_eq(x: &Vec<bool>, y: &Vec<bool>) -> (r: bool)
    ensures
        r <==> x@ == y@,
{
    if x.len() != y.len() {
        return false;
    }
    let n = x.len();
    let mut i: usize = 0;
    while i < n
        invariant
            0 <= i <= n,
            n == x@.len() == y@.len(),
            forall|j: int| 0 <= j < i ==> x@[j] == y@[j],
        decreases n - i,
    {
        if x[i] != y[i] {
            return false;
        }
        i += 1;
    }
    proof {
        assert(x@ =~= y@);
    }
    true
}

/// Compare two memo keys.
#[verifier::loop_isolation(false)]
fn key_eq(a: &Vec<Vec<bool>>, b: &Vec<Vec<bool>>) -> (r: bool)
    ensures
        r <==> rows_view(a@) == rows_view(b@),
{
    if a.len() != b.len() {
        proof {
            assert(rows_view(a@).len() != rows_view(b@).len());
        }
        return false;
    }
    let n = a.len();
    let mut i: usize = 0;
    while i < n
        invariant
            0 <= i <= n,
            forall|j: int| 0 <= j < i ==> rows_view(a@)[j] == rows_view(b@)[j],
        decreases n - i,
    {
        if !row_eq(&a[i], &b[i]) {
            proof {
                assert(rows_view(a@)[i as int] != rows_view(b@)[i as int]);
            }
            return false;
        }
        i += 1;
    }
    proof {
        assert(rows_view(a@) =~= rows_view(b@));
    }
    true
}

} // verus!
