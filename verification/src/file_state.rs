//! Per-file model: the lines as first read, and which of them are currently
//! blanked.
//!
//! Content is split at line feeds; a trailing empty segment after a final
//! line feed is kept as an empty line, and a file with empty content has no
//! lines at all. Rendering joins the lines with single line feeds, replacing
//! each blanked line by the empty string, and appends no terminal line feed.

use vstd::prelude::*;
use vstd::string::StrSliceExecFns;
use vstd::string::StringExecFns;

verus! {

/// Index of the first line feed in `s`, or `-1` if there is none.
pub open spec fn find_nl(s: Seq<char>) -> int
    decreases s.len(),
{
    if s.len() == 0 {
        -1
    } else if s[0] == '\n' {
        0
    } else {
        let r = find_nl(s.drop_first());
        if r < 0 {
            -1
        } else {
            r + 1
        }
    }
}

/// The segments of `s` between line feeds, the separators discarded.
/// `s` is never empty here; an empty `s` is handled by `spec_split_lines`.
pub open spec fn split_segs(s: Seq<char>) -> Seq<Seq<char>>
    decreases s.len(),
{
    let i = find_nl(s);
    if i < 0 || i >= s.len() {
        seq![s]
    } else {
        seq![s.take(i)] + split_segs(s.skip(i + 1))
    }
}

/// How file content becomes lines: empty content has zero lines; otherwise
/// the content is split at every line feed, keeping empty segments.
pub open spec fn spec_split_lines(s: Seq<char>) -> Seq<Seq<char>> {
    if s.len() == 0 {
        Seq::empty()
    } else {
        split_segs(s)
    }
}

/// Blanked-flags row of a freshly read file: `n` lines, none blanked.
pub open spec fn no_blanks(n: nat) -> Seq<bool> {
    Seq::new(n, |i: int| false)
}

/// The flags after blanking every in-range index listed in `idxs`.
pub open spec fn blank_flags(blanked: Seq<bool>, idxs: Seq<usize>) -> Seq<bool> {
    Seq::new(blanked.len(), |i: int| blanked[i] || idxs.contains(i as usize))
}

/// The flags after unblanking every index listed in `idxs`.
pub open spec fn unblank_flags(blanked: Seq<bool>, idxs: Seq<usize>) -> Seq<bool> {
    Seq::new(blanked.len(), |i: int| blanked[i] && !idxs.contains(i as usize))
}

/// What one line contributes to the rendering: itself, or nothing if blanked.
pub open spec fn blank_cell(line: Seq<char>, b: bool) -> Seq<char> {
    if b {
        Seq::empty()
    } else {
        line
    }
}

/// The rendering of the first `n` lines, joined by single line feeds.
pub open spec fn render_upto(lines: Seq<Seq<char>>, blanked: Seq<bool>, n: int) -> Seq<char>
    decreases n,
{
    if n <= 0 {
        Seq::empty()
    } else if n == 1 {
        blank_cell(lines[0], blanked[0])
    } else {
        render_upto(lines, blanked, n - 1).push('\n') + blank_cell(lines[n - 1], blanked[n - 1])
    }
}

/// The current rendering of a whole file.
pub open spec fn render(lines: Seq<Seq<char>>, blanked: Seq<bool>) -> Seq<char> {
    render_upto(lines, blanked, lines.len() as int)
}

/// The indices of the lines that are not blanked, in increasing order.
pub open spec fn nb_of(blanked: Seq<bool>) -> Seq<usize>
    decreases blanked.len(),
{
    if blanked.len() == 0 {
        Seq::empty()
    } else if blanked.last() {
        nb_of(blanked.drop_last())
    } else {
        nb_of(blanked.drop_last()).push((blanked.len() - 1) as usize)
    }
}

/// Basic shape of `nb_of`: its entries are in-range non-blanked indices,
/// strictly increasing, and there are never more of them than lines.
pub proof fn lemma_nb_of_props(blanked: Seq<bool>)
    requires
        blanked.len() <= usize::MAX,
    ensures
        nb_of(blanked).len() <= blanked.len(),
        forall|k: int|
            0 <= k < nb_of(blanked).len() ==> nb_of(blanked)[k] < blanked.len() && !blanked[nb_of(
                blanked,
            )[k] as int],
        forall|k1: int, k2: int|
            0 <= k1 < k2 < nb_of(blanked).len() ==> nb_of(blanked)[k1] < nb_of(blanked)[k2],
    decreases blanked.len(),
{
    if blanked.len() > 0 {
        let b0 = blanked.drop_last();
        lemma_nb_of_props(b0);
        let nb0 = nb_of(b0);
        let nb = nb_of(blanked);
        assert(forall|k: int| 0 <= k < b0.len() ==> b0[k] == blanked[k]);
        if !blanked.last() {
            assert(nb == nb0.push((blanked.len() - 1) as usize));
            assert(nb[nb.len() - 1] == (blanked.len() - 1) as usize);
        } else {
            assert(nb == nb0);
        }
        assert forall|k: int|
            0 <= k < nb.len() implies nb[k] < blanked.len() && !blanked[nb[k] as int] by {
            if k < nb0.len() {
                assert(nb[k] == nb0[k]);
                assert(nb0[k] < b0.len());
                assert(b0[nb0[k] as int] == blanked[nb0[k] as int]);
            } else {
                assert(!blanked.last());
                assert(nb[k] == (blanked.len() - 1) as usize);
            }
        }
        assert forall|k1: int, k2: int|
            0 <= k1 < k2 < nb.len() implies nb[k1] < nb[k2] by {
            if k2 < nb0.len() {
                assert(nb[k1] == nb0[k1] && nb[k2] == nb0[k2]);
            } else {
                assert(nb[k1] == nb0[k1]);
                assert(nb0[k1] < b0.len());
            }
        }
    }
}

/// Mathematical image of a `FileState`.
#[verifier::ext_equal]
pub struct FileStateView {
    pub path: Seq<char>,
    pub lines: Seq<Seq<char>>,
    pub blanked: Seq<bool>,
}

impl FileStateView {
    /// Well-formedness: one blanked flag per line.
    pub open spec fn wf(self) -> bool {
        self.blanked.len() == self.lines.len()
    }

    /// Number of lines the file had when first read.
    pub open spec fn total(self) -> int {
        self.lines.len() as int
    }

    /// Number of lines not currently blanked.
    pub open spec fn non_blank(self) -> int {
        nb_of(self.blanked).len() as int
    }

    /// The current rendering of the file.
    pub open spec fn rendering(self) -> Seq<char> {
        render(self.lines, self.blanked)
    }
}

/// One managed file: where it lives, the lines it had when first read, and
/// which of them are currently blanked. The original lines are never
/// mutated after construction.
pub struct FileState {
    path: String,
    original_lines: Vec<String>,
    blanked: Vec<bool>,
}

impl View for FileState {
    type V = FileStateView;

    closed spec fn view(&self) -> FileStateView {
        FileStateView {
            path: self.path@,
            lines: self.original_lines.deep_view(),
            blanked: self.blanked@,
        }
    }
}

/// `find_nl` is exact: a negative answer means no line feed at all, and a
/// non-negative answer points at the first one.
pub proof fn lemma_find_nl(s: Seq<char>)
    ensures
        find_nl(s) < 0 ==> forall|j: int| 0 <= j < s.len() ==> s[j] != '\n',
        find_nl(s) >= 0 ==> find_nl(s) < s.len() && s[find_nl(s)] == '\n' && forall|j: int|
            0 <= j < find_nl(s) ==> s[j] != '\n',
    decreases s.len(),
{
    if s.len() > 0 && s[0] != '\n' {
        let t = s.drop_first();
        lemma_find_nl(t);
        let r = find_nl(t);
        if r < 0 {
            assert forall|j: int| 0 <= j < s.len() implies s[j] != '\n' by {
                if j > 0 {
                    assert(t[j - 1] == s[j]);
                }
            }
        } else {
            assert(find_nl(s) == r + 1);
            assert(s[r + 1] == t[r]);
            assert forall|j: int| 0 <= j < r + 1 implies s[j] != '\n' by {
                if j > 0 {
                    assert(t[j - 1] == s[j]);
                }
            }
        }
    }
}

/// Splitting a suffix whose first line feed sits at position `i` of the
/// whole: one clean segment, then the split of what follows the feed.
proof fn lemma_split_segs_step(s: Seq<char>, start: int, i: int)
    requires
        0 <= start <= i < s.len(),
        s[i] == '\n',
        forall|j: int| start <= j < i ==> s[j] != '\n',
    ensures
        split_segs(s.skip(start)) == seq![s.subrange(start, i)] + split_segs(s.skip(i + 1)),
{
    let t = s.skip(start);
    lemma_find_nl(t);
    assert(t[i - start] == '\n');
    assert(forall|j: int| 0 <= j < i - start ==> t[j] != '\n');
    let f = find_nl(t);
    if f < 0 {
        assert(false);
    }
    if f < i - start {
        assert(t[f] == '\n');
        assert(false);
    }
    if f > i - start {
        assert(t[i - start] != '\n');
        assert(false);
    }
    assert(f == i - start);
    assert(t.take(f) =~= s.subrange(start, i));
    assert(t.skip(f + 1) =~= s.skip(i + 1));
    assert(seq![t.take(f)] =~= seq![s.subrange(start, i)]);
}

/// Splitting a suffix with no line feed at all: a single segment.
proof fn lemma_split_segs_last(s: Seq<char>, start: int)
    requires
        0 <= start <= s.len(),
        forall|j: int| start <= j < s.len() ==> s[j] != '\n',
    ensures
        split_segs(s.skip(start)) == seq![s.subrange(start, s.len() as int)],
{
    let t = s.skip(start);
    lemma_find_nl(t);
    if find_nl(t) >= 0 {
        assert(t[find_nl(t)] == '\n');
        assert(false);
    }
    assert(t =~= s.subrange(start, s.len() as int));
    assert(seq![t] =~= seq![s.subrange(start, s.len() as int)]);
}

/// Whether `x` occurs among the first `k + 1` entries, in terms of the
/// first `k` and the entry at `k`.
pub proof fn lemma_take_contains<A>(s: Seq<A>, k: int, x: A)
    requires
        0 <= k < s.len(),
    ensures
        s.take(k + 1).contains(x) <==> (s.take(k).contains(x) || s[k] == x),
{
    assert(s.take(k + 1) =~= s.take(k).push(s[k]));
    if s.take(k).contains(x) {
        let j = choose|j: int| 0 <= j < s.take(k).len() && s.take(k)[j] == x;
        assert(s.take(k + 1)[j] == x);
    }
    if s[k] == x {
        assert(s.take(k + 1)[k] == x);
    }
    if s.take(k + 1).contains(x) {
        let j = choose|j: int| 0 <= j < s.take(k + 1).len() && #[trigger] s.take(k + 1)[j] == x;
        if j < k {
            assert(s.take(k)[j] == x);
        }
    }
}

impl FileState {
    /// Split `content` into lines at line feeds and start with nothing
    /// blanked. Empty content yields a file with zero lines; a trailing
    /// line feed yields a final empty line.
    pub fn new(path: String, content: String) -> (r: FileState)
        ensures
            r@.path == path@,
            r@.lines == spec_split_lines(content@),
            r@.blanked == no_blanks(spec_split_lines(content@).len()),
            r@.wf(),
    {
        let ghost s = content@;
        let content_str: &str = content.as_str();
        let n = content_str.unicode_len();
        let mut segs: Vec<String> = Vec::new();
        if n > 0 {
            proof {
                assert(s.skip(0) =~= s);
                assert(segs.deep_view() =~= Seq::<Seq<char>>::empty());
                assert(Seq::<Seq<char>>::empty() + split_segs(s) =~= split_segs(s));
            }
            let mut start: usize = 0;
            let mut i: usize = 0;
            while i < n
                invariant
                    0 <= start <= i <= n,
                    n == s.len(),
                    content_str@ == s,
                    segs.deep_view() + split_segs(s.skip(start as int)) == split_segs(s),
                    forall|j: int| start <= j < i ==> s[j] != '\n',
                decreases n - i,
            {
                let c = content_str.get_char(i);
                if c == '\n' {
                    let seg = content_str.substring_char(start, i);
                    let ghost old_segs = segs.deep_view();
                    segs.push(seg.to_owned());
                    proof {
                        lemma_split_segs_step(s, start as int, i as int);
                        assert(segs.deep_view() =~= old_segs.push(s.subrange(
                            start as int,
                            i as int,
                        )));
                        assert(old_segs.push(s.subrange(start as int, i as int)) =~= old_segs
                            + seq![s.subrange(start as int, i as int)]);
                        assert((old_segs + seq![s.subrange(start as int, i as int)])
                            + split_segs(s.skip(i + 1)) =~= old_segs + (seq![
                            s.subrange(start as int, i as int),
                        ] + split_segs(s.skip(i + 1))));
                    }
                    start = i + 1;
                }
                i += 1;
            }
            let last_seg = content_str.substring_char(start, n);
            let ghost old_segs = segs.deep_view();
            segs.push(last_seg.to_owned());
            proof {
                lemma_split_segs_last(s, start as int);
                assert(segs.deep_view() =~= old_segs.push(s.subrange(start as int, n as int)));
                assert(old_segs.push(s.subrange(start as int, n as int)) =~= old_segs + seq![
                    s.subrange(start as int, n as int),
                ]);
                assert(segs.deep_view() == spec_split_lines(s));
            }
        } else {
            proof {
                assert(segs.deep_view() =~= spec_split_lines(s));
            }
        }
        let mut blanked: Vec<bool> = Vec::new();
        let line_count = segs.len();
        let mut k: usize = 0;
        while k < line_count
            invariant
                0 <= k <= line_count,
                blanked@ == no_blanks(k as nat),
            decreases line_count - k,
        {
            blanked.push(false);
            proof {
                assert(blanked@ =~= no_blanks(k as nat + 1));
            }
            k += 1;
        }
        proof {
            assert(blanked@ == no_blanks(segs.deep_view().len()));
        }
        FileState { path, original_lines: segs, blanked }
    }

    /// Where the file lives on disk.
    pub fn path(&self) -> (r: &String)
        ensures
            r@ == self@.path,
    {
        &self.path
    }

    /// Mark every in-range index in `lines` as blanked; out-of-range
    /// indices are silently ignored.
    pub fn blank_lines(&mut self, lines: &[usize])
        requires
            old(self)@.wf(),
        ensures
            final(self)@.path == old(self)@.path,
            final(self)@.lines == old(self)@.lines,
            final(self)@.blanked == blank_flags(old(self)@.blanked, lines@),
            final(self)@.wf(),
    {
        let ghost orig = self@.blanked;
        let mut k: usize = 0;
        while k < lines.len()
            invariant
                0 <= k <= lines@.len(),
                self@.path == old(self)@.path,
                self@.lines == old(self)@.lines,
                orig == old(self)@.blanked,
                self@.blanked == blank_flags(orig, lines@.take(k as int)),
                self@.wf(),
            decreases lines@.len() - k,
        {
            let line = lines[k];
            let ghost before = self@.blanked;
            if line < self.original_lines.len() {
                self.blanked[line] = true;
            }
            proof {
                lemma_take_contains(lines@, k as int, line);
                assert(forall|x: usize| lines@.take(k as int).contains(x) ==> lines@.take(
                    k as int + 1,
                ).contains(x)) by {
                    assert forall|x: usize| lines@.take(k as int).contains(x) implies lines@.take(
                        k as int + 1,
                    ).contains(x) by {
                        lemma_take_contains(lines@, k as int, x);
                    }
                }
                assert(forall|x: usize| lines@.take(k as int + 1).contains(x) ==> (lines@.take(
                    k as int,
                ).contains(x) || x == line)) by {
                    assert forall|x: usize| lines@.take(k as int + 1).contains(x) implies (
                    lines@.take(k as int).contains(x) || x == line) by {
                        lemma_take_contains(lines@, k as int, x);
                    }
                }
                assert(self@.blanked =~= blank_flags(orig, lines@.take(k as int + 1)));
            }
            k += 1;
        }
        proof {
            assert(lines@.take(lines@.len() as int) =~= lines@);
        }
    }

    /// Remove every index in `lines` from the blanked set; indices that are
    /// absent or out of range are ignored.
    pub fn unblank_lines(&mut self, lines: &[usize])
        requires
            old(self)@.wf(),
        ensures
            final(self)@.path == old(self)@.path,
            final(self)@.lines == old(self)@.lines,
            final(self)@.blanked == unblank_flags(old(self)@.blanked, lines@),
            final(self)@.wf(),
    {
        let ghost orig = self@.blanked;
        let mut k: usize = 0;
        while k < lines.len()
            invariant
                0 <= k <= lines@.len(),
                self@.path == old(self)@.path,
                self@.lines == old(self)@.lines,
                orig == old(self)@.blanked,
                self@.blanked == unblank_flags(orig, lines@.take(k as int)),
                self@.wf(),
            decreases lines@.len() - k,
        {
            let line = lines[k];
            if line < self.original_lines.len() {
                self.blanked[line] = false;
            }
            proof {
                lemma_take_contains(lines@, k as int, line);
                assert(forall|x: usize| lines@.take(k as int).contains(x) ==> lines@.take(
                    k as int + 1,
                ).contains(x)) by {
                    assert forall|x: usize| lines@.take(k as int).contains(x) implies lines@.take(
                        k as int + 1,
                    ).contains(x) by {
                        lemma_take_contains(lines@, k as int, x);
                    }
                }
                assert(forall|x: usize| lines@.take(k as int + 1).contains(x) ==> (lines@.take(
                    k as int,
                ).contains(x) || x == line)) by {
                    assert forall|x: usize| lines@.take(k as int + 1).contains(x) implies (
                    lines@.take(k as int).contains(x) || x == line) by {
                        lemma_take_contains(lines@, k as int, x);
                    }
                }
                assert(self@.blanked =~= unblank_flags(orig, lines@.take(k as int + 1)));
            }
            k += 1;
        }
        proof {
            assert(lines@.take(lines@.len() as int) =~= lines@);
        }
    }

    /// The current rendering: original lines in order, blanked ones
    /// replaced by the empty string, joined by single line feeds, with no
    /// terminal line feed.
    pub fn current_content(&self) -> (r: String)
        requires
            self@.wf(),
        ensures
            r@ == self@.rendering(),
    {
        let mut out = String::new();
        let n = self.original_lines.len();
        let mut i: usize = 0;
        while i < n
            invariant
                0 <= i <= n,
                n == self@.lines.len(),
                self@.wf(),
                out@ == render_upto(self@.lines, self@.blanked, i as int),
            decreases n - i,
        {
            let ghost prev = out@;
            if i > 0 {
                out.append("\n");
                proof {
                    reveal_strlit("\n");
                    assert(out@ =~= prev.push('\n'));
                }
            }
            if !self.blanked[i] {
                let line: &String = &self.original_lines[i];
                assert(line@ == self@.lines[i as int]);
                out.append(line.as_str());
            }
            proof {
                assert(out@ =~= render_upto(self@.lines, self@.blanked, i as int + 1));
            }
            i += 1;
        }
        out
    }

    /// The content the file had when first read: all lines, none blanked.
    pub fn original_content(&self) -> (r: String)
        requires
            self@.wf(),
        ensures
            r@ == render(self@.lines, no_blanks(self@.lines.len())),
    {
        let mut out = String::new();
        let n = self.original_lines.len();
        let ghost clean = no_blanks(self@.lines.len());
        let mut i: usize = 0;
        while i < n
            invariant
                0 <= i <= n,
                n == self@.lines.len(),
                self@.wf(),
                clean == no_blanks(self@.lines.len()),
                out@ == render_upto(self@.lines, clean, i as int),
            decreases n - i,
        {
            let ghost prev = out@;
            if i > 0 {
                out.append("\n");
                proof {
                    reveal_strlit("\n");
                    assert(out@ =~= prev.push('\n'));
                }
            }
            let line: &String = &self.original_lines[i];
            assert(line@ == self@.lines[i as int]);
            out.append(line.as_str());
            proof {
                assert(out@ =~= render_upto(self@.lines, clean, i as int + 1));
            }
            i += 1;
        }
        out
    }

    /// How many lines the file had when first read.
    pub fn total_lines(&self) -> (r: usize)
        ensures
            r == self@.total(),
    {
        self.original_lines.len()
    }

    /// Whether a given line is currently blanked.
    pub fn is_line_blanked(&self, line: usize) -> (r: bool)
        requires
            line < self@.blanked.len(),
        ensures
            r == self@.blanked[line as int],
    {
        self.blanked[line]
    }

    /// How many lines are not currently blanked.
    pub fn non_blank_lines(&self) -> (r: usize)
        requires
            self@.wf(),
        ensures
            r == self@.non_blank(),
    {
        let n = self.blanked.len();
        let mut c: usize = 0;
        let mut i: usize = 0;
        while i < n
            invariant
                0 <= i <= n,
                n == self@.blanked.len(),
                c == nb_of(self@.blanked.take(i as int)).len(),
                c <= i,
            decreases n - i,
        {
            if !self.blanked[i] {
                c += 1;
            }
            proof {
                assert(self@.blanked.take(i as int + 1).drop_last() =~= self@.blanked.take(
                    i as int,
                ));
            }
            i += 1;
        }
        proof {
            assert(self@.blanked.take(n as int) =~= self@.blanked);
        }
        c
    }

    /// The indices of the lines that are not currently blanked, in
    /// increasing order.
    pub fn non_blank_line_indices(&self) -> (r: Vec<usize>)
        requires
            self@.wf(),
        ensures
            r@ == nb_of(self@.blanked),
    {
        let n = self.blanked.len();
        let mut out: Vec<usize> = Vec::new();
        let mut i: usize = 0;
        while i < n
            invariant
                0 <= i <= n,
                n == self@.blanked.len(),
                out@ == nb_of(self@.blanked.take(i as int)),
            decreases n - i,
        {
            if !self.blanked[i] {
                out.push(i);
            }
            proof {
                assert(self@.blanked.take(i as int + 1).drop_last() =~= self@.blanked.take(
                    i as int,
                ));
            }
            i += 1;
        }
        proof {
            assert(self@.blanked.take(n as int) =~= self@.blanked);
        }
        out
    }
}

/// The first `n` cells of the rendering depend only on the first `n`
/// lines and flags.
proof fn lemma_render_upto_agrees(
    l1: Seq<Seq<char>>,
    b1: Seq<bool>,
    l2: Seq<Seq<char>>,
    b2: Seq<bool>,
    n: int,
)
    requires
        forall|j: int| 0 <= j < n ==> l1[j] == l2[j] && b1[j] == b2[j],
    ensures
        render_upto(l1, b1, n) == render_upto(l2, b2, n),
    decreases n,
{
    if n > 1 {
        lemma_render_upto_agrees(l1, b1, l2, b2, n - 1);
    }
}

/// Rendering with nothing blanked distributes over putting a first line in
/// front: the line, a line feed, then the rendering of the rest.
proof fn lemma_clean_render_cons(first: Seq<char>, rest: Seq<Seq<char>>)
    requires
        rest.len() >= 1,
    ensures
        render(seq![first] + rest, no_blanks((seq![first] + rest).len())) == first + seq!['\n']
            + render(rest, no_blanks(rest.len())),
    decreases rest.len(),
{
    let all = seq![first] + rest;
    let n = all.len() as int;
    if rest.len() == 1 {
        assert(render_upto(all, no_blanks(all.len()), 1) == first);
        assert(render_upto(all, no_blanks(all.len()), n) =~= first + seq!['\n'] + render(
            rest,
            no_blanks(rest.len()),
        ));
    } else {
        lemma_clean_render_cons(first, rest.drop_last());
        let shorter = seq![first] + rest.drop_last();
        assert(forall|j: int| 0 <= j < n - 1 ==> all[j] == shorter[j]);
        lemma_render_upto_agrees(
            all,
            no_blanks(all.len()),
            shorter,
            no_blanks(shorter.len()),
            n - 1,
        );
        lemma_render_upto_agrees(
            rest,
            no_blanks(rest.len()),
            rest.drop_last(),
            no_blanks(rest.drop_last().len()),
            rest.len() as int - 1,
        );
        assert(render_upto(all, no_blanks(all.len()), n) == render_upto(
            shorter,
            no_blanks(shorter.len()),
            n - 1,
        ).push('\n') + all[n - 1]);
        assert(render(rest, no_blanks(rest.len())) == render_upto(
            rest.drop_last(),
            no_blanks(rest.drop_last().len()),
            rest.len() as int - 1,
        ).push('\n') + rest.last());
        assert((first + seq!['\n'] + render(rest.drop_last(), no_blanks(rest.drop_last().len()))).push(
            '\n',
        ) + rest.last() =~= first + seq!['\n'] + render(rest, no_blanks(rest.len())));
    }
}

/// Splitting any content at line feeds and rendering the segments back
/// with nothing blanked reproduces the content.
proof fn lemma_segs_roundtrip(s: Seq<char>)
    ensures
        render(split_segs(s), no_blanks(split_segs(s).len())) == s,
    decreases s.len(),
{
    lemma_find_nl(s);
    let f = find_nl(s);
    if f < 0 || f >= s.len() {
        assert(render(seq![s], no_blanks(1)) == blank_cell(s, false));
    } else {
        lemma_segs_roundtrip(s.skip(f + 1));
        let rest = split_segs(s.skip(f + 1));
        assert(rest.len() >= 1);
        lemma_clean_render_cons(s.take(f), rest);
        assert(s.take(f) + seq!['\n'] + s.skip(f + 1) =~= s);
    }
}

/// Reading a file and rendering it untouched is the identity: the lines a
/// content string splits into render back to exactly that string. With
/// `lemma_blank_unblank_restores`, blanking and unblanking a fresh file
/// restores the rendering to the content the file was read with.
pub proof fn lemma_split_render_roundtrip(s: Seq<char>)
    ensures
        render(spec_split_lines(s), no_blanks(spec_split_lines(s).len())) == s,
{
    if s.len() == 0 {
        assert(render(spec_split_lines(s), no_blanks(0)) =~= s);
    } else {
        lemma_segs_roundtrip(s);
    }
}

/// Blanking a set of lines and then unblanking the same set restores the
/// rendering to the file's original content, provided every line that was
/// already blanked beforehand belongs to the set. In particular, on a
/// freshly read file this holds for every set of lines.
pub proof fn lemma_blank_unblank_restores(v: FileStateView, idxs: Seq<usize>)
    requires
        v.wf(),
        forall|i: int| 0 <= i < v.blanked.len() && v.blanked[i] ==> idxs.contains(i as usize),
    ensures
        unblank_flags(blank_flags(v.blanked, idxs), idxs) == no_blanks(v.lines.len()),
        render(v.lines, unblank_flags(blank_flags(v.blanked, idxs), idxs)) == render(
            v.lines,
            no_blanks(v.lines.len()),
        ),
{
    assert(unblank_flags(blank_flags(v.blanked, idxs), idxs) =~= no_blanks(v.lines.len()));
}

/// Blanking a set of previously non-blanked lines and then unblanking the
/// same set is the identity on the blanked flags: the exact-revert core of
/// a failed attempt.
pub proof fn lemma_blank_revert(blanked: Seq<bool>, idxs: Seq<usize>)
    requires
        blanked.len() <= usize::MAX,
        forall|j: usize| idxs.contains(j) ==> j < blanked.len() && !blanked[j as int],
    ensures
        unblank_flags(blank_flags(blanked, idxs), idxs) == blanked,
{
    assert forall|i: int|
        0 <= i < blanked.len() implies unblank_flags(blank_flags(blanked, idxs), idxs)[i]
        == blanked[i] by {
        if idxs.contains(i as usize) {
            assert(!blanked[i as usize as int]);
        }
    }
    assert(unblank_flags(blank_flags(blanked, idxs), idxs) =~= blanked);
}

} // verus!
