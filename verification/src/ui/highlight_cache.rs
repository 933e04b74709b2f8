//! Bounded syntax-highlight cache.
//!
//! Highlighting one diff line costs a parse. To keep scrolling smooth, the runs of a line
//! are cached by file and text, and a worker may fill the cache ahead of the viewport. The
//! cache is bounded to a few recently viewed files.
use crate::diff::model::{Changeset, DiffFileV};
use crate::strs;
use crate::strs::same_text;
use crate::ui::highlight;
use crate::ui::highlight::{Highlighter, Run, RunV};
use crate::ui::style::Color;
use vstd::prelude::*;

verus! {

/// How many files on each side of the focused file to highlight ahead, so jumping to an
/// adjacent file hits a warm cache.
pub const PREFETCH_RADIUS: usize = 2;

/// How many files' worth of highlights to keep cached at once: the focused file plus the
/// full prefetch window on both sides.
pub const KEEP_FILES: usize = 5;

/// The files at distance `d` that there are: the next one, then the previous one.
pub open spec fn neighbors(focus: nat, n: nat, d: nat) -> Seq<nat> {
    let next = if focus + d < n {
        seq![focus + d]
    } else {
        Seq::empty()
    };
    if focus >= d {
        next.push((focus - d) as nat)
    } else {
        next
    }
}

/// The focused file, then its neighbors outward. A focus on no file has no window.
pub open spec fn window(focus: nat, n: nat) -> Seq<nat> {
    if focus < n {
        seq![focus] + neighbors(focus, n, 1) + neighbors(focus, n, 2)
    } else {
        Seq::empty()
    }
}

/// File indices as numbers.
pub open spec fn indices(s: Seq<usize>) -> Seq<nat> {
    Seq::new(s.len(), |i: int| s[i] as nat)
}

/// Build the prefetch order for a focused file: the focused file first (it's what is needed
/// now), then alternating nearer neighbors outward (`+1, -1, +2, -2`) so the most likely
/// next jump warms soonest. A focus on no file gives nothing.
pub fn prefetch_order(focus: usize, n: usize) -> (order: Vec<usize>)
    ensures
        indices(order@) == window(focus as nat, n as nat),
        order.len() <= KEEP_FILES,
{
    let mut order: Vec<usize> = Vec::new();
    if focus >= n {
        assert(indices(order@) == Seq::<nat>::empty());
        return order;
    }
    order.push(focus);
    let mut d: usize = 1;
    let ghost first = seq![focus as nat];
    assert(indices(order@) == first);
    while d <= PREFETCH_RADIUS
        invariant
            focus < n,
            1 <= d <= 3,
            order.len() <= 2 * d - 1,
            first == seq![focus as nat],
            indices(order@) == first + (if d > 1 {
                neighbors(focus as nat, n as nat, 1)
            } else {
                Seq::empty()
            }) + (if d > 2 {
                neighbors(focus as nat, n as nat, 2)
            } else {
                Seq::empty()
            }),
        decreases 3 - d,
    {
        let ghost before = indices(order@);
        if d < n && focus < n - d {
            order.push(focus + d);
        }
        if focus >= d {
            order.push(focus - d);
        }
        assert(indices(order@) == before + neighbors(focus as nat, n as nat, d as nat));
        assert(indices(order@) == first + neighbors(focus as nat, n as nat, 1) + (if d > 1 {
            neighbors(focus as nat, n as nat, 2)
        } else {
            Seq::empty()
        }));
        d += 1;
    }
    order
}

/// Whether a file is among some.
pub(crate) fn listed(v: &Vec<usize>, x: usize) -> (r: bool)
    ensures
        r == indices(v@).contains(x as nat),
{
    let ghost s = indices(v@);
    let mut i: usize = 0;
    while i < v.len()
        invariant
            s == indices(v@),
            i <= v.len(),
            forall|k: int| 0 <= k < i ==> #[trigger] s[k] != x as nat,
        decreases v.len() - i,
    {
        if v[i] == x {
            assert(s[i as int] == x as nat);
            return true;
        }
        i += 1;
    }
    false
}

/// The runs of a line of file `fi`. A file that there is not gives one run in the color
/// `plain`.
pub open spec fn line_runs(
    paths: Seq<Seq<char>>,
    fi: nat,
    text: Seq<char>,
    truecolor: bool,
    plain: Color,
) -> Seq<RunV> {
    if fi < paths.len() {
        highlight::runs_in(highlight::syntax_of(paths[fi as int]), text, truecolor)
    } else {
        seq![RunV { color: plain, text }]
    }
}

/// What decides the runs of a line: the paths of the files, whether the colors are 24-bit,
/// and the color of a line of a file that there is not.
pub struct SourceV {
    pub paths: Seq<Seq<char>>,
    pub truecolor: bool,
    pub plain: Color,
}

impl SourceV {
    /// The runs of a line of file `fi`.
    pub open spec fn runs(self, fi: nat, text: Seq<char>) -> Seq<RunV> {
        line_runs(self.paths, fi, text, self.truecolor, self.plain)
    }
}

/// A highlighted line of a file, as [`highlight_line`] makes it.
pub struct Highlighted {
    path: String,
    text: String,
    truecolor: bool,
    runs: Vec<Run>,
}

impl Highlighted {
    /// The path of the file.
    pub closed spec fn path(&self) -> Seq<char> {
        self.path@
    }

    /// The line.
    pub closed spec fn text(&self) -> Seq<char> {
        self.text@
    }

    /// Whether the colors are 24-bit.
    pub closed spec fn truecolor(&self) -> bool {
        self.truecolor
    }

    /// The runs are those of the line in that file's syntax.
    pub closed spec fn wf(&self) -> bool {
        &&& strs::views(self.runs@) == highlight::runs_in(
            highlight::syntax_of(self.path@),
            self.text@,
            self.truecolor,
        )
        &&& strs::concat(highlight::run_texts(strs::views(self.runs@))) == self.text@
    }
}

/// Highlight a line of the file at `path`.
pub fn highlight_line(hl: &Highlighter, path: &str, text: &str) -> (r: Highlighted)
    ensures
        r.wf(),
        r.path() == path@,
        r.text() == text@,
        r.truecolor() == hl.truecolor(),
{
    let syntax = hl.syntax_for(path);
    Highlighted {
        path: strs::owned(path),
        text: strs::owned(text),
        truecolor: hl.is_truecolor(),
        runs: hl.line(&syntax, text),
    }
}

struct CachedLine {
    text: String,
    runs: Vec<Run>,
}

struct CachedFile {
    idx: usize,
    lines: Vec<CachedLine>,
}

/// The cached runs, the highlighter for a miss, and the file last asked for.
pub struct HighlightCache {
    paths: Vec<String>,
    highlighter: Highlighter,
    truecolor: bool,
    plain: Color,
    files: Vec<CachedFile>,
    warmed_file: Option<usize>,
}

impl HighlightCache {
    /// The display paths of the files.
    pub closed spec fn paths(&self) -> Seq<Seq<char>> {
        strs::views(self.paths@)
    }

    /// Whether the colors are 24-bit.
    pub closed spec fn truecolor(&self) -> bool {
        self.truecolor
    }

    /// The color of a line of a file that there is not.
    pub closed spec fn plain(&self) -> Color {
        self.plain
    }

    /// The file that was last asked for.
    pub closed spec fn warmed(&self) -> Option<usize> {
        self.warmed_file
    }

    /// The indices of the files that have lines in the cache.
    pub closed spec fn cached_files(&self) -> Seq<nat> {
        Seq::new(self.files@.len(), |i: int| self.files@[i].idx as nat)
    }

    /// Whether a line of file `fi` is in the cache.
    pub closed spec fn has(&self, fi: nat, text: Seq<char>) -> bool {
        exists|i: int, j: int|
            0 <= i < self.files@.len() && 0 <= j < self.files@[i].lines@.len()
                && self.files@[i].idx == fi && (#[trigger] self.files@[i].lines@[j]).text@ == text
    }

    /// Nothing is in the cache that was not, but that line of file `fi`.
    pub open spec fn gained(&self, o: &HighlightCache, fi: nat, text: Seq<char>) -> bool {
        forall|f: nat, t: Seq<char>| #[trigger]
            self.has(f, t) <==> o.has(f, t) || (f == fi && t == text)
    }

    spec fn line_ok(&self, fi: nat, l: CachedLine) -> bool {
        &&& strs::views(l.runs@) == self.expected(fi, l.text@)
        &&& strs::concat(highlight::run_texts(strs::views(l.runs@))) == l.text@
    }

    spec fn file_ok(&self, f: CachedFile) -> bool {
        forall|j: int| 0 <= j < f.lines@.len() ==> self.line_ok(
            f.idx as nat,
            #[trigger] f.lines@[j],
        )
    }

    /// Every cached line has the runs that highlighting it gives, and no file is in the cache
    /// twice.
    pub closed spec fn wf(&self) -> bool {
        &&& self.highlighter.truecolor() == self.truecolor
        &&& forall|i: int| 0 <= i < self.files@.len() ==> self.file_ok(#[trigger] self.files@[i])
        &&& forall|i: int, j: int|
            0 <= i < j < self.files@.len() ==> #[trigger] self.files@[i].idx
                != #[trigger] self.files@[j].idx
    }

    /// The runs of a line of file `fi`.
    pub open spec fn expected(&self, fi: nat, text: Seq<char>) -> Seq<RunV> {
        line_runs(self.paths(), fi, text, self.truecolor(), self.plain())
    }

    /// What decides the runs of a line.
    pub open spec fn source(&self) -> SourceV {
        SourceV { paths: self.paths(), truecolor: self.truecolor(), plain: self.plain() }
    }

    /// Nothing but what is cached differs.
    pub open spec fn same_source(&self, o: &HighlightCache) -> bool {
        &&& self.paths() == o.paths()
        &&& self.truecolor() == o.truecolor()
        &&& self.plain() == o.plain()
    }

    /// An empty cache for the files of a changeset.
    pub fn new(changeset: &Changeset, truecolor: bool, plain: Color) -> (r: HighlightCache)
        ensures
            r.wf(),
            r.paths() == display_paths(changeset@),
            r.truecolor() == truecolor,
            r.plain() == plain,
            r.warmed() is None,
            r.cached_files() == Seq::<nat>::empty(),
    {
        broadcast use strs::lemma_views_push;

        let mut paths: Vec<String> = Vec::new();
        let mut i: usize = 0;
        while i < changeset.files.len()
            invariant
                0 <= i <= changeset.files.len(),
                strs::views(paths@) == display_paths(changeset@).take(i as int),
            decreases changeset.files.len() - i,
        {
            let f = &changeset.files[i];
            assert(f@ == changeset@[i as int]);
            paths.push(strs::owned(f.display_path()));
            assert(display_paths(changeset@).take(i + 1) == display_paths(changeset@).take(
                i as int,
            ).push(f@.display_path()));
            i += 1;
        }
        assert(display_paths(changeset@).take(i as int) == display_paths(changeset@));
        let r = HighlightCache {
            paths,
            highlighter: Highlighter::new(truecolor),
            truecolor,
            plain,
            files: Vec::new(),
            warmed_file: None,
        };
        assert(r.cached_files() =~= Seq::<nat>::empty());
        r
    }

    fn position(&self, fi: usize) -> (r: Option<usize>)
        ensures
            match r {
                Some(i) => i < self.files@.len() && self.files@[i as int].idx == fi,
                None => forall|i: int| 0 <= i < self.files@.len() ==> #[trigger] self.files@[i].idx
                    != fi,
            },
    {
        let mut i: usize = 0;
        while i < self.files.len()
            invariant
                0 <= i <= self.files.len(),
                forall|k: int| 0 <= k < i ==> #[trigger] self.files@[k].idx != fi,
            decreases self.files.len() - i,
        {
            if self.files[i].idx == fi {
                return Some(i);
            }
            i += 1;
        }
        None
    }

    /// The cached runs of a line.
    fn lookup(&self, fi: usize, text: &str) -> (r: Option<Vec<Run>>)
        requires
            self.wf(),
        ensures
            r matches Some(v) ==> strs::views(v@) == self.expected(fi as nat, text@)
                && strs::concat(highlight::run_texts(strs::views(v@))) == text@,
            r is Some <==> self.has(fi as nat, text@),
    {
        match self.position(fi) {
            Some(i) => {
                let f = &self.files[i];
                let mut j: usize = 0;
                while j < f.lines.len()
                    invariant
                        0 <= j <= f.lines.len(),
                        self.file_ok(*f),
                        f.idx == fi,
                        i < self.files@.len(),
                        *f == self.files@[i as int],
                        forall|k: int|
                            0 <= k < j ==> (#[trigger] self.files@[i as int].lines@[k]).text@
                                != text@,
                    decreases f.lines.len() - j,
                {
                    if same_text(f.lines[j].text.as_str(), text) {
                        assert(self.line_ok(f.idx as nat, f.lines@[j as int]));
                        assert(self.files@[i as int].lines@[j as int].text@ == text@);
                        return Some(clone_runs(&f.lines[j].runs));
                    }
                    j += 1;
                }
                None
            },
            None => None,
        }
    }

    /// Keep the runs of a line, unless the line is cached already.
    fn insert(&mut self, fi: usize, line: CachedLine)
        requires
            old(self).wf(),
            old(self).line_ok(fi as nat, line),
        ensures
            final(self).wf(),
            final(self).same_source(old(self)),
            final(self).warmed() == old(self).warmed(),
            final(self).gained(old(self), fi as nat, line.text@),
    {
        let known = self.lookup(fi, line.text.as_str());
        if known.is_some() {
            return ;
        }
        let ghost before = *self;
        match self.position(fi) {
            Some(i) => {
                self.files[i].lines.push(line);
                assert forall|k: int| 0 <= k < self.files@.len() implies self.file_ok(
                    #[trigger] self.files@[k],
                ) by {
                    assert(before.file_ok(before.files@[k]));
                    if k == i {
                        assert forall|j: int| 0 <= j < self.files@[k].lines@.len() implies self.line_ok(
                            fi as nat,
                            #[trigger] self.files@[k].lines@[j],
                        ) by {
                            if j < before.files@[k].lines@.len() {
                                assert(before.line_ok(fi as nat, before.files@[k].lines@[j]));
                            }
                        }
                    } else {
                        assert(self.files@[k] == before.files@[k]);
                        assert forall|j: int| 0 <= j < self.files@[k].lines@.len() implies self.line_ok(
                            self.files@[k].idx as nat,
                            #[trigger] self.files@[k].lines@[j],
                        ) by {
                            assert(before.line_ok(
                                before.files@[k].idx as nat,
                                before.files@[k].lines@[j],
                            ));
                        }
                    }
                }
                assert forall|a: int, b: int| 0 <= a < b < self.files@.len() implies #[trigger] self.files@[a].idx
                    != #[trigger] self.files@[b].idx by {
                    assert(before.files@[a].idx != before.files@[b].idx);
                }
                assert forall|f: nat, t: Seq<char>| #[trigger]
                    self.has(f, t) <==> before.has(f, t) || (f == fi && t == line.text@) by {
                    if before.has(f, t) {
                        let (a, b) = choose|a: int, b: int|
                            0 <= a < before.files@.len() && 0 <= b < before.files@[a].lines@.len()
                                && before.files@[a].idx == f && (
                            #[trigger] before.files@[a].lines@[b]).text@ == t;
                        assert(self.files@[a].lines@[b] == before.files@[a].lines@[b]);
                    }
                    if self.has(f, t) {
                        let (a, b) = choose|a: int, b: int|
                            0 <= a < self.files@.len() && 0 <= b < self.files@[a].lines@.len()
                                && self.files@[a].idx == f && (
                            #[trigger] self.files@[a].lines@[b]).text@ == t;
                        if b < before.files@[a].lines@.len() {
                            assert(self.files@[a].lines@[b] == before.files@[a].lines@[b]);
                        }
                    }
                    let n = before.files@[i as int].lines@.len() as int;
                    assert(self.files@[i as int].lines@[n].text@ == line.text@);
                }
            },
            None => {
                let mut lines: Vec<CachedLine> = Vec::new();
                lines.push(line);
                self.files.push(CachedFile { idx: fi, lines });
                assert forall|k: int| 0 <= k < self.files@.len() implies self.file_ok(
                    #[trigger] self.files@[k],
                ) by {
                    if k < before.files@.len() {
                        assert(before.file_ok(before.files@[k]));
                        assert forall|j: int| 0 <= j < self.files@[k].lines@.len() implies self.line_ok(
                            self.files@[k].idx as nat,
                            #[trigger] self.files@[k].lines@[j],
                        ) by {
                            assert(before.line_ok(
                                before.files@[k].idx as nat,
                                before.files@[k].lines@[j],
                            ));
                        }
                    } else {
                        assert(self.line_ok(fi as nat, line));
                    }
                }
                assert forall|f: nat, t: Seq<char>| #[trigger]
                    self.has(f, t) <==> before.has(f, t) || (f == fi && t == line.text@) by {
                    let n = before.files@.len() as int;
                    assert(self.files@[n].lines@[0].text@ == line.text@);
                    if before.has(f, t) {
                        let (a, b) = choose|a: int, b: int|
                            0 <= a < before.files@.len() && 0 <= b < before.files@[a].lines@.len()
                                && before.files@[a].idx == f && (
                            #[trigger] before.files@[a].lines@[b]).text@ == t;
                        assert(self.files@[a].lines@[b].text@ == t);
                    }
                    if self.has(f, t) {
                        let (a, b) = choose|a: int, b: int|
                            0 <= a < self.files@.len() && 0 <= b < self.files@[a].lines@.len()
                                && self.files@[a].idx == f && (
                            #[trigger] self.files@[a].lines@[b]).text@ == t;
                        if a < n {
                            assert(before.files@[a].lines@[b].text@ == t);
                        }
                    }
                }
            },
        }
    }

    /// Highlighted runs for a line, cached by file and text. A miss is highlighted at once,
    /// so the current frame is correct.
    pub fn runs(&mut self, file_idx: usize, text: &str) -> (r: Vec<Run>)
        requires
            old(self).wf(),
        ensures
            final(self).wf(),
            final(self).same_source(old(self)),
            final(self).warmed() == old(self).warmed(),
            final(self).gained(old(self), file_idx as nat, text@),
            strs::views(r@) == old(self).expected(file_idx as nat, text@),
            strs::concat(highlight::run_texts(strs::views(r@))) == text@,
    {
        if let Some(v) = self.lookup(file_idx, text) {
            return v;
        }
        let runs = if file_idx < self.paths.len() {
            assert(self.paths@[file_idx as int]@ == self.paths()[file_idx as int]);
            let syntax = self.highlighter.syntax_for(self.paths[file_idx].as_str());
            self.highlighter.line(&syntax, text)
        } else {
            let mut one: Vec<Run> = Vec::new();
            one.push(Run { color: self.plain, text: strs::owned(text) });
            assert(strs::views(one@) == seq![RunV { color: self.plain, text: text@ }]);
            proof {
                let rv = strs::views(one@);
                assert(highlight::run_texts(rv) =~= Seq::<Seq<char>>::empty().push(text@));
                strs::lemma_concat_push(Seq::<Seq<char>>::empty(), text@);
                assert(Seq::<char>::empty() + text@ == text@);
            }
            one
        };
        let kept = clone_runs(&runs);
        self.insert(file_idx, CachedLine { text: strs::owned(text), runs: kept });
        runs
    }

    /// Whether a line of a file is wanted from a worker: the file lies in the prefetch window of
    /// the file that was turned to last, and the line was highlighted for it.
    pub open spec fn wants(&self, file_idx: nat, h: Highlighted) -> bool {
        &&& self.warmed() matches Some(w) && window(w as nat, self.paths().len()).contains(
            file_idx,
        )
        &&& file_idx < self.paths().len()
        &&& self.paths()[file_idx as int] == h.path()
        &&& self.truecolor() == h.truecolor()
    }

    /// Take over a line that a worker has highlighted, unless it is cached already, not of that
    /// file, or of a file outside of the prefetch window.
    pub fn offer(&mut self, file_idx: usize, h: Highlighted)
        requires
            old(self).wf(),
            h.wf(),
        ensures
            final(self).wf(),
            final(self).same_source(old(self)),
            final(self).warmed() == old(self).warmed(),
            old(self).wants(file_idx as nat, h) ==> final(self).gained(
                old(self),
                file_idx as nat,
                h.text(),
            ),
            !old(self).wants(file_idx as nat, h) ==> *final(self) == *old(self),
    {
        if file_idx < self.paths.len() && h.truecolor == self.truecolor {
            assert(self.paths@[file_idx as int]@ == self.paths()[file_idx as int]);
            if let Some(w) = self.warmed_file {
                let around = prefetch_order(w, self.paths.len());
                if listed(&around, file_idx) && same_text(
                    self.paths[file_idx].as_str(),
                    h.path.as_str(),
                ) {
                    self.insert(file_idx, CachedLine { text: h.text, runs: h.runs });
                }
            }
        }
    }

    /// Turn to file `file_idx`. Returns whether a worker should highlight it ahead: not where
    /// it was asked for already. What lies outside the prefetch window leaves the cache.
    pub fn warm(&mut self, file_idx: usize) -> (r: bool)
        requires
            old(self).wf(),
        ensures
            final(self).wf(),
            final(self).same_source(old(self)),
            final(self).warmed() == Some(file_idx),
            r == (old(self).warmed() != Some(file_idx)),
            !r ==> final(self).cached_files() == old(self).cached_files(),
            r ==> final(self).cached_files() == kept(
                old(self).cached_files(),
                window(file_idx as nat, old(self).paths().len()),
                old(self).cached_files().len(),
            ),
    {
        if let Some(f) = self.warmed_file {
            if f == file_idx {
                return false;
            }
        }
        self.warmed_file = Some(file_idx);
        self.evict_outside_prefetch_window(file_idx);
        true
    }

    /// Evict cached highlights for files outside the current prefetch window, so the cache
    /// stays bounded. The retained set is exactly what a worker warms for `file_idx`.
    fn evict_outside_prefetch_window(&mut self, file_idx: usize)
        requires
            old(self).wf(),
        ensures
            final(self).wf(),
            final(self).same_source(old(self)),
            final(self).warmed() == old(self).warmed(),
            final(self).cached_files() == kept(
                old(self).cached_files(),
                window(file_idx as nat, old(self).paths().len()),
                old(self).cached_files().len(),
            ),
    {
        let keep = prefetch_order(file_idx, self.paths.len());
        let ghost w = indices(keep@);
        let ghost before = *self;
        let ghost all = self.cached_files();
        let n: usize = self.files.len();
        let mut done: usize = 0;
        let mut i: usize = 0;
        assert(all.take(0) == Seq::<nat>::empty());
        while done < n
            invariant
                self.wf(),
                self.same_source(&before),
                self.warmed() == before.warmed(),
                w == indices(keep@),
                all == before.cached_files(),
                n == all.len(),
                0 <= i <= done <= n,
                self.files.len() == i + (n - done),
                self.cached_files() == kept(all, w, done as nat) + all.skip(done as int),
                kept(all, w, done as nat).len() == i,
            decreases n - done,
        {
            let fi: usize = self.files[i].idx;
            assert(self.cached_files()[i as int] == all[done as int]);
            let stays = listed(&keep, fi);
            let ghost cur = self.cached_files();
            let ghost old_self = *self;
            assert(all.skip(done as int) == seq![all[done as int]] + all.skip(done + 1));
            if stays {
                i += 1;
                assert(cur == kept(all, w, done as nat + 1) + all.skip(done + 1));
            } else {
                self.files.remove(i);
                assert(self.cached_files() =~= cur.remove(i as int));
                assert(cur.remove(i as int) =~= kept(all, w, done as nat) + all.skip(done + 1));
                assert forall|k: int| 0 <= k < self.files@.len() implies self.file_ok(
                    #[trigger] self.files@[k],
                ) by {
                    let k0 = if k < i {
                        k
                    } else {
                        k + 1
                    };
                    assert(old_self.file_ok(old_self.files@[k0]));
                    assert(self.files@[k] == old_self.files@[k0]);
                    assert forall|j: int| 0 <= j < self.files@[k].lines@.len() implies self.line_ok(
                        self.files@[k].idx as nat,
                        #[trigger] self.files@[k].lines@[j],
                    ) by {
                        assert(old_self.line_ok(
                            old_self.files@[k0].idx as nat,
                            old_self.files@[k0].lines@[j],
                        ));
                    }
                }
                assert forall|a: int, b: int| 0 <= a < b < self.files@.len() implies #[trigger] self.files@[a].idx
                    != #[trigger] self.files@[b].idx by {
                    let a0 = if a < i { a } else { a + 1 };
                    let b0 = if b < i { b } else { b + 1 };
                    assert(old_self.files@[a0].idx != old_self.files@[b0].idx);
                }
            }
            done += 1;
        }
        assert(all.skip(n as int) =~= Seq::<nat>::empty());
        assert(self.cached_files() =~= kept(all, w, n as nat));
    }

    /// How many files have lines in the cache.
    pub fn cached_len(&self) -> (r: usize)
        ensures
            r == self.cached_files().len(),
    {
        self.files.len()
    }
}

/// The display paths of files.
pub open spec fn display_paths(files: Seq<DiffFileV>) -> Seq<Seq<char>> {
    Seq::new(files.len(), |i: int| files[i].display_path())
}

/// Those of the first `n` files that lie in the window.
pub open spec fn kept(files: Seq<nat>, w: Seq<nat>, n: nat) -> Seq<nat>
    decreases n,
{
    if n == 0 {
        Seq::empty()
    } else {
        let before = kept(files, w, (n - 1) as nat);
        if w.contains(files[n - 1]) {
            before.push(files[n - 1])
        } else {
            before
        }
    }
}

/// What stays when the cache turns to a file lies in that file's prefetch window.
pub proof fn law_kept_in_window(files: Seq<nat>, w: Seq<nat>, n: nat)
    requires
        n <= files.len(),
    ensures
        forall|i: int| 0 <= i < kept(files, w, n).len() ==> w.contains(#[trigger] kept(files, w, n)[i]),
    decreases n,
{
    if n > 0 {
        law_kept_in_window(files, w, (n - 1) as nat);
        let before = kept(files, w, (n - 1) as nat);
        let k = kept(files, w, n);
        assert forall|i: int| 0 <= i < k.len() implies w.contains(#[trigger] k[i]) by {
            if i < before.len() {
                assert(k[i] == before[i]);
            }
        }
    }
}

fn clone_runs(runs: &Vec<Run>) -> (r: Vec<Run>)
    ensures
        strs::views(r@) == strs::views(runs@),
{
    broadcast use strs::lemma_views_push;

    let mut r: Vec<Run> = Vec::new();
    let mut i: usize = 0;
    while i < runs.len()
        invariant
            0 <= i <= runs.len(),
            strs::views(r@) == strs::views(runs@).take(i as int),
        decreases runs.len() - i,
    {
        r.push(runs[i].clone());
        assert(strs::views(runs@).take(i + 1) == strs::views(runs@).take(i as int).push(
            runs@[i as int]@,
        ));
        i += 1;
    }
    assert(strs::views(runs@).take(i as int) == strs::views(runs@));
    r
}

} // verus!
