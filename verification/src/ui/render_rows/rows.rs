//! The unified (stacked) rows of a changeset.
use super::text::sanitize_into;
use super::threads::{
    comment_rows_for, last_anchor_lines, last_anchor_lines_for, new_thread_composer,
    orphan_thread_rows, threads_on, Anchored, AnchoredV, Build, BuildV, CommentLine, CommentLineV,
    ComposerKindV, ComposerLine, ComposerSpec, ComposerV, Injected, InjectedV,
};
use crate::comments::model::{CommentStore, ThreadV};
use crate::diff::model::{
    Changeset, DiffFile, DiffFileV, DiffLine, DiffLineV, Hunk, HunkV, LineKind, Side,
};
use crate::strs;
use crate::strs::push_dec;
use crate::ui::render_rows::text;
use crate::ui::render_rows::threads;
use vstd::prelude::*;

verus! {

#[derive(Debug)]
pub enum RowKind {
    FileHeader,
    HunkHeader,
    Line { kind: LineKind, old_line: Option<u32>, new_line: Option<u32> },
    /// An inline-expanded comment-thread line (non-selectable).
    Comment(CommentLine),
    /// A line of the live inline composer box (non-selectable).
    Composer(ComposerLine),
}

#[derive(Debug)]
pub struct Row {
    pub file_idx: usize,
    pub kind: RowKind,
    pub text: String,
}

/// What a [`RowKind`] says.
#[verifier::ext_equal]
pub enum RowKindV {
    FileHeader,
    HunkHeader,
    Line { kind: LineKind, old_line: Option<u32>, new_line: Option<u32> },
    Comment(CommentLineV),
    Composer(ComposerKindV),
}

/// What a [`Row`] says.
#[verifier::ext_equal]
pub struct RowV {
    pub file_idx: nat,
    pub kind: RowKindV,
    pub text: Seq<char>,
}

impl View for RowKind {
    type V = RowKindV;

    open spec fn view(&self) -> RowKindV {
        match *self {
            RowKind::FileHeader => RowKindV::FileHeader,
            RowKind::HunkHeader => RowKindV::HunkHeader,
            RowKind::Line { kind, old_line, new_line } => RowKindV::Line {
                kind,
                old_line,
                new_line,
            },
            RowKind::Comment(c) => RowKindV::Comment(c@),
            RowKind::Composer(c) => RowKindV::Composer(c@),
        }
    }
}

impl View for Row {
    type V = RowV;

    open spec fn view(&self) -> RowV {
        RowV {
            file_idx: self.file_idx as nat,
            kind: self.kind@,
            text: self.text@,
        }
    }
}

/// The side and number under which a diff line is commented on: a deletion on the old side,
/// any other line on the new.
pub open spec fn line_anchor(kind: LineKind, old_line: Option<u32>, new_line: Option<u32>) -> Option<
    (Side, u32),
> {
    match kind {
        LineKind::Deletion => match old_line {
            Some(l) => Some((Side::Old, l)),
            None => None,
        },
        _ => match new_line {
            Some(l) => Some((Side::New, l)),
            None => None,
        },
    }
}

/// The comment anchor of a row.
pub open spec fn row_anchor(r: RowV) -> Option<(Side, u32)> {
    match r.kind {
        RowKindV::Line { kind, old_line, new_line } => line_anchor(kind, old_line, new_line),
        _ => None,
    }
}

fn anchor_of_line(kind: LineKind, old_line: Option<u32>, new_line: Option<u32>) -> (r: Option<
    (Side, u32),
>)
    ensures
        r == line_anchor(kind, old_line, new_line),
{
    match kind {
        LineKind::Deletion => match old_line {
            Some(l) => Some((Side::Old, l)),
            None => None,
        },
        _ => match new_line {
            Some(l) => Some((Side::New, l)),
            None => None,
        },
    }
}

impl Row {
    /// The comment anchor (side, line) for a code line, if any.
    pub fn anchor(&self) -> (r: Option<(Side, u32)>)
        ensures
            r == row_anchor(self@),
    {
        match &self.kind {
            RowKind::Line { kind, old_line, new_line } => anchor_of_line(
                *kind,
                *old_line,
                *new_line,
            ),
            _ => None,
        }
    }

    /// Whether the row is a code line.
    pub fn is_selectable(&self) -> (r: bool)
        ensures
            r == (self@.kind is Line),
    {
        match &self.kind {
            RowKind::Line { .. } => true,
            _ => false,
        }
    }
}

/// `@@ -old_start,old_count +new_start,new_count @@`, and the section behind a space.
pub open spec fn header_text(h: HunkV) -> Seq<char> {
    let ranges = "@@ -"@ + strs::dec(h.old_start as nat) + ","@ + strs::dec(h.old_count as nat)
        + " +"@ + strs::dec(h.new_start as nat) + ","@ + strs::dec(h.new_count as nat) + " @@"@;
    match h.section {
        Some(s) => ranges + " "@ + s,
        None => ranges,
    }
}

/// The header line of a hunk.
pub fn hunk_header(hunk: &Hunk) -> (r: String)
    ensures
        r@ == header_text(hunk@),
{
    let mut s = strs::owned("@@ -");
    push_dec(&mut s, hunk.old_start as u64);
    s.append(",");
    push_dec(&mut s, hunk.old_count as u64);
    s.append(" +");
    push_dec(&mut s, hunk.new_start as u64);
    s.append(",");
    push_dec(&mut s, hunk.new_count as u64);
    s.append(" @@");
    if let Some(section) = &hunk.section {
        s.append(" ");
        s.append(section.as_str());
    }
    s
}

/// Rows, and what is out after them: the ids of the threads, and whether the composer is.
#[verifier::ext_equal]
pub struct Out {
    pub rows: Seq<RowV>,
    pub ids: Seq<Seq<char>>,
    pub composed: bool,
}

/// The sign in front of a line.
pub open spec fn sign(kind: LineKind) -> char {
    match kind {
        LineKind::Addition => '+',
        LineKind::Deletion => '-',
        LineKind::Context => ' ',
    }
}

/// A header row.
pub open spec fn plain_row(fi: nat, kind: RowKindV, text: Seq<char>) -> RowV {
    RowV { file_idx: fi, kind, text }
}

/// The row of a diff line.
pub open spec fn code_row(fi: nat, l: DiffLineV) -> RowV {
    RowV {
        file_idx: fi,
        kind: RowKindV::Line { kind: l.kind, old_line: l.old_line, new_line: l.new_line },
        text: seq![sign(l.kind)] + text::sanitized(l.text),
    }
}

/// The row of an injected line.
pub open spec fn injected_row(fi: nat, i: InjectedV) -> RowV {
    RowV {
        file_idx: fi,
        kind: match i {
            InjectedV::Comment(c) => RowKindV::Comment(c),
            InjectedV::Composer(c) => RowKindV::Composer(c),
        },
        text: Seq::empty(),
    }
}

/// The rows of injected lines.
pub open spec fn injected_rows(fi: nat, s: Seq<(Side, InjectedV)>) -> Seq<RowV> {
    Seq::new(s.len(), |i: int| injected_row(fi, s[i].1))
}

/// The rows of a composer box.
pub open spec fn box_rows(fi: nat, s: Seq<ComposerKindV>) -> Seq<RowV> {
    Seq::new(s.len(), |i: int| injected_row(fi, InjectedV::Composer(s[i])))
}

/// The rows of a diff line: the line, the threads anchored behind it, and the composer of a
/// new thread on it.
pub open spec fn line_out(
    b: BuildV,
    fi: nat,
    path: Seq<char>,
    l: DiffLineV,
    ids: Seq<Seq<char>>,
    composed: bool,
) -> Out {
    let row = seq![code_row(fi, l)];
    match line_anchor(l.kind, l.old_line, l.new_line) {
        Some((side, n)) => {
            let (inj, out) = threads::inject(b, path, Some(seq![(side, n)]), ids);
            Out {
                rows: row + injected_rows(fi, inj) + box_rows(
                    fi,
                    threads::new_thread_box(b.composer, composed, fi, side, n, b.width),
                ),
                ids: out,
                composed: composed || threads::composes_at(b.composer, fi, side, n),
            }
        },
        None => Out { rows: row, ids, composed },
    }
}

/// The rows of the first `n` lines of a hunk.
pub open spec fn lines_out(
    b: BuildV,
    fi: nat,
    path: Seq<char>,
    lines: Seq<DiffLineV>,
    n: nat,
    ids: Seq<Seq<char>>,
    composed: bool,
) -> Out
    decreases n,
{
    if n == 0 {
        Out { rows: Seq::empty(), ids, composed }
    } else {
        let before = lines_out(b, fi, path, lines, (n - 1) as nat, ids, composed);
        let o = line_out(b, fi, path, lines[n - 1], before.ids, before.composed);
        Out { rows: before.rows + o.rows, ..o }
    }
}

/// The rows of the first `n` hunks.
pub open spec fn hunks_out(
    b: BuildV,
    fi: nat,
    path: Seq<char>,
    hunks: Seq<HunkV>,
    n: nat,
    ids: Seq<Seq<char>>,
    composed: bool,
) -> Out
    decreases n,
{
    if n == 0 {
        Out { rows: Seq::empty(), ids, composed }
    } else {
        let before = hunks_out(b, fi, path, hunks, (n - 1) as nat, ids, composed);
        let h = hunks[n - 1];
        let o = lines_out(b, fi, path, h.lines, h.lines.len(), before.ids, before.composed);
        Out {
            rows: before.rows.push(plain_row(fi, RowKindV::HunkHeader, header_text(h))) + o.rows,
            ..o
        }
    }
}

/// The rows of a file's hunks. A binary file has a notice in their place.
pub open spec fn body_out(
    b: BuildV,
    fi: nat,
    file: DiffFileV,
    ids: Seq<Seq<char>>,
    composed: bool,
) -> Out {
    if file.is_binary {
        Out {
            rows: seq![plain_row(fi, RowKindV::HunkHeader, "Binary file"@)],
            ids,
            composed,
        }
    } else {
        hunks_out(b, fi, file.display_path(), file.hunks, file.hunks.len(), ids, composed)
    }
}

/// The rows of a file: its header, its hunks or the notice, and the threads on it that no line
/// showed.
pub open spec fn file_out(
    b: BuildV,
    fi: nat,
    file: DiffFileV,
    ids: Seq<Seq<char>>,
    composed: bool,
) -> Out {
    let path = file.display_path();
    let head = plain_row(fi, RowKindV::FileHeader, path);
    let o = body_out(b, fi, file, ids, composed);
    let (inj, out) = threads::inject(b, path, None, o.ids);
    Out { rows: seq![head] + o.rows + injected_rows(fi, inj), ids: out, composed: o.composed }
}

/// The rows of the first `n` files, or of only one of them.
pub open spec fn files_out(b: BuildV, files: Seq<DiffFileV>, only: Option<nat>, n: nat) -> Out
    decreases n,
{
    if n == 0 {
        Out { rows: Seq::empty(), ids: Seq::empty(), composed: false }
    } else {
        let before = files_out(b, files, only, (n - 1) as nat);
        if only is Some && only->0 != n - 1 {
            before
        } else {
            let o = file_out(b, (n - 1) as nat, files[n - 1], before.ids, before.composed);
            Out { rows: before.rows + o.rows, ..o }
        }
    }
}

/// The anchors that a build needs: of every file, or of the one that is built.
pub open spec fn last_view(files: Seq<DiffFileV>, t: Seq<ThreadV>, only: Option<nat>) -> Seq<
    AnchoredV,
> {
    if only is Some && only->0 < files.len() {
        threads::anchors_in_file(files[only->0 as int], t, t.len())
    } else {
        threads::anchors_in(files, t, files.len())
    }
}

/// What a build goes by.
pub open spec fn build_view(
    files: Seq<DiffFileV>,
    t: Seq<ThreadV>,
    width: nat,
    composer: Option<ComposerV>,
    only: Option<nat>,
) -> BuildV {
    BuildV { threads: t, last: last_view(files, t, only), width, composer }
}

/// The unified rows of a changeset, or of one of its files.
pub open spec fn rows_of(
    files: Seq<DiffFileV>,
    t: Seq<ThreadV>,
    width: nat,
    composer: Option<ComposerV>,
    only: Option<nat>,
) -> Seq<RowV> {
    files_out(build_view(files, t, width, composer, only), files, only, files.len()).rows
}

/// The view of an optional index.
pub open spec fn only_view(only: Option<usize>) -> Option<nat> {
    match only {
        Some(i) => Some(i as nat),
        None => None,
    }
}

/// Anchor map scoped to what the build needs: every file for a full build, or just the one
/// file for a single-file rebuild.
pub fn last_for(changeset: &Changeset, comments: &CommentStore, only: Option<usize>) -> (r: Vec<
    Anchored,
>)
    ensures
        strs::views(r@) == last_view(changeset@, comments@, only_view(only)),
{
    match only {
        Some(fi) if fi < changeset.files.len() => {
            assert(changeset.files@[fi as int]@ == changeset@[fi as int]);
            last_anchor_lines_for(&changeset.files[fi], comments)
        },
        _ => last_anchor_lines(changeset, comments),
    }
}

fn push_injected(fi: usize, inj: Vec<(Side, Injected)>, rows: &mut Vec<Row>)
    ensures
        strs::views(final(rows)@) == strs::views(old(rows)@) + injected_rows(
            fi as nat,
            threads::injected(inj@),
        ),
{
    broadcast use strs::lemma_views_push;

    let ghost o = strs::views(rows@);
    let ghost all = injected_rows(fi as nat, threads::injected(inj@));
    let ghost vs = inj@;
    assert(o + all.take(0) == o);
    for x in it: inj
        invariant
            it.seq() == vs,
            all == injected_rows(fi as nat, threads::injected(vs)),
            strs::views(rows@) == o + all.take(it.index() as int),
    {
        let ghost k = it.index() as int;
        let ghost before = rows@;
        assert(all[k] == injected_row(fi as nat, x.1@));
        let kind = match x.1 {
            Injected::Comment(c) => RowKind::Comment(c),
            Injected::Composer(c) => RowKind::Composer(c),
        };
        rows.push(Row { file_idx: fi, kind, text: String::new() });
        assert(all.take(k + 1) == all.take(k).push(all[k]));
        assert(strs::views(rows@) == strs::views(before).push(all[k]));
        assert(strs::views(rows@) == o + all.take(k + 1));
    }
    assert(all.take(all.len() as int) == all);
}

fn push_box(fi: usize, lines: Vec<ComposerLine>, rows: &mut Vec<Row>)
    ensures
        strs::views(final(rows)@) == strs::views(old(rows)@) + box_rows(
            fi as nat,
            strs::views(lines@),
        ),
{
    broadcast use strs::lemma_views_push;

    let ghost o = strs::views(rows@);
    let ghost all = box_rows(fi as nat, strs::views(lines@));
    let ghost vs = lines@;
    assert(o + all.take(0) == o);
    for x in it: lines
        invariant
            it.seq() == vs,
            all == box_rows(fi as nat, strs::views(vs)),
            strs::views(rows@) == o + all.take(it.index() as int),
    {
        let ghost k = it.index() as int;
        let ghost before = rows@;
        assert(all[k] == injected_row(fi as nat, InjectedV::Composer(x@)));
        rows.push(Row { file_idx: fi, kind: RowKind::Composer(x), text: String::new() });
        assert(all.take(k + 1) == all.take(k).push(all[k]));
        assert(strs::views(rows@) == strs::views(before).push(all[k]));
        assert(strs::views(rows@) == o + all.take(k + 1));
    }
    assert(all.take(all.len() as int) == all);
}

fn push_line(
    b: &Build,
    here: &Vec<bool>,
    path: Ghost<Seq<char>>,
    fi: usize,
    line: &DiffLine,
    rows: &mut Vec<Row>,
    emitted: &mut Vec<String>,
    composed: &mut bool,
)
    requires
        threads::on_path(b@.threads, path@, here@),
    ensures
        ({
            let o = line_out(
                b@,
                fi as nat,
                path@,
                line@,
                strs::views(old(emitted)@),
                *old(composed),
            );
            &&& strs::views(final(rows)@) == strs::views(old(rows)@) + o.rows
            &&& strs::views(final(emitted)@) == o.ids
            &&& *final(composed) == o.composed
        }),
{
    broadcast use strs::lemma_views_push;

    let ghost o = strs::views(rows@);
    let prefix = match line.kind {
        LineKind::Addition => '+',
        LineKind::Deletion => '-',
        LineKind::Context => ' ',
    };
    let mut text = String::new();
    text.push(prefix);
    assert(text@ == seq![prefix]);
    sanitize_into(&mut text, line.text.as_str());
    rows.push(
        Row {
            file_idx: fi,
            kind: RowKind::Line {
                kind: line.kind,
                old_line: line.old_line,
                new_line: line.new_line,
            },
            text,
        },
    );
    let ghost row = seq![code_row(fi as nat, line@)];
    assert(strs::views(rows@) == o + row);
    if let Some((side, ln)) = anchor_of_line(line.kind, line.old_line, line.new_line) {
        let mut anchors: Vec<(Side, u32)> = Vec::new();
        anchors.push((side, ln));
        assert(anchors@ == seq![(side, ln)]);
        let inj = comment_rows_for(b, here, path, &anchors, emitted);
        let ghost injv = injected_rows(fi as nat, threads::injected(inj@));
        push_injected(fi, inj, rows);
        let lines = new_thread_composer(b.composer, composed, fi, side, ln, b.width);
        let ghost boxv = box_rows(fi as nat, strs::views(lines@));
        push_box(fi, lines, rows);
        assert(o + row + injv + boxv == o + (row + injv + boxv));
    }
}

fn push_hunk(
    b: &Build,
    here: &Vec<bool>,
    path: Ghost<Seq<char>>,
    fi: usize,
    hunk: &Hunk,
    rows: &mut Vec<Row>,
    emitted: &mut Vec<String>,
    composed: &mut bool,
)
    requires
        threads::on_path(b@.threads, path@, here@),
    ensures
        ({
            let o = lines_out(
                b@,
                fi as nat,
                path@,
                hunk@.lines,
                hunk@.lines.len(),
                strs::views(old(emitted)@),
                *old(composed),
            );
            &&& strs::views(final(rows)@) == strs::views(old(rows)@).push(
                plain_row(fi as nat, RowKindV::HunkHeader, header_text(hunk@)),
            ) + o.rows
            &&& strs::views(final(emitted)@) == o.ids
            &&& *final(composed) == o.composed
        }),
{
    broadcast use strs::lemma_views_push;

    rows.push(Row { file_idx: fi, kind: RowKind::HunkHeader, text: hunk_header(hunk) });
    let ghost o = strs::views(rows@);
    let ghost ids = strs::views(emitted@);
    let ghost c0 = *composed;
    let mut i: usize = 0;
    assert(o + Seq::<RowV>::empty() == o);
    while i < hunk.lines.len()
        invariant
            threads::on_path(b@.threads, path@, here@),
            0 <= i <= hunk.lines.len(),
            ({
                let x = lines_out(b@, fi as nat, path@, hunk@.lines, i as nat, ids, c0);
                &&& strs::views(rows@) == o + x.rows
                &&& strs::views(emitted@) == x.ids
                &&& *composed == x.composed
            }),
        decreases hunk.lines.len() - i,
    {
        let ghost x = lines_out(b@, fi as nat, path@, hunk@.lines, i as nat, ids, c0);
        assert(hunk.lines@[i as int]@ == hunk@.lines[i as int]);
        let ghost y = line_out(b@, fi as nat, path@, hunk@.lines[i as int], x.ids, x.composed);
        push_line(b, here, path, fi, &hunk.lines[i], rows, emitted, composed);
        assert(o + x.rows + y.rows == o + (x.rows + y.rows));
        i += 1;
    }
}

fn push_file(
    b: &Build,
    fi: usize,
    file: &DiffFile,
    rows: &mut Vec<Row>,
    emitted: &mut Vec<String>,
    composed: &mut bool,
)
    ensures
        ({
            let o = file_out(b@, fi as nat, file@, strs::views(old(emitted)@), *old(composed));
            &&& strs::views(final(rows)@) == strs::views(old(rows)@) + o.rows
            &&& strs::views(final(emitted)@) == o.ids
            &&& *final(composed) == o.composed
        }),
{
    broadcast use strs::lemma_views_push;

    let path = file.display_path();
    let ghost gpath = path@;
    let ghost o0 = strs::views(rows@);
    let ghost ids = strs::views(emitted@);
    let ghost c0 = *composed;
    rows.push(Row { file_idx: fi, kind: RowKind::FileHeader, text: strs::owned(path) });
    let ghost head = plain_row(fi as nat, RowKindV::FileHeader, gpath);
    let here = threads_on(b.comments, path);
    let ghost o = strs::views(rows@);
    if file.is_binary {
        rows.push(
            Row { file_idx: fi, kind: RowKind::HunkHeader, text: strs::owned("Binary file") },
        );
        assert(strs::views(rows@) == o + body_out(b@, fi as nat, file@, ids, c0).rows);
    } else {
        let mut i: usize = 0;
        assert(o + Seq::<RowV>::empty() == o);
        while i < file.hunks.len()
            invariant
                gpath == path@,
                threads::on_path(b@.threads, gpath, here@),
                0 <= i <= file.hunks.len(),
                ({
                    let x = hunks_out(b@, fi as nat, gpath, file@.hunks, i as nat, ids, c0);
                    &&& strs::views(rows@) == o + x.rows
                    &&& strs::views(emitted@) == x.ids
                    &&& *composed == x.composed
                }),
            decreases file.hunks.len() - i,
        {
            let ghost x = hunks_out(b@, fi as nat, gpath, file@.hunks, i as nat, ids, c0);
            let hunk = &file.hunks[i];
            assert(hunk@ == file@.hunks[i as int]);
            let ghost y = lines_out(
                b@,
                fi as nat,
                gpath,
                hunk@.lines,
                hunk@.lines.len(),
                x.ids,
                x.composed,
            );
            push_hunk(b, &here, Ghost(gpath), fi, hunk, rows, emitted, composed);
            let ghost hd = plain_row(fi as nat, RowKindV::HunkHeader, header_text(hunk@));
            assert((o + x.rows).push(hd) + y.rows == o + (x.rows.push(hd) + y.rows));
            i += 1;
        }
    }
    let ghost x = body_out(b@, fi as nat, file@, ids, c0);
    let inj = orphan_thread_rows(b, &here, Ghost(gpath), emitted);
    let ghost injv = injected_rows(fi as nat, threads::injected(inj@));
    push_injected(fi, inj, rows);
    assert(o0.push(head) + x.rows + injv == o0 + (seq![head] + x.rows + injv));
}

/// Shared core: build rows for every file (`only == None`) or just one. The whole-changeset
/// path threads a single set of emitted threads across files; the single-file path starts
/// fresh.
fn build_rows_inner(
    changeset: &Changeset,
    comments: &CommentStore,
    width: usize,
    composer: Option<&ComposerSpec>,
    only: Option<usize>,
) -> (rows: Vec<Row>)
    ensures
        strs::views(rows@) == rows_of(
            changeset@,
            comments@,
            width as nat,
            threads::composer_view(composer),
            only_view(only),
        ),
{
    let b = Build { comments, last: last_for(changeset, comments, only), width, composer };
    let ghost bv = build_view(
        changeset@,
        comments@,
        width as nat,
        threads::composer_view(composer),
        only_view(only),
    );
    assert(b@ == bv);
    let mut rows: Vec<Row> = Vec::new();
    let mut emitted: Vec<String> = Vec::new();
    let mut composed = false;
    let mut fi: usize = 0;
    assert(strs::views(rows@) == Seq::<RowV>::empty());
    assert(strs::views(emitted@) == Seq::<Seq<char>>::empty());
    while fi < changeset.files.len()
        invariant
            b@ == bv,
            0 <= fi <= changeset.files.len(),
            ({
                let x = files_out(bv, changeset@, only_view(only), fi as nat);
                &&& strs::views(rows@) == x.rows
                &&& strs::views(emitted@) == x.ids
                &&& composed == x.composed
            }),
        decreases changeset.files.len() - fi,
    {
        let skip = match only {
            Some(o) => o != fi,
            None => false,
        };
        if !skip {
            assert(changeset.files@[fi as int]@ == changeset@[fi as int]);
            push_file(&b, fi, &changeset.files[fi], &mut rows, &mut emitted, &mut composed);
        }
        fi += 1;
    }
    rows
}

/// Build the unified (stack) row list for the whole changeset.
pub fn build_rows(
    changeset: &Changeset,
    comments: &CommentStore,
    width: usize,
    composer: Option<&ComposerSpec>,
) -> (rows: Vec<Row>)
    ensures
        strs::views(rows@) == rows_of(
            changeset@,
            comments@,
            width as nat,
            threads::composer_view(composer),
            None,
        ),
{
    build_rows_inner(changeset, comments, width, composer, None)
}

/// Build the unified rows for a single file (`fi`), used by the incremental per-edit
/// rebuild: a comment or composer edit only changes the rows of the file it is anchored to.
pub fn build_file_rows(
    changeset: &Changeset,
    comments: &CommentStore,
    width: usize,
    composer: Option<&ComposerSpec>,
    fi: usize,
) -> (rows: Vec<Row>)
    ensures
        strs::views(rows@) == rows_of(
            changeset@,
            comments@,
            width as nat,
            threads::composer_view(composer),
            Some(fi as nat),
        ),
{
    build_rows_inner(changeset, comments, width, composer, Some(fi))
}

} // verus!
