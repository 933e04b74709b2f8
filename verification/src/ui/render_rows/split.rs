//! The side-by-side (split) rows of a changeset.
use super::rows::{hunk_header, last_for};
use super::text::sanitize_line;
use super::threads::{
    comment_rows_for, new_thread_composer, orphan_thread_rows, threads_on, Build, BuildV,
    CommentLine, CommentLineV, ComposerKindV, ComposerLine, ComposerSpec, ComposerV, Injected,
    InjectedV,
};
use crate::comments::model::{CommentStore, ThreadV};
use crate::diff::model::{
    Changeset, DiffFile, DiffFileV, DiffLine, DiffLineV, Hunk, HunkV, LineKind, Side,
};
use crate::strs;
use crate::ui::render_rows::rows;
use crate::ui::render_rows::text;
use crate::ui::render_rows::threads;
use vstd::prelude::*;

verus! {

/// One side (left=old / right=new) of a split row.
#[derive(Debug)]
pub struct SideCell {
    pub kind: LineKind,
    pub line: Option<u32>,
    pub text: String,
}

#[derive(Debug)]
pub enum SplitRowKind {
    FileHeader,
    HunkHeader,
    /// A side-by-side pair. Either side may be empty (padding).
    Pair { left: Option<SideCell>, right: Option<SideCell> },
    /// An inline-expanded comment-thread line (non-selectable). `side` records which column
    /// (old=left / new=right) the thread is anchored to.
    Comment { side: Side, line: CommentLine },
    /// A line of the live inline composer box (non-selectable). `side` records the anchored
    /// column.
    Composer { side: Side, line: ComposerLine },
}

#[derive(Debug)]
pub struct SplitRow {
    pub file_idx: usize,
    pub kind: SplitRowKind,
    pub text: String,
}

/// What a [`SideCell`] says.
#[verifier::ext_equal]
pub struct CellV {
    pub kind: LineKind,
    pub line: Option<u32>,
    pub text: Seq<char>,
}

/// What a [`SplitRowKind`] says.
#[verifier::ext_equal]
pub enum SplitKindV {
    FileHeader,
    HunkHeader,
    Pair { left: Option<CellV>, right: Option<CellV> },
    Comment { side: Side, line: CommentLineV },
    Composer { side: Side, line: ComposerKindV },
}

/// What a [`SplitRow`] says.
#[verifier::ext_equal]
pub struct SplitRowV {
    pub file_idx: nat,
    pub kind: SplitKindV,
    pub text: Seq<char>,
}

impl View for SideCell {
    type V = CellV;

    open spec fn view(&self) -> CellV {
        CellV { kind: self.kind, line: self.line, text: self.text@ }
    }
}

/// The view of an optional cell.
pub open spec fn cell_view(c: Option<SideCell>) -> Option<CellV> {
    match c {
        Some(c) => Some(c@),
        None => None,
    }
}

impl View for SplitRowKind {
    type V = SplitKindV;

    open spec fn view(&self) -> SplitKindV {
        match *self {
            SplitRowKind::FileHeader => SplitKindV::FileHeader,
            SplitRowKind::HunkHeader => SplitKindV::HunkHeader,
            SplitRowKind::Pair { left, right } => SplitKindV::Pair {
                left: cell_view(left),
                right: cell_view(right),
            },
            SplitRowKind::Comment { side, line } => SplitKindV::Comment { side, line: line@ },
            SplitRowKind::Composer { side, line } => SplitKindV::Composer { side, line: line@ },
        }
    }
}

impl View for SplitRow {
    type V = SplitRowV;

    open spec fn view(&self) -> SplitRowV {
        SplitRowV {
            file_idx: self.file_idx as nat,
            kind: self.kind@,
            text: self.text@,
        }
    }
}

impl Clone for SideCell {
    fn clone(&self) -> (r: SideCell)
        ensures
            r@ == self@,
    {
        SideCell { kind: self.kind, line: self.line, text: self.text.clone() }
    }
}

/// The comment anchor of a pair: the new side's, else the old side's.
pub open spec fn pair_anchor(left: Option<CellV>, right: Option<CellV>) -> Option<(Side, u32)> {
    if right is Some && right->0.line is Some {
        Some((Side::New, right->0.line->0))
    } else if left is Some && left->0.line is Some {
        Some((Side::Old, left->0.line->0))
    } else {
        None
    }
}

/// The comment anchor of a split row.
pub open spec fn split_anchor(r: SplitRowV) -> Option<(Side, u32)> {
    match r.kind {
        SplitKindV::Pair { left, right } => pair_anchor(left, right),
        _ => None,
    }
}

impl SplitRow {
    /// Whether the row is a pair of code lines.
    pub fn is_selectable(&self) -> (r: bool)
        ensures
            r == (self@.kind is Pair),
    {
        match &self.kind {
            SplitRowKind::Pair { .. } => true,
            _ => false,
        }
    }

    /// Comment anchor: prefer the new (right) side, fall back to old (left).
    pub fn anchor(&self) -> (r: Option<(Side, u32)>)
        ensures
            r == split_anchor(self@),
    {
        match &self.kind {
            SplitRowKind::Pair { left, right } => {
                if let Some(c) = right {
                    if let Some(l) = c.line {
                        return Some((Side::New, l));
                    }
                }
                if let Some(c) = left {
                    if let Some(l) = c.line {
                        return Some((Side::Old, l));
                    }
                }
                None
            },
            _ => None,
        }
    }
}

/// Rows, and what is out after them: the ids of the threads, and whether the composer is.
#[verifier::ext_equal]
pub struct Out {
    pub rows: Seq<SplitRowV>,
    pub ids: Seq<Seq<char>>,
    pub composed: bool,
}

/// A row without cells.
pub open spec fn plain_row(fi: nat, kind: SplitKindV, text: Seq<char>) -> SplitRowV {
    SplitRowV { file_idx: fi, kind, text }
}

/// Both lines of a pair that can be commented on, the old side's first.
pub open spec fn pair_anchors(left: Option<CellV>, right: Option<CellV>) -> Seq<(Side, u32)> {
    let a = if left is Some && left->0.line is Some {
        seq![(Side::Old, left->0.line->0)]
    } else {
        Seq::empty()
    };
    if right is Some && right->0.line is Some {
        a.push((Side::New, right->0.line->0))
    } else {
        a
    }
}

/// An injected line under its column.
pub open spec fn injected_kind(side: Side, i: InjectedV) -> SplitKindV {
    match i {
        InjectedV::Comment(line) => SplitKindV::Comment { side, line },
        InjectedV::Composer(line) => SplitKindV::Composer { side, line },
    }
}

/// The rows of injected lines.
pub open spec fn injected_rows(fi: nat, s: Seq<(Side, InjectedV)>) -> Seq<SplitRowV> {
    Seq::new(s.len(), |i: int| plain_row(fi, injected_kind(s[i].0, s[i].1), Seq::empty()))
}

/// The rows of a composer box.
pub open spec fn box_rows(fi: nat, side: Side, s: Seq<ComposerKindV>) -> Seq<SplitRowV> {
    Seq::new(
        s.len(),
        |i: int| plain_row(fi, SplitKindV::Composer { side, line: s[i] }, Seq::empty()),
    )
}

/// The composer boxes behind the first `n` anchors, and whether the composer is out then.
pub open spec fn boxes(
    b: BuildV,
    fi: nat,
    anchors: Seq<(Side, u32)>,
    n: nat,
    composed: bool,
) -> (Seq<SplitRowV>, bool)
    decreases n,
{
    if n == 0 {
        (Seq::empty(), composed)
    } else {
        let (rows, c) = boxes(b, fi, anchors, (n - 1) as nat, composed);
        let (side, l) = anchors[n - 1];
        (
            rows + box_rows(
                fi,
                side,
                threads::new_thread_box(b.composer, c, fi, side, l, b.width),
            ),
            c || threads::composes_at(b.composer, fi, side, l),
        )
    }
}

/// The rows of a pair: the pair, the threads anchored behind either of its lines, and the
/// composer of a new thread on one of them.
pub open spec fn pair_out(
    b: BuildV,
    fi: nat,
    path: Seq<char>,
    left: Option<CellV>,
    right: Option<CellV>,
    ids: Seq<Seq<char>>,
    composed: bool,
) -> Out {
    let anchors = pair_anchors(left, right);
    let (inj, out) = threads::inject(b, path, Some(anchors), ids);
    let (box_out, c) = boxes(b, fi, anchors, anchors.len(), composed);
    Out {
        rows: seq![plain_row(fi, SplitKindV::Pair { left, right }, Seq::empty())] + injected_rows(
            fi,
            inj,
        ) + box_out,
        ids: out,
        composed: c,
    }
}

/// The cell at an index, where there is one.
pub open spec fn cell_at(cells: Seq<CellV>, i: int) -> Option<CellV> {
    if 0 <= i < cells.len() {
        Some(cells[i])
    } else {
        None
    }
}

/// The first `n` rows of a run of deletions zipped with a run of additions.
pub open spec fn zip_out(
    b: BuildV,
    fi: nat,
    path: Seq<char>,
    dels: Seq<CellV>,
    adds: Seq<CellV>,
    n: nat,
    ids: Seq<Seq<char>>,
    composed: bool,
) -> Out
    decreases n,
{
    if n == 0 {
        Out { rows: Seq::empty(), ids, composed }
    } else {
        let before = zip_out(b, fi, path, dels, adds, (n - 1) as nat, ids, composed);
        let o = pair_out(
            b,
            fi,
            path,
            cell_at(dels, n - 1),
            cell_at(adds, n - 1),
            before.ids,
            before.composed,
        );
        Out { rows: before.rows + o.rows, ..o }
    }
}

/// As many rows as the longer run has lines.
pub open spec fn zip_len(dels: Seq<CellV>, adds: Seq<CellV>) -> nat {
    if dels.len() < adds.len() {
        adds.len()
    } else {
        dels.len()
    }
}

/// The cell of a diff line: a deletion under its old number, any other under its new one.
pub open spec fn line_cell(l: DiffLineV) -> CellV {
    CellV {
        kind: l.kind,
        line: match l.kind {
            LineKind::Deletion => l.old_line,
            _ => l.new_line,
        },
        text: text::sanitized(l.text),
    }
}

/// The left cell of a context line.
pub open spec fn context_cell(l: DiffLineV) -> CellV {
    CellV { kind: LineKind::Context, line: l.old_line, text: text::sanitized(l.text) }
}

/// What a hunk's lines give so far, and the deletions and additions still to be zipped.
#[verifier::ext_equal]
pub struct Open {
    pub out: Out,
    pub dels: Seq<CellV>,
    pub adds: Seq<CellV>,
}

/// `o` with its open runs written out.
pub open spec fn flushed(b: BuildV, fi: nat, path: Seq<char>, o: Open) -> Out {
    let z = zip_out(
        b,
        fi,
        path,
        o.dels,
        o.adds,
        zip_len(o.dels, o.adds),
        o.out.ids,
        o.out.composed,
    );
    Out { rows: o.out.rows + z.rows, ..z }
}

/// `o` and one more line. A deletion or an addition joins its run; a context line ends both
/// runs and stands on both sides.
pub open spec fn line_step(b: BuildV, fi: nat, path: Seq<char>, l: DiffLineV, o: Open) -> Open {
    match l.kind {
        LineKind::Deletion => Open { dels: o.dels.push(line_cell(l)), ..o },
        LineKind::Addition => Open { adds: o.adds.push(line_cell(l)), ..o },
        LineKind::Context => {
            let f = flushed(b, fi, path, o);
            let p = pair_out(
                b,
                fi,
                path,
                Some(context_cell(l)),
                Some(line_cell(l)),
                f.ids,
                f.composed,
            );
            Open {
                out: Out { rows: f.rows + p.rows, ..p },
                dels: Seq::empty(),
                adds: Seq::empty(),
            }
        },
    }
}

/// The first `n` lines of a hunk.
pub open spec fn lines_open(
    b: BuildV,
    fi: nat,
    path: Seq<char>,
    lines: Seq<DiffLineV>,
    n: nat,
    ids: Seq<Seq<char>>,
    composed: bool,
) -> Open
    decreases n,
{
    if n == 0 {
        Open {
            out: Out { rows: Seq::empty(), ids, composed },
            dels: Seq::empty(),
            adds: Seq::empty(),
        }
    } else {
        line_step(
            b,
            fi,
            path,
            lines[n - 1],
            lines_open(b, fi, path, lines, (n - 1) as nat, ids, composed),
        )
    }
}

/// The rows of the first `n` hunks.
pub open spec fn hunks_out(
    b: BuildV,
    fi: nat,
    path: Seq<char>,
    hunks: Seq<HunkV>,
    n: nat,
    ids: Seq<Seq<char>>,
    composed: bool,
) -> Out
    decreases n,
{
    if n == 0 {
        Out { rows: Seq::empty(), ids, composed }
    } else {
        let before = hunks_out(b, fi, path, hunks, (n - 1) as nat, ids, composed);
        let h = hunks[n - 1];
        let o = flushed(
            b,
            fi,
            path,
            lines_open(b, fi, path, h.lines, h.lines.len(), before.ids, before.composed),
        );
        Out {
            rows: before.rows.push(plain_row(fi, SplitKindV::HunkHeader, rows::header_text(h)))
                + o.rows,
            ..o
        }
    }
}

/// The rows of a file's hunks. A binary file has a notice in their place.
pub open spec fn body_out(
    b: BuildV,
    fi: nat,
    file: DiffFileV,
    ids: Seq<Seq<char>>,
    composed: bool,
) -> Out {
    if file.is_binary {
        Out {
            rows: seq![plain_row(fi, SplitKindV::HunkHeader, "Binary file"@)],
            ids,
            composed,
        }
    } else {
        hunks_out(b, fi, file.display_path(), file.hunks, file.hunks.len(), ids, composed)
    }
}

/// The rows of a file: its header, its hunks or the notice, and the threads on it that no line
/// showed.
pub open spec fn file_out(
    b: BuildV,
    fi: nat,
    file: DiffFileV,
    ids: Seq<Seq<char>>,
    composed: bool,
) -> Out {
    let path = file.display_path();
    let head = plain_row(fi, SplitKindV::FileHeader, path);
    let o = body_out(b, fi, file, ids, composed);
    let (inj, out) = threads::inject(b, path, None, o.ids);
    Out { rows: seq![head] + o.rows + injected_rows(fi, inj), ids: out, composed: o.composed }
}

/// The rows of the first `n` files, or of only one of them.
pub open spec fn files_out(b: BuildV, files: Seq<DiffFileV>, only: Option<nat>, n: nat) -> Out
    decreases n,
{
    if n == 0 {
        Out { rows: Seq::empty(), ids: Seq::empty(), composed: false }
    } else {
        let before = files_out(b, files, only, (n - 1) as nat);
        if only is Some && only->0 != n - 1 {
            before
        } else {
            let o = file_out(b, (n - 1) as nat, files[n - 1], before.ids, before.composed);
            Out { rows: before.rows + o.rows, ..o }
        }
    }
}

/// The split rows of a changeset, or of one of its files.
pub open spec fn rows_of(
    files: Seq<DiffFileV>,
    t: Seq<ThreadV>,
    width: nat,
    composer: Option<ComposerV>,
    only: Option<nat>,
) -> Seq<SplitRowV> {
    files_out(rows::build_view(files, t, width, composer, only), files, only, files.len()).rows
}

/// Map an injected row to its split-view kind under column `side`.
fn split_injected(side: Side, inj: Injected) -> (r: SplitRowKind)
    ensures
        r@ == injected_kind(side, inj@),
{
    match inj {
        Injected::Comment(line) => SplitRowKind::Comment { side, line },
        Injected::Composer(line) => SplitRowKind::Composer { side, line },
    }
}

fn push_injected(fi: usize, inj: Vec<(Side, Injected)>, rows: &mut Vec<SplitRow>)
    ensures
        strs::views(final(rows)@) == strs::views(old(rows)@) + injected_rows(
            fi as nat,
            threads::injected(inj@),
        ),
{
    broadcast use strs::lemma_views_push;

    let ghost o = strs::views(rows@);
    let ghost all = injected_rows(fi as nat, threads::injected(inj@));
    let ghost vs = inj@;
    assert(o + all.take(0) == o);
    for x in it: inj
        invariant
            it.seq() == vs,
            all == injected_rows(fi as nat, threads::injected(vs)),
            strs::views(rows@) == o + all.take(it.index() as int),
    {
        let ghost k = it.index() as int;
        let ghost before = rows@;
        assert(all[k] == plain_row(fi as nat, injected_kind(x.0, x.1@), Seq::empty()));
        let kind = split_injected(x.0, x.1);
        rows.push(SplitRow { file_idx: fi, kind, text: String::new() });
        assert(all.take(k + 1) == all.take(k).push(all[k]));
        assert(strs::views(rows@) == strs::views(before).push(all[k]));
        assert(strs::views(rows@) == o + all.take(k + 1));
    }
    assert(all.take(all.len() as int) == all);
}

fn push_box(fi: usize, side: Side, lines: Vec<ComposerLine>, rows: &mut Vec<SplitRow>)
    ensures
        strs::views(final(rows)@) == strs::views(old(rows)@) + box_rows(
            fi as nat,
            side,
            strs::views(lines@),
        ),
{
    broadcast use strs::lemma_views_push;

    let ghost o = strs::views(rows@);
    let ghost all = box_rows(fi as nat, side, strs::views(lines@));
    let ghost vs = lines@;
    assert(o + all.take(0) == o);
    for x in it: lines
        invariant
            it.seq() == vs,
            all == box_rows(fi as nat, side, strs::views(vs)),
            strs::views(rows@) == o + all.take(it.index() as int),
    {
        let ghost k = it.index() as int;
        let ghost before = rows@;
        assert(all[k] == plain_row(
            fi as nat,
            SplitKindV::Composer { side, line: x@ },
            Seq::empty(),
        ));
        rows.push(
            SplitRow {
                file_idx: fi,
                kind: SplitRowKind::Composer { side, line: x },
                text: String::new(),
            },
        );
        assert(all.take(k + 1) == all.take(k).push(all[k]));
        assert(strs::views(rows@) == strs::views(before).push(all[k]));
        assert(strs::views(rows@) == o + all.take(k + 1));
    }
    assert(all.take(all.len() as int) == all);
}

fn push_pair(
    b: &Build,
    here: &Vec<bool>,
    path: Ghost<Seq<char>>,
    fi: usize,
    left: Option<SideCell>,
    right: Option<SideCell>,
    rows: &mut Vec<SplitRow>,
    emitted: &mut Vec<String>,
    composed: &mut bool,
)
    requires
        threads::on_path(b@.threads, path@, here@),
    ensures
        ({
            let o = pair_out(
                b@,
                fi as nat,
                path@,
                cell_view(left),
                cell_view(right),
                strs::views(old(emitted)@),
                *old(composed),
            );
            &&& strs::views(final(rows)@) == strs::views(old(rows)@) + o.rows
            &&& strs::views(final(emitted)@) == o.ids
            &&& *final(composed) == o.composed
        }),
{
    broadcast use strs::lemma_views_push;

    let ghost o = strs::views(rows@);
    let ghost lv = cell_view(left);
    let ghost rv = cell_view(right);
    let mut anchors: Vec<(Side, u32)> = Vec::new();
    if let Some(c) = &left {
        if let Some(l) = c.line {
            anchors.push((Side::Old, l));
        }
    }
    if let Some(c) = &right {
        if let Some(l) = c.line {
            anchors.push((Side::New, l));
        }
    }
    assert(anchors@ == pair_anchors(lv, rv));
    let ghost row = seq![
        plain_row(fi as nat, SplitKindV::Pair { left: lv, right: rv }, Seq::empty()),
    ];
    rows.push(
        SplitRow {
            file_idx: fi,
            kind: SplitRowKind::Pair { left, right },
            text: String::new(),
        },
    );
    assert(strs::views(rows@) == o + row);
    let inj = comment_rows_for(b, here, path, &anchors, emitted);
    let ghost injv = injected_rows(fi as nat, threads::injected(inj@));
    push_injected(fi, inj, rows);
    let ghost o2 = strs::views(rows@);
    let ghost c0 = *composed;
    let mut i: usize = 0;
    assert(o2 + Seq::<SplitRowV>::empty() == o2);
    while i < anchors.len()
        invariant
            0 <= i <= anchors.len(),
            strs::views(rows@) == o2 + boxes(b@, fi as nat, anchors@, i as nat, c0).0,
            *composed == boxes(b@, fi as nat, anchors@, i as nat, c0).1,
        decreases anchors.len() - i,
    {
        let (side, l) = anchors[i];
        let ghost before = boxes(b@, fi as nat, anchors@, i as nat, c0).0;
        let lines = new_thread_composer(b.composer, composed, fi, side, l, b.width);
        let ghost boxv = box_rows(fi as nat, side, strs::views(lines@));
        push_box(fi, side, lines, rows);
        assert(o2 + before + boxv == o2 + (before + boxv));
        i += 1;
    }
    let ghost boxv = boxes(b@, fi as nat, anchors@, anchors@.len(), c0).0;
    assert(o + row + injv + boxv == o + (row + injv + boxv));
}

/// Emit the accumulated deletion/addition runs as zipped pairs.
fn flush_pairs(
    b: &Build,
    here: &Vec<bool>,
    path: Ghost<Seq<char>>,
    fi: usize,
    dels: &mut Vec<SideCell>,
    adds: &mut Vec<SideCell>,
    rows: &mut Vec<SplitRow>,
    emitted: &mut Vec<String>,
    composed: &mut bool,
)
    requires
        threads::on_path(b@.threads, path@, here@),
    ensures
        strs::views(final(dels)@) == Seq::<CellV>::empty(),
        strs::views(final(adds)@) == Seq::<CellV>::empty(),
        ({
            let d = strs::views(old(dels)@);
            let a = strs::views(old(adds)@);
            let o = zip_out(
                b@,
                fi as nat,
                path@,
                d,
                a,
                zip_len(d, a),
                strs::views(old(emitted)@),
                *old(composed),
            );
            &&& strs::views(final(rows)@) == strs::views(old(rows)@) + o.rows
            &&& strs::views(final(emitted)@) == o.ids
            &&& *final(composed) == o.composed
        }),
{
    let ghost d = strs::views(dels@);
    let ghost a = strs::views(adds@);
    let ghost o = strs::views(rows@);
    let ghost ids = strs::views(emitted@);
    let ghost c0 = *composed;
    let n: usize = if dels.len() < adds.len() {
        adds.len()
    } else {
        dels.len()
    };
    let mut i: usize = 0;
    assert(o + Seq::<SplitRowV>::empty() == o);
    while i < n
        invariant
            threads::on_path(b@.threads, path@, here@),
            d == strs::views(dels@),
            a == strs::views(adds@),
            n == zip_len(d, a),
            0 <= i <= n,
            ({
                let x = zip_out(b@, fi as nat, path@, d, a, i as nat, ids, c0);
                &&& strs::views(rows@) == o + x.rows
                &&& strs::views(emitted@) == x.ids
                &&& *composed == x.composed
            }),
        decreases n - i,
    {
        let ghost x = zip_out(b@, fi as nat, path@, d, a, i as nat, ids, c0);
        let left = if i < dels.len() {
            Some(dels[i].clone())
        } else {
            None
        };
        let right = if i < adds.len() {
            Some(adds[i].clone())
        } else {
            None
        };
        assert(cell_view(left) == cell_at(d, i as int));
        assert(cell_view(right) == cell_at(a, i as int));
        let ghost y = pair_out(
            b@,
            fi as nat,
            path@,
            cell_at(d, i as int),
            cell_at(a, i as int),
            x.ids,
            x.composed,
        );
        push_pair(b, here, path, fi, left, right, rows, emitted, composed);
        assert(o + x.rows + y.rows == o + (x.rows + y.rows));
        i += 1;
    }
    dels.clear();
    adds.clear();
    assert(strs::views(dels@) == Seq::<CellV>::empty());
    assert(strs::views(adds@) == Seq::<CellV>::empty());
}

fn cell_of(line: &DiffLine) -> (r: SideCell)
    ensures
        r@ == line_cell(line@),
{
    SideCell {
        kind: line.kind,
        line: match line.kind {
            LineKind::Deletion => line.old_line,
            _ => line.new_line,
        },
        text: sanitize_line(line.text.as_str()),
    }
}

fn push_line(
    b: &Build,
    here: &Vec<bool>,
    path: Ghost<Seq<char>>,
    fi: usize,
    line: &DiffLine,
    start: Ghost<Seq<SplitRowV>>,
    so_far: Ghost<Open>,
    dels: &mut Vec<SideCell>,
    adds: &mut Vec<SideCell>,
    rows: &mut Vec<SplitRow>,
    emitted: &mut Vec<String>,
    composed: &mut bool,
)
    requires
        threads::on_path(b@.threads, path@, here@),
        strs::views(old(rows)@) == start@ + so_far@.out.rows,
        strs::views(old(emitted)@) == so_far@.out.ids,
        *old(composed) == so_far@.out.composed,
        strs::views(old(dels)@) == so_far@.dels,
        strs::views(old(adds)@) == so_far@.adds,
    ensures
        ({
            let x = line_step(b@, fi as nat, path@, line@, so_far@);
            &&& strs::views(final(rows)@) == start@ + x.out.rows
            &&& strs::views(final(emitted)@) == x.out.ids
            &&& *final(composed) == x.out.composed
            &&& strs::views(final(dels)@) == x.dels
            &&& strs::views(final(adds)@) == x.adds
        }),
{
    broadcast use strs::lemma_views_push;

    let ghost o = start@;
    let ghost x = so_far@;
    let cell = cell_of(line);
    match line.kind {
        LineKind::Deletion => dels.push(cell),
        LineKind::Addition => adds.push(cell),
        LineKind::Context => {
            let ghost z = zip_out(
                b@,
                fi as nat,
                path@,
                x.dels,
                x.adds,
                zip_len(x.dels, x.adds),
                x.out.ids,
                x.out.composed,
            );
            flush_pairs(b, here, path, fi, dels, adds, rows, emitted, composed);
            assert(o + x.out.rows + z.rows == o + (x.out.rows + z.rows));
            let left = SideCell {
                kind: LineKind::Context,
                line: line.old_line,
                text: cell.text.clone(),
            };
            let ghost f = flushed(b@, fi as nat, path@, x);
            let ghost p = pair_out(
                b@,
                fi as nat,
                path@,
                Some(context_cell(line@)),
                Some(line_cell(line@)),
                f.ids,
                f.composed,
            );
            push_pair(b, here, path, fi, Some(left), Some(cell), rows, emitted, composed);
            assert(o + f.rows + p.rows == o + (f.rows + p.rows));
        },
    }
}

fn push_hunk(
    b: &Build,
    here: &Vec<bool>,
    path: Ghost<Seq<char>>,
    fi: usize,
    hunk: &Hunk,
    rows: &mut Vec<SplitRow>,
    emitted: &mut Vec<String>,
    composed: &mut bool,
)
    requires
        threads::on_path(b@.threads, path@, here@),
    ensures
        ({
            let o = flushed(
                b@,
                fi as nat,
                path@,
                lines_open(
                    b@,
                    fi as nat,
                    path@,
                    hunk@.lines,
                    hunk@.lines.len(),
                    strs::views(old(emitted)@),
                    *old(composed),
                ),
            );
            &&& strs::views(final(rows)@) == strs::views(old(rows)@).push(
                plain_row(fi as nat, SplitKindV::HunkHeader, rows::header_text(hunk@)),
            ) + o.rows
            &&& strs::views(final(emitted)@) == o.ids
            &&& *final(composed) == o.composed
        }),
{
    broadcast use strs::lemma_views_push;

    rows.push(SplitRow { file_idx: fi, kind: SplitRowKind::HunkHeader, text: hunk_header(hunk) });
    let ghost o = strs::views(rows@);
    let ghost ids = strs::views(emitted@);
    let ghost c0 = *composed;
    let mut dels: Vec<SideCell> = Vec::new();
    let mut adds: Vec<SideCell> = Vec::new();
    let mut i: usize = 0;
    assert(o + Seq::<SplitRowV>::empty() == o);
    assert(strs::views(dels@) == Seq::<CellV>::empty());
    assert(strs::views(adds@) == Seq::<CellV>::empty());
    while i < hunk.lines.len()
        invariant
            threads::on_path(b@.threads, path@, here@),
            0 <= i <= hunk.lines.len(),
            ({
                let x = lines_open(b@, fi as nat, path@, hunk@.lines, i as nat, ids, c0);
                &&& strs::views(rows@) == o + x.out.rows
                &&& strs::views(emitted@) == x.out.ids
                &&& *composed == x.out.composed
                &&& strs::views(dels@) == x.dels
                &&& strs::views(adds@) == x.adds
            }),
        decreases hunk.lines.len() - i,
    {
        let ghost x = lines_open(b@, fi as nat, path@, hunk@.lines, i as nat, ids, c0);
        assert(hunk.lines@[i as int]@ == hunk@.lines[i as int]);
        push_line(
            b,
            here,
            path,
            fi,
            &hunk.lines[i],
            Ghost(o),
            Ghost(x),
            &mut dels,
            &mut adds,
            rows,
            emitted,
            composed,
        );
        i += 1;
    }
    let ghost x = lines_open(b@, fi as nat, path@, hunk@.lines, hunk@.lines.len(), ids, c0);
    let ghost z = zip_out(
        b@,
        fi as nat,
        path@,
        x.dels,
        x.adds,
        zip_len(x.dels, x.adds),
        x.out.ids,
        x.out.composed,
    );
    flush_pairs(b, here, path, fi, &mut dels, &mut adds, rows, emitted, composed);
    assert(o + x.out.rows + z.rows == o + (x.out.rows + z.rows));
}

fn push_file(
    b: &Build,
    fi: usize,
    file: &DiffFile,
    rows: &mut Vec<SplitRow>,
    emitted: &mut Vec<String>,
    composed: &mut bool,
)
    ensures
        ({
            let o = file_out(b@, fi as nat, file@, strs::views(old(emitted)@), *old(composed));
            &&& strs::views(final(rows)@) == strs::views(old(rows)@) + o.rows
            &&& strs::views(final(emitted)@) == o.ids
            &&& *final(composed) == o.composed
        }),
{
    broadcast use strs::lemma_views_push;

    let path = file.display_path();
    let ghost gpath = path@;
    let ghost o0 = strs::views(rows@);
    let ghost ids = strs::views(emitted@);
    let ghost c0 = *composed;
    rows.push(SplitRow { file_idx: fi, kind: SplitRowKind::FileHeader, text: strs::owned(path) });
    let ghost head = plain_row(fi as nat, SplitKindV::FileHeader, gpath);
    let here = threads_on(b.comments, path);
    let ghost o = strs::views(rows@);
    if file.is_binary {
        rows.push(
            SplitRow {
                file_idx: fi,
                kind: SplitRowKind::HunkHeader,
                text: strs::owned("Binary file"),
            },
        );
        assert(strs::views(rows@) == o + body_out(b@, fi as nat, file@, ids, c0).rows);
    } else {
        let mut i: usize = 0;
        assert(o + Seq::<SplitRowV>::empty() == o);
        while i < file.hunks.len()
            invariant
                gpath == path@,
                threads::on_path(b@.threads, gpath, here@),
                0 <= i <= file.hunks.len(),
                ({
                    let x = hunks_out(b@, fi as nat, gpath, file@.hunks, i as nat, ids, c0);
                    &&& strs::views(rows@) == o + x.rows
                    &&& strs::views(emitted@) == x.ids
                    &&& *composed == x.composed
                }),
            decreases file.hunks.len() - i,
        {
            let ghost x = hunks_out(b@, fi as nat, gpath, file@.hunks, i as nat, ids, c0);
            let hunk = &file.hunks[i];
            assert(hunk@ == file@.hunks[i as int]);
            let ghost y = flushed(
                b@,
                fi as nat,
                gpath,
                lines_open(
                    b@,
                    fi as nat,
                    gpath,
                    hunk@.lines,
                    hunk@.lines.len(),
                    x.ids,
                    x.composed,
                ),
            );
            push_hunk(b, &here, Ghost(gpath), fi, hunk, rows, emitted, composed);
            let ghost hd = plain_row(
                fi as nat,
                SplitKindV::HunkHeader,
                rows::header_text(hunk@),
            );
            assert((o + x.rows).push(hd) + y.rows == o + (x.rows.push(hd) + y.rows));
            i += 1;
        }
    }
    let ghost x = body_out(b@, fi as nat, file@, ids, c0);
    let inj = orphan_thread_rows(b, &here, Ghost(gpath), emitted);
    let ghost injv = injected_rows(fi as nat, threads::injected(inj@));
    push_injected(fi, inj, rows);
    assert(o0.push(head) + x.rows + injv == o0 + (seq![head] + x.rows + injv));
}

fn build_split_rows_inner(
    changeset: &Changeset,
    comments: &CommentStore,
    width: usize,
    composer: Option<&ComposerSpec>,
    only: Option<usize>,
) -> (rows: Vec<SplitRow>)
    ensures
        strs::views(rows@) == rows_of(
            changeset@,
            comments@,
            width as nat,
            threads::composer_view(composer),
            rows::only_view(only),
        ),
{
    let b = Build { comments, last: last_for(changeset, comments, only), width, composer };
    let ghost bv = rows::build_view(
        changeset@,
        comments@,
        width as nat,
        threads::composer_view(composer),
        rows::only_view(only),
    );
    assert(b@ == bv);
    let mut rows: Vec<SplitRow> = Vec::new();
    let mut emitted: Vec<String> = Vec::new();
    let mut composed = false;
    let mut fi: usize = 0;
    assert(strs::views(rows@) == Seq::<SplitRowV>::empty());
    assert(strs::views(emitted@) == Seq::<Seq<char>>::empty());
    while fi < changeset.files.len()
        invariant
            b@ == bv,
            0 <= fi <= changeset.files.len(),
            ({
                let x = files_out(bv, changeset@, rows::only_view(only), fi as nat);
                &&& strs::views(rows@) == x.rows
                &&& strs::views(emitted@) == x.ids
                &&& composed == x.composed
            }),
        decreases changeset.files.len() - fi,
    {
        let skip = match only {
            Some(o) => o != fi,
            None => false,
        };
        if !skip {
            assert(changeset.files@[fi as int]@ == changeset@[fi as int]);
            push_file(&b, fi, &changeset.files[fi], &mut rows, &mut emitted, &mut composed);
        }
        fi += 1;
    }
    rows
}

/// Build the side-by-side (split) row list. Within a change block, consecutive deletions
/// (left) are zipped with consecutive additions (right); context lines appear on both sides.
pub fn build_split_rows(
    changeset: &Changeset,
    comments: &CommentStore,
    width: usize,
    composer: Option<&ComposerSpec>,
) -> (rows: Vec<SplitRow>)
    ensures
        strs::views(rows@) == rows_of(
            changeset@,
            comments@,
            width as nat,
            threads::composer_view(composer),
            None,
        ),
{
    build_split_rows_inner(changeset, comments, width, composer, None)
}

/// Split rows for a single file (`fi`): the split-view counterpart of
/// [`super::rows::build_file_rows`].
pub fn build_file_split_rows(
    changeset: &Changeset,
    comments: &CommentStore,
    width: usize,
    composer: Option<&ComposerSpec>,
    fi: usize,
) -> (rows: Vec<SplitRow>)
    ensures
        strs::views(rows@) == rows_of(
            changeset@,
            comments@,
            width as nat,
            threads::composer_view(composer),
            Some(fi as nat),
        ),
{
    build_split_rows_inner(changeset, comments, width, composer, Some(fi))
}

} // verus!
