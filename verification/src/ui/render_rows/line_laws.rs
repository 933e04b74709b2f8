//! Laws of the lines: both layouts show the same lines of the new side.
use crate::comments::model::ThreadV;
use crate::diff::model::{DiffFileV, DiffLineV, HunkV, LineKind, Side};
use crate::ui::render_rows::laws;
use crate::ui::render_rows::rows;
use crate::ui::render_rows::rows::{RowKindV, RowV};
use crate::ui::render_rows::split;
use crate::ui::render_rows::split::{CellV, SplitKindV, SplitRowV};
use crate::ui::render_rows::threads;
use crate::ui::render_rows::threads::{BuildV, ComposerV};
use vstd::prelude::*;

verus! {

/// Whether a line stands on the new side under number `x`.
pub open spec fn is_new_line(l: DiffLineV, x: u32) -> bool {
    l.kind != LineKind::Deletion && l.new_line == Some(x)
}

/// Whether a file has text to show, and in it a line of the new side under number `x`.
pub open spec fn has_new_line(file: DiffFileV, x: u32) -> bool {
    !file.is_binary && exists|h: int, k: int|
        0 <= h < file.hunks.len() && 0 <= k < file.hunks[h].lines.len() && is_new_line(
            #[trigger] file.hunks[h].lines[k],
            x,
        )
}

/// Whether a row is line `x` of the new side of file `f`.
pub open spec fn at_row(f: nat, x: u32) -> spec_fn(RowV) -> bool {
    |r: RowV| r.file_idx == f && rows::row_anchor(r) == Some((Side::New, x))
}

/// Whether a split row is line `x` of the new side of file `f`.
pub open spec fn at_split(f: nat, x: u32) -> spec_fn(SplitRowV) -> bool {
    |r: SplitRowV| r.file_idx == f && split::split_anchor(r) == Some((Side::New, x))
}

spec fn in_lines(lines: Seq<DiffLineV>, n: nat, x: u32) -> bool {
    exists|k: int| 0 <= k < n && is_new_line(#[trigger] lines[k], x)
}

spec fn in_hunks(hunks: Seq<HunkV>, n: nat, x: u32) -> bool {
    exists|h: int, k: int|
        0 <= h < n && 0 <= k < hunks[h].lines.len() && is_new_line(
            #[trigger] hunks[h].lines[k],
            x,
        )
}

spec fn in_cells(cells: Seq<CellV>, n: nat, x: u32) -> bool {
    exists|k: int| 0 <= k < n && k < cells.len() && (#[trigger] cells[k]).line == Some(x)
}

proof fn lemma_in_lines(lines: Seq<DiffLineV>, n: nat, x: u32)
    requires
        n > 0,
    ensures
        in_lines(lines, n, x) <==> in_lines(lines, (n - 1) as nat, x) || is_new_line(
            lines[n - 1],
            x,
        ),
{
    if in_lines(lines, (n - 1) as nat, x) {
        let k = choose|k: int| 0 <= k < n - 1 && is_new_line(#[trigger] lines[k], x);
        assert(is_new_line(lines[k], x));
    }
}

proof fn lemma_in_hunks(hunks: Seq<HunkV>, n: nat, x: u32)
    requires
        n > 0,
    ensures
        in_hunks(hunks, n, x) <==> in_hunks(hunks, (n - 1) as nat, x) || in_lines(
            hunks[n - 1].lines,
            hunks[n - 1].lines.len(),
            x,
        ),
{
    let last = hunks[n - 1].lines;
    if in_hunks(hunks, (n - 1) as nat, x) {
        let (h, k) = choose|h: int, k: int|
            0 <= h < n - 1 && 0 <= k < hunks[h].lines.len() && is_new_line(
                #[trigger] hunks[h].lines[k],
                x,
            );
        assert(is_new_line(hunks[h].lines[k], x));
    }
    if in_lines(last, last.len(), x) {
        let k = choose|k: int| 0 <= k < last.len() && is_new_line(#[trigger] last[k], x);
        assert(is_new_line(hunks[n - 1].lines[k], x));
    }
    if in_hunks(hunks, n, x) {
        let (h, k) = choose|h: int, k: int|
            0 <= h < n && 0 <= k < hunks[h].lines.len() && is_new_line(
                #[trigger] hunks[h].lines[k],
                x,
            );
        if h == n - 1 {
            assert(is_new_line(last[k], x));
        } else {
            assert(is_new_line(hunks[h].lines[k], x));
        }
    }
}

proof fn lemma_one<T>(r: T, f: spec_fn(T) -> bool)
    ensures
        laws::count(seq![r], f) == if f(r) {
            1nat
        } else {
            0
        },
{
    assert(seq![r].drop_last() == Seq::<T>::empty());
    assert(seq![r].last() == r);
    assert(laws::count(Seq::<T>::empty(), f) == 0);
}

proof fn lemma_lines(
    b: BuildV,
    fi: nat,
    path: Seq<char>,
    lines: Seq<DiffLineV>,
    n: nat,
    ids: Seq<Seq<char>>,
    c: bool,
    f: nat,
    x: u32,
)
    ensures
        laws::count(rows::lines_out(b, fi, path, lines, n, ids, c).rows, at_row(f, x)) > 0 <==> fi
            == f && in_lines(lines, n, x),
    decreases n,
{
    let p = at_row(f, x);
    if n > 0 {
        lemma_lines(b, fi, path, lines, (n - 1) as nat, ids, c, f, x);
        lemma_in_lines(lines, n, x);
        let before = rows::lines_out(b, fi, path, lines, (n - 1) as nat, ids, c);
        let l = lines[n - 1];
        let o = rows::line_out(b, fi, path, l, before.ids, before.composed);
        let row = rows::code_row(fi, l);
        lemma_one(row, p);
        laws::lemma_count_add(before.rows, o.rows, p);
        assert(p(row) <==> fi == f && is_new_line(l, x));
        if let Some((side, k)) = rows::line_anchor(l.kind, l.old_line, l.new_line) {
            let (inj, out) = threads::inject(b, path, Some(seq![(side, k)]), before.ids);
            let ir = rows::injected_rows(fi, inj);
            let bx = rows::box_rows(
                fi,
                threads::new_thread_box(b.composer, before.composed, fi, side, k, b.width),
            );
            laws::lemma_count_none(ir, p);
            laws::lemma_count_none(bx, p);
            laws::lemma_count_add(seq![row], ir, p);
            laws::lemma_count_add(seq![row] + ir, bx, p);
        }
    }
}

proof fn lemma_hunks(
    b: BuildV,
    fi: nat,
    path: Seq<char>,
    hunks: Seq<HunkV>,
    n: nat,
    ids: Seq<Seq<char>>,
    c: bool,
    f: nat,
    x: u32,
)
    ensures
        laws::count(rows::hunks_out(b, fi, path, hunks, n, ids, c).rows, at_row(f, x)) > 0 <==> fi
            == f && in_hunks(hunks, n, x),
    decreases n,
{
    let p = at_row(f, x);
    if n > 0 {
        lemma_hunks(b, fi, path, hunks, (n - 1) as nat, ids, c, f, x);
        lemma_in_hunks(hunks, n, x);
        let before = rows::hunks_out(b, fi, path, hunks, (n - 1) as nat, ids, c);
        let h = hunks[n - 1];
        let k = h.lines.len();
        lemma_lines(b, fi, path, h.lines, k, before.ids, before.composed, f, x);
        let o = rows::lines_out(b, fi, path, h.lines, k, before.ids, before.composed);
        let head = rows::plain_row(fi, RowKindV::HunkHeader, rows::header_text(h));
        laws::lemma_count_push(before.rows, head, p);
        laws::lemma_count_add(before.rows.push(head), o.rows, p);
    }
}

proof fn lemma_file(
    b: BuildV,
    fi: nat,
    file: DiffFileV,
    ids: Seq<Seq<char>>,
    c: bool,
    f: nat,
    x: u32,
)
    ensures
        laws::count(rows::file_out(b, fi, file, ids, c).rows, at_row(f, x)) > 0 <==> fi == f
            && has_new_line(file, x),
{
    let p = at_row(f, x);
    let path = file.display_path();
    let head = seq![rows::plain_row(fi, RowKindV::FileHeader, path)];
    let h = rows::body_out(b, fi, file, ids, c);
    let (inj, out) = threads::inject(b, path, None, h.ids);
    let ir = rows::injected_rows(fi, inj);
    if file.is_binary {
        laws::lemma_count_none(h.rows, p);
    } else {
        lemma_hunks(b, fi, path, file.hunks, file.hunks.len(), ids, c, f, x);
    }
    laws::lemma_count_none(head, p);
    laws::lemma_count_none(ir, p);
    laws::lemma_count_add(head, h.rows, p);
    laws::lemma_count_add(head + h.rows, ir, p);
}

proof fn lemma_files(b: BuildV, files: Seq<DiffFileV>, n: nat, f: nat, x: u32)
    requires
        n <= files.len(),
    ensures
        laws::count(rows::files_out(b, files, None, n).rows, at_row(f, x)) > 0 <==> f < n
            && has_new_line(files[f as int], x),
    decreases n,
{
    if n > 0 {
        lemma_files(b, files, (n - 1) as nat, f, x);
        let before = rows::files_out(b, files, None, (n - 1) as nat);
        let fi = (n - 1) as nat;
        lemma_file(b, fi, files[n - 1], before.ids, before.composed, f, x);
        let o = rows::file_out(b, fi, files[n - 1], before.ids, before.composed);
        laws::lemma_count_add(before.rows, o.rows, at_row(f, x));
    }
}

proof fn lemma_boxes(
    b: BuildV,
    fi: nat,
    anchors: Seq<(Side, u32)>,
    n: nat,
    c: bool,
    f: nat,
    x: u32,
)
    ensures
        laws::count(split::boxes(b, fi, anchors, n, c).0, at_split(f, x)) == 0,
    decreases n,
{
    if n > 0 {
        lemma_boxes(b, fi, anchors, (n - 1) as nat, c, f, x);
        let (r, d) = split::boxes(b, fi, anchors, (n - 1) as nat, c);
        let (side, l) = anchors[n - 1];
        let bx = split::box_rows(
            fi,
            side,
            threads::new_thread_box(b.composer, d, fi, side, l, b.width),
        );
        laws::lemma_count_none(bx, at_split(f, x));
        laws::lemma_count_add(r, bx, at_split(f, x));
    }
}

proof fn lemma_pair(
    b: BuildV,
    fi: nat,
    path: Seq<char>,
    left: Option<CellV>,
    right: Option<CellV>,
    ids: Seq<Seq<char>>,
    c: bool,
    f: nat,
    x: u32,
)
    ensures
        laws::count(split::pair_out(b, fi, path, left, right, ids, c).rows, at_split(f, x)) > 0
            <==> fi == f && right is Some && right->0.line == Some(x),
{
    let p = at_split(f, x);
    let anchors = split::pair_anchors(left, right);
    let (inj, out) = threads::inject(b, path, Some(anchors), ids);
    let ir = split::injected_rows(fi, inj);
    let row = split::plain_row(fi, SplitKindV::Pair { left, right }, Seq::empty());
    lemma_one(row, p);
    lemma_boxes(b, fi, anchors, anchors.len(), c, f, x);
    laws::lemma_count_none(ir, p);
    laws::lemma_count_add(seq![row], ir, p);
    laws::lemma_count_add(
        seq![row] + ir,
        split::boxes(b, fi, anchors, anchors.len(), c).0,
        p,
    );
}

proof fn lemma_zip(
    b: BuildV,
    fi: nat,
    path: Seq<char>,
    dels: Seq<CellV>,
    adds: Seq<CellV>,
    n: nat,
    ids: Seq<Seq<char>>,
    c: bool,
    f: nat,
    x: u32,
)
    ensures
        laws::count(split::zip_out(b, fi, path, dels, adds, n, ids, c).rows, at_split(f, x)) > 0
            <==> fi == f && in_cells(adds, n, x),
    decreases n,
{
    if n > 0 {
        lemma_zip(b, fi, path, dels, adds, (n - 1) as nat, ids, c, f, x);
        let o = split::zip_out(b, fi, path, dels, adds, (n - 1) as nat, ids, c);
        let l = split::cell_at(dels, n - 1);
        let r = split::cell_at(adds, n - 1);
        lemma_pair(b, fi, path, l, r, o.ids, o.composed, f, x);
        let q = split::pair_out(b, fi, path, l, r, o.ids, o.composed);
        laws::lemma_count_add(o.rows, q.rows, at_split(f, x));
        if in_cells(adds, (n - 1) as nat, x) {
            let k = choose|k: int|
                0 <= k < n - 1 && k < adds.len() && (#[trigger] adds[k]).line == Some(x);
            assert(adds[k].line == Some(x));
        }
        if r is Some && r->0.line == Some(x) {
            assert(adds[n - 1].line == Some(x));
        }
    }
}

proof fn lemma_cells_push(cells: Seq<CellV>, c: CellV, x: u32)
    ensures
        in_cells(cells.push(c), cells.len() + 1, x) <==> in_cells(cells, cells.len(), x) || c.line
            == Some(x),
{
    let p = cells.push(c);
    assert(p[cells.len() as int] == c);
    if in_cells(cells, cells.len(), x) {
        let k = choose|k: int|
            0 <= k < cells.len() && k < cells.len() && (#[trigger] cells[k]).line == Some(x);
        assert(p[k].line == Some(x));
    }
    if in_cells(p, cells.len() + 1, x) {
        let k = choose|k: int|
            0 <= k < cells.len() + 1 && k < p.len() && (#[trigger] p[k]).line == Some(x);
        if k < cells.len() {
            assert(cells[k].line == Some(x));
        }
    }
}

proof fn lemma_flushed(
    b: BuildV,
    fi: nat,
    path: Seq<char>,
    o: split::Open,
    f: nat,
    x: u32,
)
    ensures
        laws::count(split::flushed(b, fi, path, o).rows, at_split(f, x)) > 0 <==> laws::count(
            o.out.rows,
            at_split(f, x),
        ) > 0 || (fi == f && in_cells(o.adds, o.adds.len(), x)),
{
    let n = split::zip_len(o.dels, o.adds);
    lemma_zip(b, fi, path, o.dels, o.adds, n, o.out.ids, o.out.composed, f, x);
    let z = split::zip_out(b, fi, path, o.dels, o.adds, n, o.out.ids, o.out.composed);
    laws::lemma_count_add(o.out.rows, z.rows, at_split(f, x));
    if in_cells(o.adds, o.adds.len(), x) {
        let k = choose|k: int|
            0 <= k < o.adds.len() && k < o.adds.len() && (#[trigger] o.adds[k]).line == Some(x);
        assert(o.adds[k].line == Some(x));
        assert(in_cells(o.adds, n, x));
    }
    if in_cells(o.adds, n, x) {
        let k = choose|k: int|
            0 <= k < n && k < o.adds.len() && (#[trigger] o.adds[k]).line == Some(x);
        assert(o.adds[k].line == Some(x));
        assert(in_cells(o.adds, o.adds.len(), x));
    }
}

proof fn lemma_open(
    b: BuildV,
    fi: nat,
    path: Seq<char>,
    lines: Seq<DiffLineV>,
    n: nat,
    ids: Seq<Seq<char>>,
    c: bool,
    f: nat,
    x: u32,
)
    ensures
        ({
            let o = split::lines_open(b, fi, path, lines, n, ids, c);
            (laws::count(o.out.rows, at_split(f, x)) > 0 || (fi == f && in_cells(
                o.adds,
                o.adds.len(),
                x,
            ))) <==> fi == f && in_lines(lines, n, x)
        }),
    decreases n,
{
    if n > 0 {
        lemma_open(b, fi, path, lines, (n - 1) as nat, ids, c, f, x);
        lemma_in_lines(lines, n, x);
        let o = split::lines_open(b, fi, path, lines, (n - 1) as nat, ids, c);
        let l = lines[n - 1];
        match l.kind {
            LineKind::Deletion => {},
            LineKind::Addition => {
                lemma_cells_push(o.adds, split::line_cell(l), x);
            },
            LineKind::Context => {
                lemma_flushed(b, fi, path, o, f, x);
                let g = split::flushed(b, fi, path, o);
                let left = Some(split::context_cell(l));
                let right = Some(split::line_cell(l));
                lemma_pair(b, fi, path, left, right, g.ids, g.composed, f, x);
                let q = split::pair_out(b, fi, path, left, right, g.ids, g.composed);
                laws::lemma_count_add(g.rows, q.rows, at_split(f, x));
            },
        }
    }
}

proof fn lemma_split_hunks(
    b: BuildV,
    fi: nat,
    path: Seq<char>,
    hunks: Seq<HunkV>,
    n: nat,
    ids: Seq<Seq<char>>,
    c: bool,
    f: nat,
    x: u32,
)
    ensures
        laws::count(split::hunks_out(b, fi, path, hunks, n, ids, c).rows, at_split(f, x)) > 0
            <==> fi == f && in_hunks(hunks, n, x),
    decreases n,
{
    let p = at_split(f, x);
    if n > 0 {
        lemma_split_hunks(b, fi, path, hunks, (n - 1) as nat, ids, c, f, x);
        lemma_in_hunks(hunks, n, x);
        let before = split::hunks_out(b, fi, path, hunks, (n - 1) as nat, ids, c);
        let h = hunks[n - 1];
        let k = h.lines.len();
        lemma_open(b, fi, path, h.lines, k, before.ids, before.composed, f, x);
        let o = split::lines_open(b, fi, path, h.lines, k, before.ids, before.composed);
        lemma_flushed(b, fi, path, o, f, x);
        let head = split::plain_row(fi, SplitKindV::HunkHeader, rows::header_text(h));
        laws::lemma_count_push(before.rows, head, p);
        laws::lemma_count_add(before.rows.push(head), split::flushed(b, fi, path, o).rows, p);
    }
}

proof fn lemma_split_file(
    b: BuildV,
    fi: nat,
    file: DiffFileV,
    ids: Seq<Seq<char>>,
    c: bool,
    f: nat,
    x: u32,
)
    ensures
        laws::count(split::file_out(b, fi, file, ids, c).rows, at_split(f, x)) > 0 <==> fi == f
            && has_new_line(file, x),
{
    let p = at_split(f, x);
    let path = file.display_path();
    let head = seq![split::plain_row(fi, SplitKindV::FileHeader, path)];
    let h = split::body_out(b, fi, file, ids, c);
    let (inj, out) = threads::inject(b, path, None, h.ids);
    let ir = split::injected_rows(fi, inj);
    if file.is_binary {
        laws::lemma_count_none(h.rows, p);
    } else {
        lemma_split_hunks(b, fi, path, file.hunks, file.hunks.len(), ids, c, f, x);
    }
    laws::lemma_count_none(head, p);
    laws::lemma_count_none(ir, p);
    laws::lemma_count_add(head, h.rows, p);
    laws::lemma_count_add(head + h.rows, ir, p);
}

proof fn lemma_split_files(b: BuildV, files: Seq<DiffFileV>, n: nat, f: nat, x: u32)
    requires
        n <= files.len(),
    ensures
        laws::count(split::files_out(b, files, None, n).rows, at_split(f, x)) > 0 <==> f < n
            && has_new_line(files[f as int], x),
    decreases n,
{
    if n > 0 {
        lemma_split_files(b, files, (n - 1) as nat, f, x);
        let before = split::files_out(b, files, None, (n - 1) as nat);
        let fi = (n - 1) as nat;
        lemma_split_file(b, fi, files[n - 1], before.ids, before.composed, f, x);
        let o = split::file_out(b, fi, files[n - 1], before.ids, before.composed);
        laws::lemma_count_add(before.rows, o.rows, at_split(f, x));
    }
}

/// A line of the new side has a row of its own in either layout, whatever is injected, exactly
/// where the diff of its file holds it.
pub proof fn law_new_lines_in_both_layouts(
    files: Seq<DiffFileV>,
    t: Seq<ThreadV>,
    width: nat,
    composer: Option<ComposerV>,
    f: nat,
    x: u32,
)
    ensures
        laws::count(rows::rows_of(files, t, width, composer, None), at_row(f, x)) > 0 <==> f
            < files.len() && has_new_line(files[f as int], x),
        laws::count(split::rows_of(files, t, width, composer, None), at_split(f, x)) > 0 <==> f
            < files.len() && has_new_line(files[f as int], x),
{
    let b = rows::build_view(files, t, width, composer, None);
    lemma_files(b, files, files.len(), f, x);
    lemma_split_files(b, files, files.len(), f, x);
}

} // verus!
