//! A deletion that stands beside no addition has a row of its own in either layout.
use crate::comments::model::ThreadV;
use crate::diff::model::{DiffFileV, DiffLineV, HunkV, LineKind, Side};
use crate::ui::render_rows::rows;
use crate::ui::render_rows::rows::RowV;
use crate::ui::render_rows::split;
use crate::ui::render_rows::split::{CellV, Open, SplitKindV, SplitRowV};
use crate::ui::render_rows::threads;
use crate::ui::render_rows::threads::{BuildV, ComposerV};
use vstd::prelude::*;

verus! {

/// Where the run of changed lines around line `k` starts: behind the unchanged line in front.
pub open spec fn run_start(lines: Seq<DiffLineV>, k: int) -> int
    decreases k,
{
    if k <= 0 || lines[k - 1].kind == LineKind::Context {
        k
    } else {
        run_start(lines, k - 1)
    }
}

/// Where the run of changed lines from line `k` on ends: at the next unchanged line.
pub open spec fn run_end(lines: Seq<DiffLineV>, k: int) -> int
    decreases lines.len() - k,
{
    if k >= lines.len() || lines[k].kind == LineKind::Context {
        k
    } else {
        run_end(lines, k + 1)
    }
}

/// How many of the lines from `from` to `to` are of a kind.
pub open spec fn of_kind(lines: Seq<DiffLineV>, from: int, to: int, kind: LineKind) -> nat
    decreases to - from,
{
    if to <= from {
        0
    } else {
        of_kind(lines, from, to - 1, kind) + if lines[to - 1].kind == kind {
            1nat
        } else {
            0
        }
    }
}

/// Whether line `k` is a deletion that the split layout pairs with no addition: its run has no
/// more additions than deletions in front of it.
pub open spec fn alone(lines: Seq<DiffLineV>, k: int) -> bool {
    let s = run_start(lines, k);
    &&& lines[k].kind == LineKind::Deletion
    &&& of_kind(lines, s, run_end(lines, k), LineKind::Addition) <= of_kind(
        lines,
        s,
        k,
        LineKind::Deletion,
    )
}

/// Whether a file has text to show, and in it a deletion under number `x` of the old side that
/// stands beside no addition.
pub open spec fn has_lone_deletion(file: DiffFileV, x: u32) -> bool {
    !file.is_binary && exists|h: int, k: int|
        0 <= h < file.hunks.len() && 0 <= k < file.hunks[h].lines.len() && (
        #[trigger] file.hunks[h].lines[k]).old_line == Some(x) && alone(file.hunks[h].lines, k)
}

/// Whether a row is line `x` of the old side of file `f`.
pub open spec fn is_old(r: RowV, f: nat, x: u32) -> bool {
    r.file_idx == f && rows::row_anchor(r) == Some((Side::Old, x))
}

/// Whether a split row is line `x` of the old side of file `f`.
pub open spec fn is_old_split(r: SplitRowV, f: nat, x: u32) -> bool {
    r.file_idx == f && split::split_anchor(r) == Some((Side::Old, x))
}

/// Whether rows hold line `x` of the old side of file `f`.
pub open spec fn shows(s: Seq<RowV>, f: nat, x: u32) -> bool {
    exists|i: int| 0 <= i < s.len() && is_old(#[trigger] s[i], f, x)
}

/// Whether split rows hold line `x` of the old side of file `f`.
pub open spec fn shows_split(s: Seq<SplitRowV>, f: nat, x: u32) -> bool {
    exists|i: int| 0 <= i < s.len() && is_old_split(#[trigger] s[i], f, x)
}

proof fn lemma_add(a: Seq<RowV>, b: Seq<RowV>, f: nat, x: u32)
    ensures
        shows(a, f, x) || shows(b, f, x) ==> shows(a + b, f, x),
{
    if shows(a, f, x) {
        let i = choose|i: int| 0 <= i < a.len() && is_old(#[trigger] a[i], f, x);
        assert((a + b)[i] == a[i]);
    } else if shows(b, f, x) {
        let i = choose|i: int| 0 <= i < b.len() && is_old(#[trigger] b[i], f, x);
        assert((a + b)[a.len() + i] == b[i]);
    }
}

proof fn lemma_split_add(a: Seq<SplitRowV>, b: Seq<SplitRowV>, f: nat, x: u32)
    ensures
        shows_split(a, f, x) || shows_split(b, f, x) ==> shows_split(a + b, f, x),
{
    if shows_split(a, f, x) {
        let i = choose|i: int| 0 <= i < a.len() && is_old_split(#[trigger] a[i], f, x);
        assert((a + b)[i] == a[i]);
    } else if shows_split(b, f, x) {
        let i = choose|i: int| 0 <= i < b.len() && is_old_split(#[trigger] b[i], f, x);
        assert((a + b)[a.len() + i] == b[i]);
    }
}

proof fn lemma_lines(
    b: BuildV,
    fi: nat,
    path: Seq<char>,
    lines: Seq<DiffLineV>,
    n: nat,
    ids: Seq<Seq<char>>,
    c: bool,
    k: int,
    x: u32,
)
    requires
        0 <= k < n <= lines.len(),
        lines[k].kind == LineKind::Deletion,
        lines[k].old_line == Some(x),
    ensures
        shows(rows::lines_out(b, fi, path, lines, n, ids, c).rows, fi, x),
    decreases n,
{
    let before = rows::lines_out(b, fi, path, lines, (n - 1) as nat, ids, c);
    let o = rows::line_out(b, fi, path, lines[n - 1], before.ids, before.composed);
    if k < n - 1 {
        lemma_lines(b, fi, path, lines, (n - 1) as nat, ids, c, k, x);
    } else {
        assert(is_old(o.rows[0], fi, x));
    }
    lemma_add(before.rows, o.rows, fi, x);
}

proof fn lemma_hunks(
    b: BuildV,
    fi: nat,
    path: Seq<char>,
    hunks: Seq<HunkV>,
    n: nat,
    ids: Seq<Seq<char>>,
    c: bool,
    h: int,
    k: int,
    x: u32,
)
    requires
        0 <= h < n <= hunks.len(),
        0 <= k < hunks[h].lines.len(),
        hunks[h].lines[k].kind == LineKind::Deletion,
        hunks[h].lines[k].old_line == Some(x),
    ensures
        shows(rows::hunks_out(b, fi, path, hunks, n, ids, c).rows, fi, x),
    decreases n,
{
    let before = rows::hunks_out(b, fi, path, hunks, (n - 1) as nat, ids, c);
    let g = hunks[n - 1];
    let head = rows::plain_row(fi, rows::RowKindV::HunkHeader, rows::header_text(g));
    let o = rows::lines_out(b, fi, path, g.lines, g.lines.len(), before.ids, before.composed);
    if h < n - 1 {
        lemma_hunks(b, fi, path, hunks, (n - 1) as nat, ids, c, h, k, x);
    } else {
        lemma_lines(b, fi, path, g.lines, g.lines.len(), before.ids, before.composed, k, x);
    }
    assert(before.rows.push(head) == before.rows + seq![head]);
    lemma_add(before.rows, seq![head], fi, x);
    lemma_add(before.rows + seq![head], o.rows, fi, x);
}

proof fn lemma_files(b: BuildV, files: Seq<DiffFileV>, n: nat, f: nat, x: u32)
    requires
        f < n <= files.len(),
        has_lone_deletion(files[f as int], x),
    ensures
        shows(rows::files_out(b, files, None, n).rows, f, x),
    decreases n,
{
    let fi = (n - 1) as nat;
    let before = rows::files_out(b, files, None, fi);
    let file = files[n - 1];
    let o = rows::file_out(b, fi, file, before.ids, before.composed);
    if f < n - 1 {
        lemma_files(b, files, fi, f, x);
    } else {
        let path = file.display_path();
        assert(has_lone_deletion(file, x));
        let (h, k) = choose|h: int, k: int|
            0 <= h < file.hunks.len() && 0 <= k < file.hunks[h].lines.len() && (
            #[trigger] file.hunks[h].lines[k]).old_line == Some(x) && alone(
                file.hunks[h].lines,
                k,
            );
        let m = file.hunks.len();
        lemma_hunks(b, fi, path, file.hunks, m, before.ids, before.composed, h, k, x);
        let body = rows::body_out(b, fi, file, before.ids, before.composed);
        let head = seq![rows::plain_row(fi, rows::RowKindV::FileHeader, path)];
        let ir = rows::injected_rows(fi, threads::inject(b, path, None, body.ids).0);
        lemma_add(head, body.rows, fi, x);
        lemma_add(head + body.rows, ir, fi, x);
    }
    lemma_add(before.rows, o.rows, f, x);
}

proof fn lemma_start(lines: Seq<DiffLineV>, k: int)
    requires
        0 <= k <= lines.len(),
    ensures
        0 <= run_start(lines, k) <= k,
        run_start(lines, k) > 0 ==> lines[run_start(lines, k) - 1].kind == LineKind::Context,
        forall|j: int|
            run_start(lines, k) <= j < k ==> (#[trigger] lines[j]).kind != LineKind::Context,
    decreases k,
{
    if k > 0 && lines[k - 1].kind != LineKind::Context {
        lemma_start(lines, k - 1);
    }
}

proof fn lemma_end(lines: Seq<DiffLineV>, k: int)
    requires
        0 <= k <= lines.len(),
    ensures
        k <= run_end(lines, k) <= lines.len(),
        run_end(lines, k) < lines.len() ==> lines[run_end(lines, k)].kind == LineKind::Context,
        forall|j: int|
            k <= j < run_end(lines, k) ==> (#[trigger] lines[j]).kind != LineKind::Context,
    decreases lines.len() - k,
{
    if k < lines.len() && lines[k].kind != LineKind::Context {
        lemma_end(lines, k + 1);
    }
}

/// In a run that starts at line `s`, the open deletions and additions are those of the run.
proof fn lemma_run(
    b: BuildV,
    fi: nat,
    path: Seq<char>,
    lines: Seq<DiffLineV>,
    s: int,
    n: nat,
    ids: Seq<Seq<char>>,
    c: bool,
)
    requires
        0 <= s <= n <= lines.len(),
        s > 0 ==> lines[s - 1].kind == LineKind::Context,
        forall|j: int| s <= j < n ==> (#[trigger] lines[j]).kind != LineKind::Context,
    ensures
        ({
            let o = split::lines_open(b, fi, path, lines, n, ids, c);
            &&& o.dels.len() == of_kind(lines, s, n as int, LineKind::Deletion)
            &&& o.adds.len() == of_kind(lines, s, n as int, LineKind::Addition)
            &&& forall|j: int|
                s <= j < n && (#[trigger] lines[j]).kind == LineKind::Deletion ==> {
                    let d = of_kind(lines, s, j, LineKind::Deletion) as int;
                    d < o.dels.len() && o.dels[d] == split::line_cell(lines[j])
                }
        }),
    decreases n,
{
    if n > s {
        lemma_run(b, fi, path, lines, s, (n - 1) as nat, ids, c);
    }
}

proof fn lemma_zip(
    b: BuildV,
    fi: nat,
    path: Seq<char>,
    dels: Seq<CellV>,
    adds: Seq<CellV>,
    n: nat,
    ids: Seq<Seq<char>>,
    c: bool,
    d: int,
    x: u32,
)
    requires
        0 <= d < n,
        adds.len() <= d < dels.len(),
        dels[d].line == Some(x),
    ensures
        shows_split(split::zip_out(b, fi, path, dels, adds, n, ids, c).rows, fi, x),
    decreases n,
{
    let m = (n - 1) as nat;
    let before = split::zip_out(b, fi, path, dels, adds, m, ids, c);
    let left = split::cell_at(dels, n - 1);
    let right = split::cell_at(adds, n - 1);
    let o = split::pair_out(b, fi, path, left, right, before.ids, before.composed);
    if d < n - 1 {
        lemma_zip(b, fi, path, dels, adds, m, ids, c, d, x);
    } else {
        assert(o.rows[0] == split::plain_row(
            fi,
            SplitKindV::Pair { left, right },
            Seq::empty(),
        ));
        assert(is_old_split(o.rows[0], fi, x));
    }
    lemma_split_add(before.rows, o.rows, fi, x);
}

proof fn lemma_flushed(b: BuildV, fi: nat, path: Seq<char>, o: Open, x: u32)
    ensures
        shows_split(o.out.rows, fi, x) ==> shows_split(split::flushed(b, fi, path, o).rows, fi, x),
        forall|d: int|
            o.adds.len() <= d < o.dels.len() && (#[trigger] o.dels[d]).line == Some(x)
                ==> shows_split(split::flushed(b, fi, path, o).rows, fi, x),
{
    let n = split::zip_len(o.dels, o.adds);
    let z = split::zip_out(b, fi, path, o.dels, o.adds, n, o.out.ids, o.out.composed);
    lemma_split_add(o.out.rows, z.rows, fi, x);
    assert forall|d: int|
        o.adds.len() <= d < o.dels.len() && (#[trigger] o.dels[d]).line == Some(x) implies
        shows_split(split::flushed(b, fi, path, o).rows, fi, x) by {
        lemma_zip(b, fi, path, o.dels, o.adds, n, o.out.ids, o.out.composed, d, x);
    }
}

/// Behind its run, a deletion that is alone in it is among the rows.
proof fn lemma_behind(
    b: BuildV,
    fi: nat,
    path: Seq<char>,
    lines: Seq<DiffLineV>,
    n: nat,
    ids: Seq<Seq<char>>,
    c: bool,
    k: int,
    x: u32,
)
    requires
        0 <= k < lines.len(),
        run_end(lines, k) < n <= lines.len(),
        lines[k].old_line == Some(x),
        alone(lines, k),
    ensures
        shows_split(split::lines_open(b, fi, path, lines, n, ids, c).out.rows, fi, x),
    decreases n,
{
    let m = (n - 1) as nat;
    let e = run_end(lines, k);
    let o = split::lines_open(b, fi, path, lines, m, ids, c);
    let l = lines[n - 1];
    lemma_end(lines, k);
    if e < m {
        lemma_behind(b, fi, path, lines, m, ids, c, k, x);
    } else {
        lemma_alone(b, fi, path, lines, ids, c, k);
    }
    lemma_flushed(b, fi, path, o, x);
    if l.kind == LineKind::Context {
        let f = split::flushed(b, fi, path, o);
        let p = split::pair_out(
            b,
            fi,
            path,
            Some(split::context_cell(l)),
            Some(split::line_cell(l)),
            f.ids,
            f.composed,
        );
        lemma_split_add(f.rows, p.rows, fi, x);
    }
}

/// At the end of its run, a deletion that is alone in it is open, behind all additions.
proof fn lemma_alone(
    b: BuildV,
    fi: nat,
    path: Seq<char>,
    lines: Seq<DiffLineV>,
    ids: Seq<Seq<char>>,
    c: bool,
    k: int,
)
    requires
        0 <= k < lines.len(),
        alone(lines, k),
    ensures
        ({
            let o = split::lines_open(b, fi, path, lines, run_end(lines, k) as nat, ids, c);
            let d = of_kind(lines, run_start(lines, k), k, LineKind::Deletion) as int;
            o.adds.len() <= d < o.dels.len() && o.dels[d] == split::line_cell(lines[k])
        }),
{
    let s = run_start(lines, k);
    let e = run_end(lines, k);
    lemma_start(lines, k);
    lemma_end(lines, k);
    assert(e > k) by {
        lemma_end(lines, k + 1);
    }
    lemma_run(b, fi, path, lines, s, e as nat, ids, c);
}

proof fn lemma_hunk(
    b: BuildV,
    fi: nat,
    path: Seq<char>,
    lines: Seq<DiffLineV>,
    ids: Seq<Seq<char>>,
    c: bool,
    k: int,
    x: u32,
)
    requires
        0 <= k < lines.len(),
        lines[k].old_line == Some(x),
        alone(lines, k),
    ensures
        shows_split(
            split::flushed(
                b,
                fi,
                path,
                split::lines_open(b, fi, path, lines, lines.len(), ids, c),
            ).rows,
            fi,
            x,
        ),
{
    lemma_end(lines, k);
    lemma_flushed(b, fi, path, split::lines_open(b, fi, path, lines, lines.len(), ids, c), x);
    if run_end(lines, k) < lines.len() {
        lemma_behind(b, fi, path, lines, lines.len(), ids, c, k, x);
    } else {
        lemma_alone(b, fi, path, lines, ids, c, k);
    }
}

proof fn lemma_split_hunks(
    b: BuildV,
    fi: nat,
    path: Seq<char>,
    hunks: Seq<HunkV>,
    n: nat,
    ids: Seq<Seq<char>>,
    c: bool,
    h: int,
    k: int,
    x: u32,
)
    requires
        0 <= h < n <= hunks.len(),
        0 <= k < hunks[h].lines.len(),
        hunks[h].lines[k].old_line == Some(x),
        alone(hunks[h].lines, k),
    ensures
        shows_split(split::hunks_out(b, fi, path, hunks, n, ids, c).rows, fi, x),
    decreases n,
{
    let before = split::hunks_out(b, fi, path, hunks, (n - 1) as nat, ids, c);
    let g = hunks[n - 1];
    let head = split::plain_row(fi, SplitKindV::HunkHeader, rows::header_text(g));
    let o = split::flushed(
        b,
        fi,
        path,
        split::lines_open(b, fi, path, g.lines, g.lines.len(), before.ids, before.composed),
    );
    if h < n - 1 {
        lemma_split_hunks(b, fi, path, hunks, (n - 1) as nat, ids, c, h, k, x);
    } else {
        lemma_hunk(b, fi, path, g.lines, before.ids, before.composed, k, x);
    }
    assert(before.rows.push(head) == before.rows + seq![head]);
    lemma_split_add(before.rows, seq![head], fi, x);
    lemma_split_add(before.rows + seq![head], o.rows, fi, x);
}

proof fn lemma_split_files(b: BuildV, files: Seq<DiffFileV>, n: nat, f: nat, x: u32)
    requires
        f < n <= files.len(),
        has_lone_deletion(files[f as int], x),
    ensures
        shows_split(split::files_out(b, files, None, n).rows, f, x),
    decreases n,
{
    let fi = (n - 1) as nat;
    let before = split::files_out(b, files, None, fi);
    let file = files[n - 1];
    let o = split::file_out(b, fi, file, before.ids, before.composed);
    if f < n - 1 {
        lemma_split_files(b, files, fi, f, x);
    } else {
        let path = file.display_path();
        assert(has_lone_deletion(file, x));
        let (h, k) = choose|h: int, k: int|
            0 <= h < file.hunks.len() && 0 <= k < file.hunks[h].lines.len() && (
            #[trigger] file.hunks[h].lines[k]).old_line == Some(x) && alone(
                file.hunks[h].lines,
                k,
            );
        assert(file.hunks[h].lines[k].old_line == Some(x));
        let m = file.hunks.len();
        lemma_split_hunks(b, fi, path, file.hunks, m, before.ids, before.composed, h, k, x);
        let body = split::body_out(b, fi, file, before.ids, before.composed);
        let head = seq![split::plain_row(fi, SplitKindV::FileHeader, path)];
        let ir = split::injected_rows(fi, threads::inject(b, path, None, body.ids).0);
        lemma_split_add(head, body.rows, fi, x);
        lemma_split_add(head + body.rows, ir, fi, x);
    }
    lemma_split_add(before.rows, o.rows, f, x);
}

/// A deletion that stands beside no addition has a row of its own in either layout, whatever is
/// injected.
pub proof fn law_lone_deletions_in_both_layouts(
    files: Seq<DiffFileV>,
    t: Seq<ThreadV>,
    width: nat,
    composer: Option<ComposerV>,
    f: nat,
    x: u32,
)
    requires
        f < files.len(),
        has_lone_deletion(files[f as int], x),
    ensures
        shows(rows::rows_of(files, t, width, composer, None), f, x),
        shows_split(split::rows_of(files, t, width, composer, None), f, x),
{
    let b = rows::build_view(files, t, width, composer, None);
    lemma_files(b, files, files.len(), f, x);
    lemma_split_files(b, files, files.len(), f, x);
}

} // verus!
