//! Threads and the composer are shown between the lines of a diff: the diff itself is the same
//! with them and without.
use crate::comments::model::ThreadV;
use crate::diff::model::{DiffFileV, DiffLineV, HunkV, Side};
use crate::ui::render_rows::rows;
use crate::ui::render_rows::rows::RowV;
use crate::ui::render_rows::split;
use crate::ui::render_rows::split::{CellV, Open, SplitRowV};
use crate::ui::render_rows::threads;
use crate::ui::render_rows::threads::{BuildV, ComposerV};
use vstd::prelude::*;

verus! {

/// Whether a row is one of the diff: neither of a thread's box nor of the composer's.
pub open spec fn of_diff() -> spec_fn(RowV) -> bool {
    |r: RowV| !(r.kind is Comment) && !(r.kind is Composer)
}

/// Whether a split row is one of the diff.
pub open spec fn of_split_diff() -> spec_fn(SplitRowV) -> bool {
    |r: SplitRowV| !(r.kind is Comment) && !(r.kind is Composer)
}

/// A build without thread and composer.
spec fn boxless(b: BuildV) -> bool {
    b.threads.len() == 0 && b.composer is None
}

proof fn lemma_none<T>(s: Seq<T>, p: spec_fn(T) -> bool)
    requires
        forall|i: int| 0 <= i < s.len() ==> !p(#[trigger] s[i]),
    ensures
        s.filter(p) == Seq::<T>::empty(),
    decreases s.len(),
{
    reveal(Seq::filter);
    if s.len() > 0 {
        assert forall|i: int| 0 <= i < s.drop_last().len() implies !p(
            #[trigger] s.drop_last()[i],
        ) by {
            assert(s.drop_last()[i] == s[i]);
        }
        lemma_none(s.drop_last(), p);
    }
}

proof fn lemma_one<T>(r: T, p: spec_fn(T) -> bool)
    requires
        p(r),
    ensures
        seq![r].filter(p) == seq![r],
{
    reveal(Seq::filter);
    assert(seq![r].drop_last().len() == 0);
    lemma_none(seq![r].drop_last(), p);
    assert(Seq::<T>::empty().push(r) == seq![r]);
}

proof fn lemma_line(
    b: BuildV,
    fi: nat,
    path: Seq<char>,
    l: DiffLineV,
    ids: Seq<Seq<char>>,
    composed: bool,
)
    ensures
        rows::line_out(b, fi, path, l, ids, composed).rows.filter(of_diff())
            == seq![rows::code_row(fi, l)],
        boxless(b) ==> rows::line_out(b, fi, path, l, ids, composed).rows
            == seq![rows::code_row(fi, l)],
{
    let p = of_diff();
    let row = seq![rows::code_row(fi, l)];
    lemma_one(rows::code_row(fi, l), p);
    if let Some((side, n)) = rows::line_anchor(l.kind, l.old_line, l.new_line) {
        let (inj, out) = threads::inject(b, path, Some(seq![(side, n)]), ids);
        let ir = rows::injected_rows(fi, inj);
        let br = rows::box_rows(
            fi,
            threads::new_thread_box(b.composer, composed, fi, side, n, b.width),
        );
        lemma_none(ir, p);
        lemma_none(br, p);
        Seq::filter_distributes_over_add(row, ir, p);
        Seq::filter_distributes_over_add(row + ir, br, p);
        assert(row + Seq::<RowV>::empty() + Seq::<RowV>::empty() == row);
        assert(boxless(b) ==> row + ir + br == row);
    }
}

proof fn lemma_lines(
    b: BuildV,
    c: BuildV,
    fi: nat,
    path: Seq<char>,
    lines: Seq<DiffLineV>,
    n: nat,
    ids: Seq<Seq<char>>,
    composed: bool,
    ids1: Seq<Seq<char>>,
    composed1: bool,
)
    requires
        boxless(c),
    ensures
        rows::lines_out(b, fi, path, lines, n, ids, composed).rows.filter(of_diff())
            == rows::lines_out(c, fi, path, lines, n, ids1, composed1).rows,
    decreases n,
{
    if n == 0 {
        lemma_none(Seq::<RowV>::empty(), of_diff());
    } else {
        lemma_lines(b, c, fi, path, lines, (n - 1) as nat, ids, composed, ids1, composed1);
        let x = rows::lines_out(b, fi, path, lines, (n - 1) as nat, ids, composed);
        let y = rows::lines_out(c, fi, path, lines, (n - 1) as nat, ids1, composed1);
        let l = lines[n - 1];
        lemma_line(b, fi, path, l, x.ids, x.composed);
        lemma_line(c, fi, path, l, y.ids, y.composed);
        Seq::filter_distributes_over_add(
            x.rows,
            rows::line_out(b, fi, path, l, x.ids, x.composed).rows,
            of_diff(),
        );
    }
}

proof fn lemma_hunks(
    b: BuildV,
    c: BuildV,
    fi: nat,
    path: Seq<char>,
    hunks: Seq<HunkV>,
    n: nat,
    ids: Seq<Seq<char>>,
    composed: bool,
    ids1: Seq<Seq<char>>,
    composed1: bool,
)
    requires
        boxless(c),
    ensures
        rows::hunks_out(b, fi, path, hunks, n, ids, composed).rows.filter(of_diff())
            == rows::hunks_out(c, fi, path, hunks, n, ids1, composed1).rows,
    decreases n,
{
    let p = of_diff();
    if n == 0 {
        lemma_none(Seq::<RowV>::empty(), p);
    } else {
        lemma_hunks(b, c, fi, path, hunks, (n - 1) as nat, ids, composed, ids1, composed1);
        let x = rows::hunks_out(b, fi, path, hunks, (n - 1) as nat, ids, composed);
        let y = rows::hunks_out(c, fi, path, hunks, (n - 1) as nat, ids1, composed1);
        let h = hunks[n - 1];
        let k = h.lines.len();
        lemma_lines(b, c, fi, path, h.lines, k, x.ids, x.composed, y.ids, y.composed);
        let head = rows::plain_row(fi, rows::RowKindV::HunkHeader, rows::header_text(h));
        lemma_one(head, p);
        assert(x.rows.push(head) == x.rows + seq![head]);
        assert(y.rows.push(head) == y.rows + seq![head]);
        Seq::filter_distributes_over_add(x.rows, seq![head], p);
        Seq::filter_distributes_over_add(
            x.rows + seq![head],
            rows::lines_out(b, fi, path, h.lines, k, x.ids, x.composed).rows,
            p,
        );
    }
}

proof fn lemma_file(
    b: BuildV,
    c: BuildV,
    fi: nat,
    file: DiffFileV,
    ids: Seq<Seq<char>>,
    composed: bool,
    ids1: Seq<Seq<char>>,
    composed1: bool,
)
    requires
        boxless(c),
    ensures
        rows::file_out(b, fi, file, ids, composed).rows.filter(of_diff()) == rows::file_out(
            c,
            fi,
            file,
            ids1,
            composed1,
        ).rows,
{
    let p = of_diff();
    let path = file.display_path();
    let head = rows::plain_row(fi, rows::RowKindV::FileHeader, path);
    lemma_one(head, p);
    let x = rows::body_out(b, fi, file, ids, composed);
    let y = rows::body_out(c, fi, file, ids1, composed1);
    if file.is_binary {
        lemma_one(rows::plain_row(fi, rows::RowKindV::HunkHeader, "Binary file"@), p);
    } else {
        let n = file.hunks.len();
        lemma_hunks(b, c, fi, path, file.hunks, n, ids, composed, ids1, composed1);
    }
    let ir = rows::injected_rows(fi, threads::inject(b, path, None, x.ids).0);
    let jr = rows::injected_rows(fi, threads::inject(c, path, None, y.ids).0);
    lemma_none(ir, p);
    Seq::filter_distributes_over_add(seq![head], x.rows, p);
    Seq::filter_distributes_over_add(seq![head] + x.rows, ir, p);
    assert(seq![head] + y.rows + Seq::<RowV>::empty() == seq![head] + y.rows);
    assert(seq![head] + y.rows + jr == seq![head] + y.rows);
}

proof fn lemma_files(b: BuildV, c: BuildV, files: Seq<DiffFileV>, n: nat)
    requires
        boxless(c),
    ensures
        rows::files_out(b, files, None, n).rows.filter(of_diff()) == rows::files_out(
            c,
            files,
            None,
            n,
        ).rows,
    decreases n,
{
    if n == 0 {
        lemma_none(Seq::<RowV>::empty(), of_diff());
    } else {
        let fi = (n - 1) as nat;
        lemma_files(b, c, files, fi);
        let x = rows::files_out(b, files, None, fi);
        let y = rows::files_out(c, files, None, fi);
        let f = files[n - 1];
        lemma_file(b, c, fi, f, x.ids, x.composed, y.ids, y.composed);
        Seq::filter_distributes_over_add(
            x.rows,
            rows::file_out(b, fi, f, x.ids, x.composed).rows,
            of_diff(),
        );
    }
}

proof fn lemma_boxes(b: BuildV, fi: nat, anchors: Seq<(Side, u32)>, n: nat, composed: bool)
    ensures
        split::boxes(b, fi, anchors, n, composed).0.filter(of_split_diff())
            == Seq::<SplitRowV>::empty(),
        boxless(b) ==> split::boxes(b, fi, anchors, n, composed).0 == Seq::<SplitRowV>::empty(),
    decreases n,
{
    let p = of_split_diff();
    if n == 0 {
        lemma_none(Seq::<SplitRowV>::empty(), p);
    } else {
        lemma_boxes(b, fi, anchors, (n - 1) as nat, composed);
        let (x, c) = split::boxes(b, fi, anchors, (n - 1) as nat, composed);
        let (side, l) = anchors[n - 1];
        let br = split::box_rows(
            fi,
            side,
            threads::new_thread_box(b.composer, c, fi, side, l, b.width),
        );
        lemma_none(br, p);
        Seq::filter_distributes_over_add(x, br, p);
        assert(Seq::<SplitRowV>::empty() + Seq::<SplitRowV>::empty()
            == Seq::<SplitRowV>::empty());
        assert(boxless(b) ==> x + br == Seq::<SplitRowV>::empty());
    }
}

proof fn lemma_pair(
    b: BuildV,
    fi: nat,
    path: Seq<char>,
    left: Option<CellV>,
    right: Option<CellV>,
    ids: Seq<Seq<char>>,
    composed: bool,
)
    ensures
        ({
            let o = split::pair_out(b, fi, path, left, right, ids, composed);
            let row = split::plain_row(fi, split::SplitKindV::Pair { left, right }, Seq::empty());
            &&& o.rows.filter(of_split_diff()) == seq![row]
            &&& boxless(b) ==> o.rows == seq![row]
        }),
{
    let p = of_split_diff();
    let row = split::plain_row(fi, split::SplitKindV::Pair { left, right }, Seq::empty());
    let anchors = split::pair_anchors(left, right);
    let ir = split::injected_rows(fi, threads::inject(b, path, Some(anchors), ids).0);
    let br = split::boxes(b, fi, anchors, anchors.len(), composed).0;
    lemma_one(row, p);
    lemma_none(ir, p);
    lemma_boxes(b, fi, anchors, anchors.len(), composed);
    Seq::filter_distributes_over_add(seq![row], ir, p);
    Seq::filter_distributes_over_add(seq![row] + ir, br, p);
    assert(seq![row] + Seq::<SplitRowV>::empty() + Seq::<SplitRowV>::empty() == seq![row]);
    assert(boxless(b) ==> seq![row] + ir + br == seq![row]);
}

proof fn lemma_zip(
    b: BuildV,
    c: BuildV,
    fi: nat,
    path: Seq<char>,
    dels: Seq<CellV>,
    adds: Seq<CellV>,
    n: nat,
    ids: Seq<Seq<char>>,
    composed: bool,
    ids1: Seq<Seq<char>>,
    composed1: bool,
)
    requires
        boxless(c),
    ensures
        split::zip_out(b, fi, path, dels, adds, n, ids, composed).rows.filter(of_split_diff())
            == split::zip_out(c, fi, path, dels, adds, n, ids1, composed1).rows,
    decreases n,
{
    let p = of_split_diff();
    if n == 0 {
        lemma_none(Seq::<SplitRowV>::empty(), p);
    } else {
        let m = (n - 1) as nat;
        lemma_zip(b, c, fi, path, dels, adds, m, ids, composed, ids1, composed1);
        let x = split::zip_out(b, fi, path, dels, adds, m, ids, composed);
        let y = split::zip_out(c, fi, path, dels, adds, m, ids1, composed1);
        let left = split::cell_at(dels, n - 1);
        let right = split::cell_at(adds, n - 1);
        lemma_pair(b, fi, path, left, right, x.ids, x.composed);
        lemma_pair(c, fi, path, left, right, y.ids, y.composed);
        Seq::filter_distributes_over_add(
            x.rows,
            split::pair_out(b, fi, path, left, right, x.ids, x.composed).rows,
            p,
        );
    }
}

/// `x` is `y` but for the boxes.
spec fn alike(x: Open, y: Open) -> bool {
    &&& x.out.rows.filter(of_split_diff()) == y.out.rows
    &&& x.dels == y.dels
    &&& x.adds == y.adds
}

proof fn lemma_flushed(b: BuildV, c: BuildV, fi: nat, path: Seq<char>, x: Open, y: Open)
    requires
        boxless(c),
        alike(x, y),
    ensures
        split::flushed(b, fi, path, x).rows.filter(of_split_diff()) == split::flushed(
            c,
            fi,
            path,
            y,
        ).rows,
{
    let n = split::zip_len(x.dels, x.adds);
    lemma_zip(
        b,
        c,
        fi,
        path,
        x.dels,
        x.adds,
        n,
        x.out.ids,
        x.out.composed,
        y.out.ids,
        y.out.composed,
    );
    Seq::filter_distributes_over_add(
        x.out.rows,
        split::zip_out(b, fi, path, x.dels, x.adds, n, x.out.ids, x.out.composed).rows,
        of_split_diff(),
    );
}

proof fn lemma_lines_open(
    b: BuildV,
    c: BuildV,
    fi: nat,
    path: Seq<char>,
    lines: Seq<DiffLineV>,
    n: nat,
    ids: Seq<Seq<char>>,
    composed: bool,
    ids1: Seq<Seq<char>>,
    composed1: bool,
)
    requires
        boxless(c),
    ensures
        alike(
            split::lines_open(b, fi, path, lines, n, ids, composed),
            split::lines_open(c, fi, path, lines, n, ids1, composed1),
        ),
    decreases n,
{
    let p = of_split_diff();
    if n == 0 {
        lemma_none(Seq::<SplitRowV>::empty(), p);
    } else {
        let m = (n - 1) as nat;
        lemma_lines_open(b, c, fi, path, lines, m, ids, composed, ids1, composed1);
        let x = split::lines_open(b, fi, path, lines, m, ids, composed);
        let y = split::lines_open(c, fi, path, lines, m, ids1, composed1);
        let l = lines[n - 1];
        lemma_flushed(b, c, fi, path, x, y);
        let f = split::flushed(b, fi, path, x);
        let g = split::flushed(c, fi, path, y);
        let left = Some(split::context_cell(l));
        let right = Some(split::line_cell(l));
        lemma_pair(b, fi, path, left, right, f.ids, f.composed);
        lemma_pair(c, fi, path, left, right, g.ids, g.composed);
        Seq::filter_distributes_over_add(
            f.rows,
            split::pair_out(b, fi, path, left, right, f.ids, f.composed).rows,
            p,
        );
    }
}

proof fn lemma_split_hunks(
    b: BuildV,
    c: BuildV,
    fi: nat,
    path: Seq<char>,
    hunks: Seq<HunkV>,
    n: nat,
    ids: Seq<Seq<char>>,
    composed: bool,
    ids1: Seq<Seq<char>>,
    composed1: bool,
)
    requires
        boxless(c),
    ensures
        split::hunks_out(b, fi, path, hunks, n, ids, composed).rows.filter(of_split_diff())
            == split::hunks_out(c, fi, path, hunks, n, ids1, composed1).rows,
    decreases n,
{
    let p = of_split_diff();
    if n == 0 {
        lemma_none(Seq::<SplitRowV>::empty(), p);
    } else {
        let m = (n - 1) as nat;
        lemma_split_hunks(b, c, fi, path, hunks, m, ids, composed, ids1, composed1);
        let x = split::hunks_out(b, fi, path, hunks, m, ids, composed);
        let y = split::hunks_out(c, fi, path, hunks, m, ids1, composed1);
        let h = hunks[n - 1];
        let k = h.lines.len();
        lemma_lines_open(b, c, fi, path, h.lines, k, x.ids, x.composed, y.ids, y.composed);
        let u = split::lines_open(b, fi, path, h.lines, k, x.ids, x.composed);
        let v = split::lines_open(c, fi, path, h.lines, k, y.ids, y.composed);
        lemma_flushed(b, c, fi, path, u, v);
        let head = split::plain_row(fi, split::SplitKindV::HunkHeader, rows::header_text(h));
        lemma_one(head, p);
        assert(x.rows.push(head) == x.rows + seq![head]);
        assert(y.rows.push(head) == y.rows + seq![head]);
        Seq::filter_distributes_over_add(x.rows, seq![head], p);
        Seq::filter_distributes_over_add(
            x.rows + seq![head],
            split::flushed(b, fi, path, u).rows,
            p,
        );
    }
}

proof fn lemma_split_file(
    b: BuildV,
    c: BuildV,
    fi: nat,
    file: DiffFileV,
    ids: Seq<Seq<char>>,
    composed: bool,
    ids1: Seq<Seq<char>>,
    composed1: bool,
)
    requires
        boxless(c),
    ensures
        split::file_out(b, fi, file, ids, composed).rows.filter(of_split_diff())
            == split::file_out(c, fi, file, ids1, composed1).rows,
{
    let p = of_split_diff();
    let path = file.display_path();
    let head = split::plain_row(fi, split::SplitKindV::FileHeader, path);
    lemma_one(head, p);
    let x = split::body_out(b, fi, file, ids, composed);
    let y = split::body_out(c, fi, file, ids1, composed1);
    if file.is_binary {
        lemma_one(split::plain_row(fi, split::SplitKindV::HunkHeader, "Binary file"@), p);
    } else {
        let n = file.hunks.len();
        lemma_split_hunks(b, c, fi, path, file.hunks, n, ids, composed, ids1, composed1);
    }
    let ir = split::injected_rows(fi, threads::inject(b, path, None, x.ids).0);
    let jr = split::injected_rows(fi, threads::inject(c, path, None, y.ids).0);
    lemma_none(ir, p);
    Seq::filter_distributes_over_add(seq![head], x.rows, p);
    Seq::filter_distributes_over_add(seq![head] + x.rows, ir, p);
    assert(seq![head] + y.rows + Seq::<SplitRowV>::empty() == seq![head] + y.rows);
    assert(seq![head] + y.rows + jr == seq![head] + y.rows);
}

proof fn lemma_split_files(b: BuildV, c: BuildV, files: Seq<DiffFileV>, n: nat)
    requires
        boxless(c),
    ensures
        split::files_out(b, files, None, n).rows.filter(of_split_diff()) == split::files_out(
            c,
            files,
            None,
            n,
        ).rows,
    decreases n,
{
    if n == 0 {
        lemma_none(Seq::<SplitRowV>::empty(), of_split_diff());
    } else {
        let fi = (n - 1) as nat;
        lemma_split_files(b, c, files, fi);
        let x = split::files_out(b, files, None, fi);
        let y = split::files_out(c, files, None, fi);
        let f = files[n - 1];
        lemma_split_file(b, c, fi, f, x.ids, x.composed, y.ids, y.composed);
        Seq::filter_distributes_over_add(
            x.rows,
            split::file_out(b, fi, f, x.ids, x.composed).rows,
            of_split_diff(),
        );
    }
}

/// Threads and composer change nothing of the diff: without the rows of their boxes, the rows
/// of either view are those of the changeset alone, in the same order.
pub proof fn law_boxes_leave_the_diff(
    files: Seq<DiffFileV>,
    t: Seq<ThreadV>,
    width: nat,
    composer: Option<ComposerV>,
)
    ensures
        rows::rows_of(files, t, width, composer, None).filter(of_diff()) == rows::rows_of(
            files,
            Seq::empty(),
            0,
            None,
            None,
        ),
        split::rows_of(files, t, width, composer, None).filter(of_split_diff()) == split::rows_of(
            files,
            Seq::empty(),
            0,
            None,
            None,
        ),
{
    let b = rows::build_view(files, t, width, composer, None);
    let c = rows::build_view(files, Seq::empty(), 0, None, None);
    lemma_files(b, c, files, files.len());
    lemma_split_files(b, c, files, files.len());
}

/// The width that rows are built for is that of the boxes: where there is neither a thread nor
/// a composer, the rows of either view are the same for every width.
pub proof fn law_width_is_that_of_boxes(
    files: Seq<DiffFileV>,
    t: Seq<ThreadV>,
    v: nat,
    w: nat,
)
    requires
        t.len() == 0,
    ensures
        rows::rows_of(files, t, v, None, None) == rows::rows_of(files, t, w, None, None),
        split::rows_of(files, t, v, None, None) == split::rows_of(files, t, w, None, None),
{
    let b = rows::build_view(files, t, v, None, None);
    let c = rows::build_view(files, t, w, None, None);
    lemma_files(b, b, files, files.len());
    lemma_files(b, c, files, files.len());
    lemma_split_files(b, b, files, files.len());
    lemma_split_files(b, c, files, files.len());
}

} // verus!
