//! A thread's box is shown whole, and in both views or in neither.
use crate::comments::actions;
use crate::comments::model::ThreadV;
use crate::diff::model::{DiffFileV, DiffLineV, HunkV, Side};
use crate::ui::render_rows::laws;
use crate::ui::render_rows::rows;
use crate::ui::render_rows::rows::{RowKindV, RowV};
use crate::ui::render_rows::split;
use crate::ui::render_rows::split::{CellV, Open, SplitKindV, SplitRowV};
use crate::ui::render_rows::threads;
use crate::ui::render_rows::threads::{
    BuildV, CommentKindV, CommentLineV, ComposerV, InjectedV,
};
use vstd::prelude::*;

verus! {

/// The lines of thread boxes among rows.
pub open spec fn box_lines(s: Seq<RowV>) -> Set<CommentLineV> {
    Set::new(
        |c: CommentLineV|
            exists|i: int| 0 <= i < s.len() && (#[trigger] s[i]).kind == RowKindV::Comment(c),
    )
}

/// Whether a split row is this line of a thread's box.
pub open spec fn is_line(r: SplitRowV, c: CommentLineV) -> bool {
    r.kind matches SplitKindV::Comment { line, .. } && line == c
}

/// The lines of thread boxes among split rows.
pub open spec fn split_box_lines(s: Seq<SplitRowV>) -> Set<CommentLineV> {
    Set::new(|c: CommentLineV| exists|i: int| 0 <= i < s.len() && is_line(#[trigger] s[i], c))
}

/// The lines of thread boxes among injected lines.
spec fn injected_lines(s: Seq<(Side, InjectedV)>) -> Set<CommentLineV> {
    Set::new(
        |c: CommentLineV|
            exists|i: int| 0 <= i < s.len() && (#[trigger] s[i]).1 == InjectedV::Comment(c),
    )
}

/// The lines of the box of thread `k`.
spec fn own_lines(b: BuildV, k: int) -> Seq<CommentLineV> {
    threads::thread_box(b.threads[k], b.width)
}

/// Thread `k` has its box among `s`, and `c` is in it.
spec fn boxed(b: BuildV, s: Set<CommentLineV>, k: int, c: CommentLineV) -> bool {
    &&& 0 <= k < b.threads.len()
    &&& own_lines(b, k).contains(c)
    &&& forall|x: CommentLineV| own_lines(b, k).contains(x) ==> #[trigger] s.contains(x)
}

/// Every line of `s` is one of a box that is all there.
spec fn whole(b: BuildV, s: Set<CommentLineV>) -> bool {
    forall|c: CommentLineV| #[trigger] s.contains(c) ==> exists|k: int| boxed(b, s, k, c)
}

proof fn lemma_union(b: BuildV, s: Set<CommentLineV>, t: Set<CommentLineV>, u: Set<CommentLineV>)
    requires
        whole(b, s),
        whole(b, t),
        forall|c: CommentLineV| #[trigger] u.contains(c) <==> s.contains(c) || t.contains(c),
    ensures
        whole(b, u),
{
    assert forall|c: CommentLineV| #[trigger] u.contains(c) implies exists|k: int|
        boxed(b, u, k, c) by {
        if s.contains(c) {
            let k = choose|k: int| boxed(b, s, k, c);
            assert(boxed(b, u, k, c));
        } else {
            let k = choose|k: int| boxed(b, t, k, c);
            assert(boxed(b, u, k, c));
        }
    }
}

proof fn lemma_none(b: BuildV, s: Seq<RowV>)
    requires
        forall|i: int| 0 <= i < s.len() ==> !((#[trigger] s[i]).kind is Comment),
    ensures
        whole(b, box_lines(s)),
{
}

proof fn lemma_add(b: BuildV, s: Seq<RowV>, t: Seq<RowV>)
    requires
        whole(b, box_lines(s)),
        whole(b, box_lines(t)),
    ensures
        whole(b, box_lines(s + t)),
{
    let u = box_lines(s + t);
    assert forall|c: CommentLineV| #[trigger] u.contains(c) <==> box_lines(s).contains(c)
        || box_lines(t).contains(c) by {
        if box_lines(s).contains(c) {
            let i = choose|i: int|
                0 <= i < s.len() && (#[trigger] s[i]).kind == RowKindV::Comment(c);
            assert((s + t)[i] == s[i]);
        }
        if box_lines(t).contains(c) {
            let i = choose|i: int|
                0 <= i < t.len() && (#[trigger] t[i]).kind == RowKindV::Comment(c);
            assert((s + t)[s.len() + i] == t[i]);
        }
        if u.contains(c) {
            let i = choose|i: int|
                0 <= i < (s + t).len() && (#[trigger] (s + t)[i]).kind == RowKindV::Comment(c);
            if i < s.len() {
                assert(s[i].kind == RowKindV::Comment(c));
            } else {
                assert(t[i - s.len()].kind == RowKindV::Comment(c));
            }
        }
    }
    lemma_union(b, box_lines(s), box_lines(t), u);
}

proof fn lemma_split_none(b: BuildV, s: Seq<SplitRowV>)
    requires
        forall|i: int| 0 <= i < s.len() ==> !((#[trigger] s[i]).kind is Comment),
    ensures
        whole(b, split_box_lines(s)),
{
}

proof fn lemma_split_add(b: BuildV, s: Seq<SplitRowV>, t: Seq<SplitRowV>)
    requires
        whole(b, split_box_lines(s)),
        whole(b, split_box_lines(t)),
    ensures
        whole(b, split_box_lines(s + t)),
{
    let u = split_box_lines(s + t);
    assert forall|c: CommentLineV| #[trigger] u.contains(c) <==> split_box_lines(s).contains(c)
        || split_box_lines(t).contains(c) by {
        if split_box_lines(s).contains(c) {
            let i = choose|i: int| 0 <= i < s.len() && is_line(#[trigger] s[i], c);
            assert((s + t)[i] == s[i]);
        }
        if split_box_lines(t).contains(c) {
            let i = choose|i: int| 0 <= i < t.len() && is_line(#[trigger] t[i], c);
            assert((s + t)[s.len() + i] == t[i]);
        }
        if u.contains(c) {
            let i = choose|i: int| 0 <= i < (s + t).len() && is_line(#[trigger] (s + t)[i], c);
            if i < s.len() {
                assert(is_line(s[i], c));
            } else {
                assert(is_line(t[i - s.len()], c));
            }
        }
    }
    lemma_union(b, split_box_lines(s), split_box_lines(t), u);
}

proof fn lemma_thread(b: BuildV, k: int)
    requires
        0 <= k < b.threads.len(),
    ensures
        whole(b, injected_lines(threads::thread_rows(b, b.threads[k]))),
{
    let t = b.threads[k];
    let r = threads::thread_rows(b, t);
    let lines = own_lines(b, k);
    let s = injected_lines(r);
    assert forall|x: CommentLineV| lines.contains(x) implies #[trigger] s.contains(x) by {
        let i = choose|i: int| 0 <= i < lines.len() && lines[i] == x;
        assert(r[i].1 == InjectedV::Comment(x));
    }
    assert forall|c: CommentLineV| #[trigger] s.contains(c) implies exists|j: int|
        boxed(b, s, j, c) by {
        let i = choose|i: int| 0 <= i < r.len() && (#[trigger] r[i]).1 == InjectedV::Comment(c);
        assert(i < lines.len() && lines[i] == c);
        assert(boxed(b, s, k, c));
    }
}

proof fn lemma_inject(
    b: BuildV,
    path: Seq<char>,
    anchors: Option<Seq<(Side, u32)>>,
    n: nat,
    ids: Seq<Seq<char>>,
)
    requires
        n <= b.threads.len(),
    ensures
        whole(b, injected_lines(threads::inject_among(b, path, anchors, n, ids).0)),
    decreases n,
{
    if n > 0 {
        lemma_inject(b, path, anchors, (n - 1) as nat, ids);
        lemma_thread(b, n - 1);
        let s = threads::inject_among(b, path, anchors, (n - 1) as nat, ids).0;
        let t = threads::thread_rows(b, b.threads[n - 1]);
        let u = injected_lines(s + t);
        assert forall|c: CommentLineV| #[trigger] u.contains(c) <==> injected_lines(s).contains(c)
            || injected_lines(t).contains(c) by {
            if injected_lines(s).contains(c) {
                let i = choose|i: int|
                    0 <= i < s.len() && (#[trigger] s[i]).1 == InjectedV::Comment(c);
                assert((s + t)[i] == s[i]);
            }
            if injected_lines(t).contains(c) {
                let i = choose|i: int|
                    0 <= i < t.len() && (#[trigger] t[i]).1 == InjectedV::Comment(c);
                assert((s + t)[s.len() + i] == t[i]);
            }
            if u.contains(c) {
                let i = choose|i: int|
                    0 <= i < (s + t).len() && (#[trigger] (s + t)[i]).1 == InjectedV::Comment(c);
                if i < s.len() {
                    assert(s[i].1 == InjectedV::Comment(c));
                } else {
                    assert(t[i - s.len()].1 == InjectedV::Comment(c));
                }
            }
        }
        lemma_union(b, injected_lines(s), injected_lines(t), u);
    }
}

proof fn lemma_same(b: BuildV, s: Set<CommentLineV>, t: Set<CommentLineV>)
    requires
        whole(b, s),
        forall|c: CommentLineV|
            #![trigger s.contains(c)]
            #![trigger t.contains(c)]
            s.contains(c) <==> t.contains(c),
    ensures
        whole(b, t),
{
    assert forall|c: CommentLineV| #[trigger] t.contains(c) implies exists|k: int|
        boxed(b, t, k, c) by {
        let k = choose|k: int| boxed(b, s, k, c);
        assert(boxed(b, t, k, c));
    }
}

proof fn lemma_rows(b: BuildV, fi: nat, inj: Seq<(Side, InjectedV)>)
    requires
        whole(b, injected_lines(inj)),
    ensures
        whole(b, box_lines(rows::injected_rows(fi, inj))),
        whole(b, split_box_lines(split::injected_rows(fi, inj))),
{
    let s = injected_lines(inj);
    let r = rows::injected_rows(fi, inj);
    let q = split::injected_rows(fi, inj);
    assert forall|c: CommentLineV|
        #![trigger s.contains(c)]
        #![trigger box_lines(r).contains(c)]
        s.contains(c) <==> box_lines(r).contains(c) by {
        if s.contains(c) {
            let i = choose|i: int|
                0 <= i < inj.len() && (#[trigger] inj[i]).1 == InjectedV::Comment(c);
            assert(r[i].kind == RowKindV::Comment(c));
        }
        if box_lines(r).contains(c) {
            let i = choose|i: int|
                0 <= i < r.len() && (#[trigger] r[i]).kind == RowKindV::Comment(c);
            assert(inj[i].1 == InjectedV::Comment(c));
        }
    }
    lemma_same(b, s, box_lines(r));
    assert forall|c: CommentLineV|
        #![trigger s.contains(c)]
        #![trigger split_box_lines(q).contains(c)]
        s.contains(c) <==> split_box_lines(q).contains(c) by {
        if s.contains(c) {
            let i = choose|i: int|
                0 <= i < inj.len() && (#[trigger] inj[i]).1 == InjectedV::Comment(c);
            assert(is_line(q[i], c));
        }
        if split_box_lines(q).contains(c) {
            let i = choose|i: int| 0 <= i < q.len() && is_line(#[trigger] q[i], c);
            assert(inj[i].1 == InjectedV::Comment(c));
        }
    }
    lemma_same(b, s, split_box_lines(q));
}

proof fn lemma_line(
    b: BuildV,
    fi: nat,
    path: Seq<char>,
    l: DiffLineV,
    ids: Seq<Seq<char>>,
    composed: bool,
)
    ensures
        whole(b, box_lines(rows::line_out(b, fi, path, l, ids, composed).rows)),
{
    let row = seq![rows::code_row(fi, l)];
    lemma_none(b, row);
    if let Some((side, n)) = rows::line_anchor(l.kind, l.old_line, l.new_line) {
        let anchors = Some(seq![(side, n)]);
        let inj = threads::inject(b, path, anchors, ids).0;
        lemma_inject(b, path, anchors, b.threads.len(), ids);
        lemma_rows(b, fi, inj);
        let br = rows::box_rows(
            fi,
            threads::new_thread_box(b.composer, composed, fi, side, n, b.width),
        );
        lemma_none(b, br);
        lemma_add(b, row, rows::injected_rows(fi, inj));
        lemma_add(b, row + rows::injected_rows(fi, inj), br);
    }
}

proof fn lemma_lines(
    b: BuildV,
    fi: nat,
    path: Seq<char>,
    lines: Seq<DiffLineV>,
    n: nat,
    ids: Seq<Seq<char>>,
    composed: bool,
)
    ensures
        whole(b, box_lines(rows::lines_out(b, fi, path, lines, n, ids, composed).rows)),
    decreases n,
{
    if n > 0 {
        lemma_lines(b, fi, path, lines, (n - 1) as nat, ids, composed);
        let x = rows::lines_out(b, fi, path, lines, (n - 1) as nat, ids, composed);
        lemma_line(b, fi, path, lines[n - 1], x.ids, x.composed);
        lemma_add(
            b,
            x.rows,
            rows::line_out(b, fi, path, lines[n - 1], x.ids, x.composed).rows,
        );
    }
}

proof fn lemma_hunks(
    b: BuildV,
    fi: nat,
    path: Seq<char>,
    hunks: Seq<HunkV>,
    n: nat,
    ids: Seq<Seq<char>>,
    composed: bool,
)
    ensures
        whole(b, box_lines(rows::hunks_out(b, fi, path, hunks, n, ids, composed).rows)),
    decreases n,
{
    if n > 0 {
        lemma_hunks(b, fi, path, hunks, (n - 1) as nat, ids, composed);
        let x = rows::hunks_out(b, fi, path, hunks, (n - 1) as nat, ids, composed);
        let h = hunks[n - 1];
        let head = rows::plain_row(fi, RowKindV::HunkHeader, rows::header_text(h));
        lemma_none(b, seq![head]);
        lemma_add(b, x.rows, seq![head]);
        assert(x.rows.push(head) == x.rows + seq![head]);
        lemma_lines(b, fi, path, h.lines, h.lines.len(), x.ids, x.composed);
        lemma_add(
            b,
            x.rows + seq![head],
            rows::lines_out(b, fi, path, h.lines, h.lines.len(), x.ids, x.composed).rows,
        );
    }
}

proof fn lemma_files(b: BuildV, files: Seq<DiffFileV>, n: nat)
    ensures
        whole(b, box_lines(rows::files_out(b, files, None, n).rows)),
    decreases n,
{
    if n > 0 {
        let fi = (n - 1) as nat;
        lemma_files(b, files, fi);
        let x = rows::files_out(b, files, None, fi);
        let f = files[n - 1];
        let path = f.display_path();
        let o = rows::file_out(b, fi, f, x.ids, x.composed);
        let head = seq![rows::plain_row(fi, RowKindV::FileHeader, path)];
        lemma_none(b, head);
        let h = rows::body_out(b, fi, f, x.ids, x.composed);
        if f.is_binary {
            lemma_none(b, h.rows);
        } else {
            lemma_hunks(b, fi, path, f.hunks, f.hunks.len(), x.ids, x.composed);
        }
        let inj = threads::inject(b, path, None, h.ids).0;
        lemma_inject(b, path, None, b.threads.len(), h.ids);
        lemma_rows(b, fi, inj);
        lemma_add(b, head, h.rows);
        lemma_add(b, head + h.rows, rows::injected_rows(fi, inj));
        lemma_add(b, x.rows, o.rows);
    }
}

proof fn lemma_boxes(b: BuildV, fi: nat, anchors: Seq<(Side, u32)>, n: nat, composed: bool)
    ensures
        whole(b, split_box_lines(split::boxes(b, fi, anchors, n, composed).0)),
    decreases n,
{
    if n > 0 {
        lemma_boxes(b, fi, anchors, (n - 1) as nat, composed);
        let (x, c) = split::boxes(b, fi, anchors, (n - 1) as nat, composed);
        let (side, l) = anchors[n - 1];
        let br = split::box_rows(
            fi,
            side,
            threads::new_thread_box(b.composer, c, fi, side, l, b.width),
        );
        lemma_split_none(b, br);
        lemma_split_add(b, x, br);
    }
}

proof fn lemma_pair(
    b: BuildV,
    fi: nat,
    path: Seq<char>,
    left: Option<CellV>,
    right: Option<CellV>,
    ids: Seq<Seq<char>>,
    composed: bool,
)
    ensures
        whole(
            b,
            split_box_lines(split::pair_out(b, fi, path, left, right, ids, composed).rows),
        ),
{
    let row = seq![split::plain_row(fi, SplitKindV::Pair { left, right }, Seq::empty())];
    let anchors = split::pair_anchors(left, right);
    let inj = threads::inject(b, path, Some(anchors), ids).0;
    lemma_split_none(b, row);
    lemma_inject(b, path, Some(anchors), b.threads.len(), ids);
    lemma_rows(b, fi, inj);
    lemma_boxes(b, fi, anchors, anchors.len(), composed);
    lemma_split_add(b, row, split::injected_rows(fi, inj));
    lemma_split_add(
        b,
        row + split::injected_rows(fi, inj),
        split::boxes(b, fi, anchors, anchors.len(), composed).0,
    );
}

proof fn lemma_zip(
    b: BuildV,
    fi: nat,
    path: Seq<char>,
    dels: Seq<CellV>,
    adds: Seq<CellV>,
    n: nat,
    ids: Seq<Seq<char>>,
    composed: bool,
)
    ensures
        whole(
            b,
            split_box_lines(split::zip_out(b, fi, path, dels, adds, n, ids, composed).rows),
        ),
    decreases n,
{
    if n > 0 {
        lemma_zip(b, fi, path, dels, adds, (n - 1) as nat, ids, composed);
        let x = split::zip_out(b, fi, path, dels, adds, (n - 1) as nat, ids, composed);
        let left = split::cell_at(dels, n - 1);
        let right = split::cell_at(adds, n - 1);
        lemma_pair(b, fi, path, left, right, x.ids, x.composed);
        lemma_split_add(
            b,
            x.rows,
            split::pair_out(b, fi, path, left, right, x.ids, x.composed).rows,
        );
    }
}

proof fn lemma_flushed(b: BuildV, fi: nat, path: Seq<char>, o: Open)
    requires
        whole(b, split_box_lines(o.out.rows)),
    ensures
        whole(b, split_box_lines(split::flushed(b, fi, path, o).rows)),
{
    let n = split::zip_len(o.dels, o.adds);
    lemma_zip(b, fi, path, o.dels, o.adds, n, o.out.ids, o.out.composed);
    lemma_split_add(
        b,
        o.out.rows,
        split::zip_out(b, fi, path, o.dels, o.adds, n, o.out.ids, o.out.composed).rows,
    );
}

proof fn lemma_lines_open(
    b: BuildV,
    fi: nat,
    path: Seq<char>,
    lines: Seq<DiffLineV>,
    n: nat,
    ids: Seq<Seq<char>>,
    composed: bool,
)
    ensures
        whole(
            b,
            split_box_lines(split::lines_open(b, fi, path, lines, n, ids, composed).out.rows),
        ),
    decreases n,
{
    if n > 0 {
        lemma_lines_open(b, fi, path, lines, (n - 1) as nat, ids, composed);
        let x = split::lines_open(b, fi, path, lines, (n - 1) as nat, ids, composed);
        let l = lines[n - 1];
        lemma_flushed(b, fi, path, x);
        let f = split::flushed(b, fi, path, x);
        let left = Some(split::context_cell(l));
        let right = Some(split::line_cell(l));
        lemma_pair(b, fi, path, left, right, f.ids, f.composed);
        lemma_split_add(
            b,
            f.rows,
            split::pair_out(b, fi, path, left, right, f.ids, f.composed).rows,
        );
    }
}

proof fn lemma_split_hunks(
    b: BuildV,
    fi: nat,
    path: Seq<char>,
    hunks: Seq<HunkV>,
    n: nat,
    ids: Seq<Seq<char>>,
    composed: bool,
)
    ensures
        whole(b, split_box_lines(split::hunks_out(b, fi, path, hunks, n, ids, composed).rows)),
    decreases n,
{
    if n > 0 {
        lemma_split_hunks(b, fi, path, hunks, (n - 1) as nat, ids, composed);
        let x = split::hunks_out(b, fi, path, hunks, (n - 1) as nat, ids, composed);
        let h = hunks[n - 1];
        let head = split::plain_row(fi, SplitKindV::HunkHeader, rows::header_text(h));
        lemma_split_none(b, seq![head]);
        lemma_split_add(b, x.rows, seq![head]);
        assert(x.rows.push(head) == x.rows + seq![head]);
        lemma_lines_open(b, fi, path, h.lines, h.lines.len(), x.ids, x.composed);
        let o = split::lines_open(b, fi, path, h.lines, h.lines.len(), x.ids, x.composed);
        lemma_flushed(b, fi, path, o);
        lemma_split_add(b, x.rows + seq![head], split::flushed(b, fi, path, o).rows);
    }
}

proof fn lemma_split_files(b: BuildV, files: Seq<DiffFileV>, n: nat)
    ensures
        whole(b, split_box_lines(split::files_out(b, files, None, n).rows)),
    decreases n,
{
    if n > 0 {
        let fi = (n - 1) as nat;
        lemma_split_files(b, files, fi);
        let x = split::files_out(b, files, None, fi);
        let f = files[n - 1];
        let path = f.display_path();
        let o = split::file_out(b, fi, f, x.ids, x.composed);
        let head = seq![split::plain_row(fi, SplitKindV::FileHeader, path)];
        lemma_split_none(b, head);
        let h = split::body_out(b, fi, f, x.ids, x.composed);
        if f.is_binary {
            lemma_split_none(b, h.rows);
        } else {
            lemma_split_hunks(b, fi, path, f.hunks, f.hunks.len(), x.ids, x.composed);
        }
        let inj = threads::inject(b, path, None, h.ids).0;
        lemma_inject(b, path, None, b.threads.len(), h.ids);
        lemma_rows(b, fi, inj);
        lemma_split_add(b, head, h.rows);
        lemma_split_add(b, head + h.rows, split::injected_rows(fi, inj));
        lemma_split_add(b, x.rows, o.rows);
    }
}

proof fn lemma_thread_id(b: BuildV, k: int, c: CommentLineV)
    requires
        0 <= k < b.threads.len(),
        own_lines(b, k).contains(c),
    ensures
        c.thread_id == b.threads[k].id,
{
    let t = b.threads[k];
    let lines = own_lines(b, k);
    let m = threads::messages_among(t, t.comments.len(), b.width);
    let i = choose|i: int| 0 <= i < lines.len() && lines[i] == c;
    if 2 <= i < 2 + m.len() {
        lemma_message_ids(t, t.comments.len(), b.width);
        assert(lines[i] == m[i - 2]);
    }
}

proof fn lemma_message_ids(t: ThreadV, n: nat, width: nat)
    ensures
        forall|i: int|
            0 <= i < threads::messages_among(t, n, width).len() ==> (
            #[trigger] threads::messages_among(t, n, width)[i]).thread_id == t.id,
    decreases n,
{
    if n > 0 {
        lemma_message_ids(t, (n - 1) as nat, width);
        let x = threads::messages_among(t, (n - 1) as nat, width);
        let y = threads::message_lines(t, n - 1, width);
        assert forall|i: int| 0 <= i < (x + y).len() implies (#[trigger] (x + y)[i]).thread_id
            == t.id by {
            if i < x.len() {
                assert((x + y)[i] == x[i]);
            } else {
                assert((x + y)[i] == y[i - x.len()]);
            }
        }
    }
}

/// Where no two threads share an id, the two views show the same lines of thread boxes.
pub proof fn law_views_show_the_same_boxes(
    files: Seq<DiffFileV>,
    t: Seq<ThreadV>,
    width: nat,
    composer: Option<ComposerV>,
    c: CommentLineV,
)
    requires
        actions::distinct_ids(t),
    ensures
        box_lines(rows::rows_of(files, t, width, composer, None)).contains(c)
            <==> split_box_lines(split::rows_of(files, t, width, composer, None)).contains(c),
{
    let b = rows::build_view(files, t, width, composer, None);
    let r = rows::rows_of(files, t, width, composer, None);
    let q = split::rows_of(files, t, width, composer, None);
    let s = box_lines(r);
    let u = split_box_lines(q);
    lemma_files(b, files, files.len());
    lemma_split_files(b, files, files.len());
    if s.contains(c) || u.contains(c) {
        let k = if s.contains(c) {
            choose|k: int| boxed(b, s, k, c)
        } else {
            choose|k: int| boxed(b, u, k, c)
        };
        let id = t[k].id;
        let top = threads::chrome(t[k], CommentKindV::Top);
        assert(own_lines(b, k)[0] == top);
        laws::law_thread_shown_once(files, t, width, composer, id);
        laws::law_thread_shown_once_split(files, t, width, composer, id);
        if s.contains(c) {
            assert(s.contains(top));
            let i = choose|i: int|
                0 <= i < r.len() && (#[trigger] r[i]).kind == RowKindV::Comment(top);
            laws::lemma_counted(r, laws::tops_row(id), i);
        } else {
            assert(u.contains(top));
            let i = choose|i: int| 0 <= i < q.len() && is_line(#[trigger] q[i], top);
            laws::lemma_counted(q, laws::tops_split(id), i);
        }
        let i = laws::lemma_counted_at(r, laws::tops_row(id));
        let x = r[i].kind->Comment_0;
        assert(s.contains(x));
        let m = choose|m: int| boxed(b, s, m, x);
        lemma_thread_id(b, m, x);
        assert(m == k);
        assert(s.contains(c));
        let j = laws::lemma_counted_at(q, laws::tops_split(id));
        let y = q[j].kind->Comment_line;
        assert(is_line(q[j], y));
        assert(u.contains(y));
        let n = choose|n: int| boxed(b, u, n, y);
        lemma_thread_id(b, n, y);
        assert(n == k);
        assert(u.contains(c));
    }
}

} // verus!
