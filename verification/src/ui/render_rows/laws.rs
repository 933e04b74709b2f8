//! Laws of the rows: every thread is shown, and shown once.
use crate::comments::model::ThreadV;
use crate::diff::model::{DiffFileV, DiffLineV, HunkV};
use crate::paths;
use crate::ui::render_rows::rows;
use crate::ui::render_rows::rows::{RowKindV, RowV};
use crate::ui::render_rows::split;
use crate::ui::render_rows::split::{CellV, SplitKindV, SplitRowV};
use crate::ui::render_rows::threads;
use crate::ui::render_rows::threads::{BuildV, CommentKindV, CommentLineV, ComposerV, InjectedV};
use crate::diff::model::Side;
use vstd::prelude::*;

verus! {

/// How many elements of `s` are what `f` asks for.
pub open spec fn count<T>(s: Seq<T>, f: spec_fn(T) -> bool) -> nat
    decreases s.len(),
{
    if s.len() == 0 {
        0
    } else {
        count(s.drop_last(), f) + if f(s.last()) {
            1nat
        } else {
            0
        }
    }
}

/// Whether a line is the top of the box of a thread with this id.
pub open spec fn is_top(c: CommentLineV, id: Seq<char>) -> bool {
    c.kind is Top && c.thread_id == id
}

/// Whether an injected line is the top of a thread's box.
pub open spec fn tops_injected(id: Seq<char>) -> spec_fn((Side, InjectedV)) -> bool {
    |i: (Side, InjectedV)| i.1 matches InjectedV::Comment(c) && is_top(c, id)
}

/// Whether a row is the top of a thread's box.
pub open spec fn tops_row(id: Seq<char>) -> spec_fn(RowV) -> bool {
    |r: RowV| r.kind matches RowKindV::Comment(c) && is_top(c, id)
}

/// Whether a split row is the top of a thread's box.
pub open spec fn tops_split(id: Seq<char>) -> spec_fn(SplitRowV) -> bool {
    |r: SplitRowV| r.kind matches SplitKindV::Comment { line, .. } && is_top(line, id)
}

/// Whether a thread with this id is on the file shown under `path`.
pub open spec fn has_thread(t: Seq<ThreadV>, path: Seq<char>, id: Seq<char>) -> bool {
    exists|k: int| 0 <= k < t.len() && (#[trigger] t[k]).id == id && paths::same(t[k].file, path)
}

/// Whether a thread with this id is on one of the first `n` files.
pub open spec fn has_place(
    files: Seq<DiffFileV>,
    n: nat,
    t: Seq<ThreadV>,
    id: Seq<char>,
) -> bool {
    exists|f: int|
        0 <= f < n && has_thread(t, (#[trigger] files[f]).display_path(), id)
}

pub(crate) proof fn lemma_count_add<T>(a: Seq<T>, b: Seq<T>, f: spec_fn(T) -> bool)
    ensures
        count(a + b, f) == count(a, f) + count(b, f),
    decreases b.len(),
{
    if b.len() == 0 {
        assert(a + b == a);
    } else {
        lemma_count_add(a, b.drop_last(), f);
        assert((a + b).drop_last() == a + b.drop_last());
        assert((a + b).last() == b.last());
    }
}

pub(crate) proof fn lemma_count_push<T>(a: Seq<T>, x: T, f: spec_fn(T) -> bool)
    ensures
        count(a.push(x), f) == count(a, f) + if f(x) {
            1nat
        } else {
            0
        },
{
    assert(a.push(x).drop_last() == a);
}

pub(crate) proof fn lemma_count_none<T>(s: Seq<T>, f: spec_fn(T) -> bool)
    requires
        forall|i: int| 0 <= i < s.len() ==> !f(#[trigger] s[i]),
    ensures
        count(s, f) == 0,
    decreases s.len(),
{
    if s.len() > 0 {
        let d = s.drop_last();
        assert forall|i: int| 0 <= i < d.len() implies !f(#[trigger] d[i]) by {
            assert(d[i] == s[i]);
        }
        lemma_count_none(d, f);
    }
}

pub(crate) proof fn lemma_count_map<A, B>(a: Seq<A>, b: Seq<B>, f: spec_fn(A) -> bool, g: spec_fn(B) -> bool)
    requires
        a.len() == b.len(),
        forall|i: int| #![trigger a[i]] #![trigger b[i]] 0 <= i < a.len() ==> f(a[i]) == g(b[i]),
    ensures
        count(a, f) == count(b, g),
    decreases a.len(),
{
    if a.len() > 0 {
        let c = a.drop_last();
        let d = b.drop_last();
        assert forall|i: int| #![trigger c[i]] #![trigger d[i]] 0 <= i < c.len() implies f(c[i])
            == g(d[i]) by {
            assert(c[i] == a[i]);
            assert(d[i] == b[i]);
        }
        lemma_count_map(c, d, f, g);
        assert(f(a[a.len() - 1]) == g(b[a.len() - 1]));
    }
}

pub(crate) proof fn lemma_counted<T>(s: Seq<T>, f: spec_fn(T) -> bool, i: int)
    requires
        0 <= i < s.len(),
        f(s[i]),
    ensures
        count(s, f) > 0,
    decreases s.len(),
{
    if i < s.len() - 1 {
        assert(s.drop_last()[i] == s[i]);
        lemma_counted(s.drop_last(), f, i);
    }
}

pub(crate) proof fn lemma_counted_at<T>(s: Seq<T>, f: spec_fn(T) -> bool) -> (i: int)
    requires
        count(s, f) > 0,
    ensures
        0 <= i < s.len(),
        f(s[i]),
    decreases s.len(),
{
    if f(s.last()) {
        s.len() - 1
    } else {
        let i = lemma_counted_at(s.drop_last(), f);
        assert(s.drop_last()[i] == s[i]);
        i
    }
}

proof fn lemma_messages(t: ThreadV, n: nat, width: nat)
    ensures
        forall|k: int|
            0 <= k < threads::messages_among(t, n, width).len() ==> !((
            #[trigger] threads::messages_among(t, n, width)[k]).kind is Top),
    decreases n,
{
    if n > 0 {
        lemma_messages(t, (n - 1) as nat, width);
        let a = threads::messages_among(t, (n - 1) as nat, width);
        let b = threads::message_lines(t, n - 1, width);
        assert forall|k: int| 0 <= k < (a + b).len() implies !((#[trigger] (a + b)[k]).kind is Top)
        by {
            if k < a.len() {
                assert((a + b)[k] == a[k]);
            } else {
                assert((a + b)[k] == b[k - a.len()]);
            }
        }
    }
}

/// A thread's rows hold one top of a box, its own.
proof fn lemma_thread_rows(b: BuildV, t: ThreadV, id: Seq<char>)
    ensures
        count(threads::thread_rows(b, t), tops_injected(id)) == if t.id == id {
            1nat
        } else {
            0
        },
{
    let f = tops_injected(id);
    let lines = threads::thread_box(t, b.width);
    let rows = threads::comment_rows(t, lines);
    lemma_messages(t, t.comments.len(), b.width);
    let rest = rows.skip(1);
    assert(lines[0] == threads::chrome(t, CommentKindV::Top));
    assert forall|i: int| 0 <= i < rest.len() implies !f(#[trigger] rest[i]) by {
        assert(rest[i] == rows[i + 1]);
        let m = threads::messages_among(t, t.comments.len(), b.width);
        if 2 <= i + 1 < 2 + m.len() {
            assert(lines[i + 1] == m[i - 1]);
        }
    }
    lemma_count_none(rest, f);
    assert(rows == seq![rows[0]] + rest);
    lemma_count_add(seq![rows[0]], rest, f);
    assert(seq![rows[0]].drop_last().len() == 0);
    assert(seq![rows[0]].last() == rows[0]);
    assert(count(seq![rows[0]].drop_last(), f) == 0);
    if threads::replies_to(b.composer, t) {
        let c = threads::composer_rows(t, threads::composer_box(b.composer->0, b.width));
        lemma_count_none(c, f);
        lemma_count_add(rows, c, f);
    }
}

/// From `ids` to `out`: the tops in between are one where the id is new, and none else; a new
/// id is that of a thread on the path.
spec fn grew(
    t: Seq<ThreadV>,
    path: Seq<char>,
    ids: Seq<Seq<char>>,
    out: Seq<Seq<char>>,
    id: Seq<char>,
    tops: nat,
) -> bool {
    &&& ids.contains(id) ==> out.contains(id)
    &&& tops == if out.contains(id) && !ids.contains(id) {
        1nat
    } else {
        0
    }
    &&& out.contains(id) && !ids.contains(id) ==> has_thread(t, path, id)
}

proof fn lemma_inject(
    b: BuildV,
    path: Seq<char>,
    anchors: Option<Seq<(Side, u32)>>,
    n: nat,
    ids: Seq<Seq<char>>,
    id: Seq<char>,
)
    requires
        n <= b.threads.len(),
    ensures
        ({
            let (r, out) = threads::inject_among(b, path, anchors, n, ids);
            &&& grew(b.threads, path, ids, out, id, count(r, tops_injected(id)))
            &&& anchors is None ==> forall|k: int|
                0 <= k < n && (#[trigger] b.threads[k]).id == id && paths::same(
                    b.threads[k].file,
                    path,
                ) ==> out.contains(id)
        }),
    decreases n,
{
    if n > 0 {
        lemma_inject(b, path, anchors, (n - 1) as nat, ids, id);
        let (r, out) = threads::inject_among(b, path, anchors, (n - 1) as nat, ids);
        let t = b.threads[n - 1];
        lemma_thread_rows(b, t, id);
        lemma_count_add(r, threads::thread_rows(b, t), tops_injected(id));
        let next = out.push(t.id);
        assert(next[out.len() as int] == t.id);
        assert(next.contains(id) <==> out.contains(id) || t.id == id) by {
            if out.contains(id) {
                let k = choose|k: int| 0 <= k < out.len() && out[k] == id;
                assert(next[k] == id);
            }
            if next.contains(id) {
                let k = choose|k: int| 0 <= k < next.len() && next[k] == id;
                if k < out.len() {
                    assert(out[k] == id);
                }
            }
        }
    }
}

proof fn lemma_row_injected(fi: nat, s: Seq<(Side, InjectedV)>, id: Seq<char>)
    ensures
        count(rows::injected_rows(fi, s), tops_row(id)) == count(s, tops_injected(id)),
{
    lemma_count_map(rows::injected_rows(fi, s), s, tops_row(id), tops_injected(id));
}

proof fn lemma_split_injected(fi: nat, s: Seq<(Side, InjectedV)>, id: Seq<char>)
    ensures
        count(split::injected_rows(fi, s), tops_split(id)) == count(s, tops_injected(id)),
{
    lemma_count_map(split::injected_rows(fi, s), s, tops_split(id), tops_injected(id));
}

proof fn lemma_line(
    b: BuildV,
    fi: nat,
    path: Seq<char>,
    l: DiffLineV,
    ids: Seq<Seq<char>>,
    composed: bool,
    id: Seq<char>,
)
    ensures
        ({
            let o = rows::line_out(b, fi, path, l, ids, composed);
            grew(b.threads, path, ids, o.ids, id, count(o.rows, tops_row(id)))
        }),
{
    let f = tops_row(id);
    let row = seq![rows::code_row(fi, l)];
    lemma_count_none(row, f);
    if let Some((side, n)) = rows::line_anchor(l.kind, l.old_line, l.new_line) {
        let (inj, out) = threads::inject(b, path, Some(seq![(side, n)]), ids);
        let bx = rows::box_rows(
            fi,
            threads::new_thread_box(b.composer, composed, fi, side, n, b.width),
        );
        lemma_inject(b, path, Some(seq![(side, n)]), b.threads.len(), ids, id);
        lemma_row_injected(fi, inj, id);
        lemma_count_none(bx, f);
        lemma_count_add(row, rows::injected_rows(fi, inj), f);
        lemma_count_add(row + rows::injected_rows(fi, inj), bx, f);
    }
}

proof fn lemma_lines(
    b: BuildV,
    fi: nat,
    path: Seq<char>,
    lines: Seq<DiffLineV>,
    n: nat,
    ids: Seq<Seq<char>>,
    composed: bool,
    id: Seq<char>,
)
    ensures
        ({
            let o = rows::lines_out(b, fi, path, lines, n, ids, composed);
            grew(b.threads, path, ids, o.ids, id, count(o.rows, tops_row(id)))
        }),
    decreases n,
{
    if n == 0 {
        assert(count(Seq::<RowV>::empty(), tops_row(id)) == 0);
    } else {
        let p = (n - 1) as nat;
        let before = rows::lines_out(b, fi, path, lines, p, ids, composed);
        lemma_lines(b, fi, path, lines, p, ids, composed, id);
        lemma_line(b, fi, path, lines[n - 1], before.ids, before.composed, id);
        let o = rows::line_out(b, fi, path, lines[n - 1], before.ids, before.composed);
        lemma_count_add(before.rows, o.rows, tops_row(id));
    }
}

proof fn lemma_hunks(
    b: BuildV,
    fi: nat,
    path: Seq<char>,
    hunks: Seq<HunkV>,
    n: nat,
    ids: Seq<Seq<char>>,
    composed: bool,
    id: Seq<char>,
)
    ensures
        ({
            let o = rows::hunks_out(b, fi, path, hunks, n, ids, composed);
            grew(b.threads, path, ids, o.ids, id, count(o.rows, tops_row(id)))
        }),
    decreases n,
{
    if n == 0 {
        assert(count(Seq::<RowV>::empty(), tops_row(id)) == 0);
    } else {
        let p = (n - 1) as nat;
        let before = rows::hunks_out(b, fi, path, hunks, p, ids, composed);
        let h = hunks[n - 1];
        lemma_hunks(b, fi, path, hunks, p, ids, composed, id);
        lemma_lines(b, fi, path, h.lines, h.lines.len(), before.ids, before.composed, id);
        let o = rows::lines_out(b, fi, path, h.lines, h.lines.len(), before.ids, before.composed);
        let head = rows::plain_row(fi, RowKindV::HunkHeader, rows::header_text(h));
        lemma_count_push(before.rows, head, tops_row(id));
        lemma_count_add(before.rows.push(head), o.rows, tops_row(id));
    }
}

proof fn lemma_file(
    b: BuildV,
    fi: nat,
    file: DiffFileV,
    ids: Seq<Seq<char>>,
    composed: bool,
    id: Seq<char>,
)
    ensures
        ({
            let o = rows::file_out(b, fi, file, ids, composed);
            &&& grew(
                b.threads,
                file.display_path(),
                ids,
                o.ids,
                id,
                count(o.rows, tops_row(id)),
            )
            &&& has_thread(b.threads, file.display_path(), id) ==> o.ids.contains(id)
        }),
{
    let path = file.display_path();
    let f = tops_row(id);
    let head = seq![rows::plain_row(fi, RowKindV::FileHeader, path)];
    let h = rows::body_out(b, fi, file, ids, composed);
    let (inj, out) = threads::inject(b, path, None, h.ids);
    lemma_count_none(head, f);
    if file.is_binary {
        lemma_count_none(h.rows, f);
    } else {
        lemma_hunks(b, fi, path, file.hunks, file.hunks.len(), ids, composed, id);
    }
    lemma_inject(b, path, None, b.threads.len(), h.ids, id);
    lemma_row_injected(fi, inj, id);
    lemma_count_add(head, h.rows, f);
    lemma_count_add(head + h.rows, rows::injected_rows(fi, inj), f);
}

pub(crate) proof fn lemma_files(b: BuildV, files: Seq<DiffFileV>, n: nat, id: Seq<char>)
    requires
        n <= files.len(),
    ensures
        ({
            let o = rows::files_out(b, files, None, n);
            &&& o.ids.contains(id) <==> has_place(files, n, b.threads, id)
            &&& count(o.rows, tops_row(id)) == if o.ids.contains(id) {
                1nat
            } else {
                0
            }
        }),
    decreases n,
{
    if n == 0 {
        assert(count(Seq::<RowV>::empty(), tops_row(id)) == 0);
    } else {
        let p = (n - 1) as nat;
        lemma_files(b, files, p, id);
        let before = rows::files_out(b, files, None, p);
        let o = rows::file_out(b, p, files[n - 1], before.ids, before.composed);
        lemma_file(b, p, files[n - 1], before.ids, before.composed, id);
        lemma_count_add(before.rows, o.rows, tops_row(id));
        lemma_place(files, n, b.threads, id);
    }
}

proof fn lemma_place(files: Seq<DiffFileV>, n: nat, t: Seq<ThreadV>, id: Seq<char>)
    requires
        0 < n <= files.len(),
    ensures
        has_place(files, n, t, id) <==> has_place(files, (n - 1) as nat, t, id) || has_thread(
            t,
            files[n - 1].display_path(),
            id,
        ),
{
    if has_place(files, (n - 1) as nat, t, id) {
        let f = choose|f: int|
            0 <= f < n - 1 && has_thread(t, (#[trigger] files[f]).display_path(), id);
        assert(has_thread(t, files[f].display_path(), id));
    }
    if has_place(files, n, t, id) {
        let f = choose|f: int|
            0 <= f < n && has_thread(t, (#[trigger] files[f]).display_path(), id);
        assert(has_thread(t, files[f].display_path(), id));
    }
}

/// In the unified view the box of a thread appears exactly once where the thread is on a file
/// of the changeset, also where no hunk shows its lines or the file is binary; otherwise it does
/// not appear.
pub proof fn law_thread_shown_once(
    files: Seq<DiffFileV>,
    t: Seq<ThreadV>,
    width: nat,
    composer: Option<ComposerV>,
    id: Seq<char>,
)
    ensures
        count(rows::rows_of(files, t, width, composer, None), tops_row(id)) == if has_place(
            files,
            files.len(),
            t,
            id,
        ) {
            1nat
        } else {
            0
        },
{
    lemma_files(rows::build_view(files, t, width, composer, None), files, files.len(), id);
}

proof fn lemma_boxes(
    b: BuildV,
    fi: nat,
    anchors: Seq<(Side, u32)>,
    n: nat,
    composed: bool,
    id: Seq<char>,
)
    ensures
        count(split::boxes(b, fi, anchors, n, composed).0, tops_split(id)) == 0,
    decreases n,
{
    if n > 0 {
        lemma_boxes(b, fi, anchors, (n - 1) as nat, composed, id);
        let (r, c) = split::boxes(b, fi, anchors, (n - 1) as nat, composed);
        let (side, l) = anchors[n - 1];
        let x = split::box_rows(
            fi,
            side,
            threads::new_thread_box(b.composer, c, fi, side, l, b.width),
        );
        lemma_count_none(x, tops_split(id));
        lemma_count_add(r, x, tops_split(id));
    }
}

proof fn lemma_pair(
    b: BuildV,
    fi: nat,
    path: Seq<char>,
    left: Option<CellV>,
    right: Option<CellV>,
    ids: Seq<Seq<char>>,
    composed: bool,
    id: Seq<char>,
)
    ensures
        ({
            let o = split::pair_out(b, fi, path, left, right, ids, composed);
            grew(b.threads, path, ids, o.ids, id, count(o.rows, tops_split(id)))
        }),
{
    let f = tops_split(id);
    let anchors = split::pair_anchors(left, right);
    let (inj, out) = threads::inject(b, path, Some(anchors), ids);
    let (x, c) = split::boxes(b, fi, anchors, anchors.len(), composed);
    let row = seq![split::plain_row(fi, SplitKindV::Pair { left, right }, Seq::empty())];
    lemma_count_none(row, f);
    lemma_inject(b, path, Some(anchors), b.threads.len(), ids, id);
    lemma_split_injected(fi, inj, id);
    lemma_boxes(b, fi, anchors, anchors.len(), composed, id);
    lemma_count_add(row, split::injected_rows(fi, inj), f);
    lemma_count_add(row + split::injected_rows(fi, inj), x, f);
}

proof fn lemma_zip(
    b: BuildV,
    fi: nat,
    path: Seq<char>,
    dels: Seq<CellV>,
    adds: Seq<CellV>,
    n: nat,
    ids: Seq<Seq<char>>,
    composed: bool,
    id: Seq<char>,
)
    ensures
        ({
            let o = split::zip_out(b, fi, path, dels, adds, n, ids, composed);
            grew(b.threads, path, ids, o.ids, id, count(o.rows, tops_split(id)))
        }),
    decreases n,
{
    if n == 0 {
        assert(count(Seq::<SplitRowV>::empty(), tops_split(id)) == 0);
    } else {
        let p = (n - 1) as nat;
        let before = split::zip_out(b, fi, path, dels, adds, p, ids, composed);
        let l = split::cell_at(dels, n - 1);
        let r = split::cell_at(adds, n - 1);
        lemma_zip(b, fi, path, dels, adds, p, ids, composed, id);
        lemma_pair(b, fi, path, l, r, before.ids, before.composed, id);
        let o = split::pair_out(b, fi, path, l, r, before.ids, before.composed);
        lemma_count_add(before.rows, o.rows, tops_split(id));
    }
}

proof fn lemma_flushed(
    b: BuildV,
    fi: nat,
    path: Seq<char>,
    o: split::Open,
    ids: Seq<Seq<char>>,
    id: Seq<char>,
)
    requires
        grew(b.threads, path, ids, o.out.ids, id, count(o.out.rows, tops_split(id))),
    ensures
        ({
            let f = split::flushed(b, fi, path, o);
            grew(b.threads, path, ids, f.ids, id, count(f.rows, tops_split(id)))
        }),
{
    let n = split::zip_len(o.dels, o.adds);
    lemma_zip(b, fi, path, o.dels, o.adds, n, o.out.ids, o.out.composed, id);
    let z = split::zip_out(b, fi, path, o.dels, o.adds, n, o.out.ids, o.out.composed);
    lemma_count_add(o.out.rows, z.rows, tops_split(id));
}

proof fn lemma_split_lines(
    b: BuildV,
    fi: nat,
    path: Seq<char>,
    lines: Seq<DiffLineV>,
    n: nat,
    ids: Seq<Seq<char>>,
    composed: bool,
    id: Seq<char>,
)
    ensures
        ({
            let o = split::lines_open(b, fi, path, lines, n, ids, composed).out;
            grew(b.threads, path, ids, o.ids, id, count(o.rows, tops_split(id)))
        }),
    decreases n,
{
    if n == 0 {
        assert(count(Seq::<SplitRowV>::empty(), tops_split(id)) == 0);
    } else {
        let p = (n - 1) as nat;
        let o = split::lines_open(b, fi, path, lines, p, ids, composed);
        let l = lines[n - 1];
        lemma_split_lines(b, fi, path, lines, p, ids, composed, id);
        lemma_flushed(b, fi, path, o, ids, id);
        let f = split::flushed(b, fi, path, o);
        let left = Some(split::context_cell(l));
        let right = Some(split::line_cell(l));
        lemma_pair(b, fi, path, left, right, f.ids, f.composed, id);
        let x = split::pair_out(b, fi, path, left, right, f.ids, f.composed);
        lemma_count_add(f.rows, x.rows, tops_split(id));
    }
}

proof fn lemma_split_hunks(
    b: BuildV,
    fi: nat,
    path: Seq<char>,
    hunks: Seq<HunkV>,
    n: nat,
    ids: Seq<Seq<char>>,
    composed: bool,
    id: Seq<char>,
)
    ensures
        ({
            let o = split::hunks_out(b, fi, path, hunks, n, ids, composed);
            grew(b.threads, path, ids, o.ids, id, count(o.rows, tops_split(id)))
        }),
    decreases n,
{
    if n == 0 {
        assert(count(Seq::<SplitRowV>::empty(), tops_split(id)) == 0);
    } else {
        let p = (n - 1) as nat;
        let before = split::hunks_out(b, fi, path, hunks, p, ids, composed);
        let h = hunks[n - 1];
        lemma_split_hunks(b, fi, path, hunks, p, ids, composed, id);
        let x = split::lines_open(
            b,
            fi,
            path,
            h.lines,
            h.lines.len(),
            before.ids,
            before.composed,
        );
        lemma_split_lines(b, fi, path, h.lines, h.lines.len(), before.ids, before.composed, id);
        lemma_flushed(b, fi, path, x, before.ids, id);
        let o = split::flushed(b, fi, path, x);
        let head = split::plain_row(fi, SplitKindV::HunkHeader, rows::header_text(h));
        lemma_count_push(before.rows, head, tops_split(id));
        lemma_count_add(before.rows.push(head), o.rows, tops_split(id));
    }
}

proof fn lemma_split_file(
    b: BuildV,
    fi: nat,
    file: DiffFileV,
    ids: Seq<Seq<char>>,
    composed: bool,
    id: Seq<char>,
)
    ensures
        ({
            let o = split::file_out(b, fi, file, ids, composed);
            &&& grew(
                b.threads,
                file.display_path(),
                ids,
                o.ids,
                id,
                count(o.rows, tops_split(id)),
            )
            &&& has_thread(b.threads, file.display_path(), id) ==> o.ids.contains(id)
        }),
{
    let path = file.display_path();
    let f = tops_split(id);
    let head = seq![split::plain_row(fi, SplitKindV::FileHeader, path)];
    let h = split::body_out(b, fi, file, ids, composed);
    let (inj, out) = threads::inject(b, path, None, h.ids);
    lemma_count_none(head, f);
    if file.is_binary {
        lemma_count_none(h.rows, f);
    } else {
        lemma_split_hunks(b, fi, path, file.hunks, file.hunks.len(), ids, composed, id);
    }
    lemma_inject(b, path, None, b.threads.len(), h.ids, id);
    lemma_split_injected(fi, inj, id);
    lemma_count_add(head, h.rows, f);
    lemma_count_add(head + h.rows, split::injected_rows(fi, inj), f);
}

pub(crate) proof fn lemma_split_files(b: BuildV, files: Seq<DiffFileV>, n: nat, id: Seq<char>)
    requires
        n <= files.len(),
    ensures
        ({
            let o = split::files_out(b, files, None, n);
            &&& o.ids.contains(id) <==> has_place(files, n, b.threads, id)
            &&& count(o.rows, tops_split(id)) == if o.ids.contains(id) {
                1nat
            } else {
                0
            }
        }),
    decreases n,
{
    if n == 0 {
        assert(count(Seq::<SplitRowV>::empty(), tops_split(id)) == 0);
    } else {
        let p = (n - 1) as nat;
        lemma_split_files(b, files, p, id);
        let before = split::files_out(b, files, None, p);
        let o = split::file_out(b, p, files[n - 1], before.ids, before.composed);
        lemma_split_file(b, p, files[n - 1], before.ids, before.composed, id);
        lemma_count_add(before.rows, o.rows, tops_split(id));
        lemma_place(files, n, b.threads, id);
    }
}

/// In the split view, too, the box of a thread appears exactly once where the thread is on a
/// file of the changeset, and otherwise not at all.
pub proof fn law_thread_shown_once_split(
    files: Seq<DiffFileV>,
    t: Seq<ThreadV>,
    width: nat,
    composer: Option<ComposerV>,
    id: Seq<char>,
)
    ensures
        count(split::rows_of(files, t, width, composer, None), tops_split(id)) == if has_place(
            files,
            files.len(),
            t,
            id,
        ) {
            1nat
        } else {
            0
        },
{
    lemma_split_files(rows::build_view(files, t, width, composer, None), files, files.len(), id);
}

} // verus!
