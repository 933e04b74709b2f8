//! Laws of the incremental rebuild: the rows of one file, built alone, are those that it has
//! among the rows of the whole changeset.
use crate::comments::model::ThreadV;
use crate::diff::model::{DiffFileV, DiffLineV, HunkV, Side};
use crate::paths;
use crate::ui::render_rows::laws;
use crate::ui::render_rows::rows;
use crate::ui::render_rows::rows::RowV;
use crate::ui::render_rows::split;
use crate::ui::render_rows::split::{CellV, SplitRowV};
use crate::ui::render_rows::threads;
use crate::ui::render_rows::threads::{AnchoredV, BuildV, ComposerAnchorV, ComposerV};
use vstd::prelude::*;

verus! {

/// Whether no other file is shown under the path of file `fi`.
pub open spec fn path_is_own(files: Seq<DiffFileV>, fi: nat) -> bool {
    forall|j: int|
        0 <= j < files.len() && j != fi ==> !paths::same(
            (#[trigger] files[j]).display_path(),
            files[fi as int].display_path(),
        )
}

/// Whether no two threads have the same id.
pub open spec fn ids_differ(t: Seq<ThreadV>) -> bool {
    forall|i: int, j: int| 0 <= i < j < t.len() ==> (#[trigger] t[i]).id != (#[trigger] t[j]).id
}

/// Whether the composer is open for a new thread in file `fi`.
spec fn composes_in(c: Option<ComposerV>, fi: nat) -> bool {
    c is Some && (c->0.anchor matches ComposerAnchorV::NewThread { file_idx, .. } && file_idx == fi)
}

/// The same threads on the path are out.
spec fn agree_ids(
    t: Seq<ThreadV>,
    path: Seq<char>,
    a: Seq<Seq<char>>,
    b: Seq<Seq<char>>,
) -> bool {
    forall|k: int|
        0 <= k < t.len() && paths::same((#[trigger] t[k]).file, path) ==> a.contains(t[k].id)
            == b.contains(t[k].id)
}

/// The two builds agree on all that file `fi` asks of them.
spec fn agree(a: BuildV, b: BuildV, path: Seq<char>) -> bool {
    &&& a.threads == b.threads
    &&& a.width == b.width
    &&& a.composer == b.composer
    &&& forall|k: int|
        0 <= k < a.threads.len() && paths::same((#[trigger] a.threads[k]).file, path)
            ==> threads::anchor_of(a.last, a.threads[k].id) == threads::anchor_of(
            b.last,
            a.threads[k].id,
        )
}

proof fn lemma_push_contains(s: Seq<Seq<char>>, x: Seq<char>, y: Seq<char>)
    ensures
        s.push(x).contains(y) <==> s.contains(y) || x == y,
{
    let p = s.push(x);
    assert(p[s.len() as int] == x);
    if s.contains(y) {
        let k = choose|k: int| 0 <= k < s.len() && s[k] == y;
        assert(p[k] == y);
    }
    if p.contains(y) {
        let k = choose|k: int| 0 <= k < p.len() && p[k] == y;
        if k < s.len() {
            assert(s[k] == y);
        }
    }
}

proof fn lemma_inject_agrees(
    a: BuildV,
    b: BuildV,
    path: Seq<char>,
    anchors: Option<Seq<(Side, u32)>>,
    n: nat,
    x: Seq<Seq<char>>,
    y: Seq<Seq<char>>,
)
    requires
        n <= a.threads.len(),
        agree(a, b, path),
        agree_ids(a.threads, path, x, y),
    ensures
        ({
            let (r, p) = threads::inject_among(a, path, anchors, n, x);
            let (s, q) = threads::inject_among(b, path, anchors, n, y);
            r == s && agree_ids(a.threads, path, p, q)
        }),
    decreases n,
{
    if n > 0 {
        lemma_inject_agrees(a, b, path, anchors, (n - 1) as nat, x, y);
        let (r, p) = threads::inject_among(a, path, anchors, (n - 1) as nat, x);
        let (s, q) = threads::inject_among(b, path, anchors, (n - 1) as nat, y);
        let t = a.threads[n - 1];
        assert(paths::same(t.file, path) ==> p.contains(t.id) == q.contains(t.id));
        assert(threads::thread_rows(a, t) == threads::thread_rows(b, t));
        assert(agree_ids(a.threads, path, p.push(t.id), q.push(t.id))) by {
            assert forall|k: int|
                0 <= k < a.threads.len() && paths::same(
                    (#[trigger] a.threads[k]).file,
                    path,
                ) implies p.push(t.id).contains(a.threads[k].id) == q.push(t.id).contains(
                a.threads[k].id,
            ) by {
                lemma_push_contains(p, t.id, a.threads[k].id);
                lemma_push_contains(q, t.id, a.threads[k].id);
            }
        }
    }
}

/// What two builds of the same part have in common.
spec fn alike(
    t: Seq<ThreadV>,
    path: Seq<char>,
    c: Option<ComposerV>,
    fi: nat,
    x: (Seq<Seq<char>>, bool),
    y: (Seq<Seq<char>>, bool),
) -> bool {
    agree_ids(t, path, x.0, y.0) && (composes_in(c, fi) ==> x.1 == y.1)
}

proof fn lemma_lines_alike(
    a: BuildV,
    b: BuildV,
    fi: nat,
    path: Seq<char>,
    lines: Seq<DiffLineV>,
    n: nat,
    x: (Seq<Seq<char>>, bool),
    y: (Seq<Seq<char>>, bool),
)
    requires
        agree(a, b, path),
        alike(a.threads, path, a.composer, fi, x, y),
    ensures
        ({
            let o = rows::lines_out(a, fi, path, lines, n, x.0, x.1);
            let p = rows::lines_out(b, fi, path, lines, n, y.0, y.1);
            o.rows == p.rows && alike(
                a.threads,
                path,
                a.composer,
                fi,
                (o.ids, o.composed),
                (p.ids, p.composed),
            )
        }),
    decreases n,
{
    if n > 0 {
        let m = (n - 1) as nat;
        lemma_lines_alike(a, b, fi, path, lines, m, x, y);
        let o = rows::lines_out(a, fi, path, lines, m, x.0, x.1);
        let p = rows::lines_out(b, fi, path, lines, m, y.0, y.1);
        let l = lines[n - 1];
        if let Some((side, k)) = rows::line_anchor(l.kind, l.old_line, l.new_line) {
            lemma_inject_agrees(
                a,
                b,
                path,
                Some(seq![(side, k)]),
                a.threads.len(),
                o.ids,
                p.ids,
            );
        }
    }
}

proof fn lemma_hunks_alike(
    a: BuildV,
    b: BuildV,
    fi: nat,
    path: Seq<char>,
    hunks: Seq<HunkV>,
    n: nat,
    x: (Seq<Seq<char>>, bool),
    y: (Seq<Seq<char>>, bool),
)
    requires
        agree(a, b, path),
        alike(a.threads, path, a.composer, fi, x, y),
    ensures
        ({
            let o = rows::hunks_out(a, fi, path, hunks, n, x.0, x.1);
            let p = rows::hunks_out(b, fi, path, hunks, n, y.0, y.1);
            o.rows == p.rows && alike(
                a.threads,
                path,
                a.composer,
                fi,
                (o.ids, o.composed),
                (p.ids, p.composed),
            )
        }),
    decreases n,
{
    if n > 0 {
        let m = (n - 1) as nat;
        lemma_hunks_alike(a, b, fi, path, hunks, m, x, y);
        let o = rows::hunks_out(a, fi, path, hunks, m, x.0, x.1);
        let p = rows::hunks_out(b, fi, path, hunks, m, y.0, y.1);
        let h = hunks[n - 1];
        lemma_lines_alike(
            a,
            b,
            fi,
            path,
            h.lines,
            h.lines.len(),
            (o.ids, o.composed),
            (p.ids, p.composed),
        );
    }
}

proof fn lemma_file_alike(
    a: BuildV,
    b: BuildV,
    fi: nat,
    file: DiffFileV,
    x: (Seq<Seq<char>>, bool),
    y: (Seq<Seq<char>>, bool),
)
    requires
        agree(a, b, file.display_path()),
        alike(a.threads, file.display_path(), a.composer, fi, x, y),
    ensures
        rows::file_out(a, fi, file, x.0, x.1).rows == rows::file_out(b, fi, file, y.0, y.1).rows,
{
    let path = file.display_path();
    let n = file.hunks.len();
    lemma_hunks_alike(a, b, fi, path, file.hunks, n, x, y);
    let o = rows::body_out(a, fi, file, x.0, x.1);
    let p = rows::body_out(b, fi, file, y.0, y.1);
    lemma_inject_agrees(a, b, path, None, a.threads.len(), o.ids, p.ids);
}

proof fn lemma_boxes_alike(
    a: BuildV,
    b: BuildV,
    fi: nat,
    anchors: Seq<(Side, u32)>,
    n: nat,
    c: bool,
    d: bool,
)
    requires
        a.composer == b.composer,
        a.width == b.width,
        composes_in(a.composer, fi) ==> c == d,
    ensures
        split::boxes(a, fi, anchors, n, c).0 == split::boxes(b, fi, anchors, n, d).0,
        composes_in(a.composer, fi) ==> split::boxes(a, fi, anchors, n, c).1 == split::boxes(
            b,
            fi,
            anchors,
            n,
            d,
        ).1,
    decreases n,
{
    if n > 0 {
        lemma_boxes_alike(a, b, fi, anchors, (n - 1) as nat, c, d);
    }
}

proof fn lemma_pair_alike(
    a: BuildV,
    b: BuildV,
    fi: nat,
    path: Seq<char>,
    left: Option<CellV>,
    right: Option<CellV>,
    x: (Seq<Seq<char>>, bool),
    y: (Seq<Seq<char>>, bool),
)
    requires
        agree(a, b, path),
        alike(a.threads, path, a.composer, fi, x, y),
    ensures
        ({
            let o = split::pair_out(a, fi, path, left, right, x.0, x.1);
            let p = split::pair_out(b, fi, path, left, right, y.0, y.1);
            o.rows == p.rows && alike(
                a.threads,
                path,
                a.composer,
                fi,
                (o.ids, o.composed),
                (p.ids, p.composed),
            )
        }),
{
    let anchors = split::pair_anchors(left, right);
    lemma_inject_agrees(a, b, path, Some(anchors), a.threads.len(), x.0, y.0);
    lemma_boxes_alike(a, b, fi, anchors, anchors.len(), x.1, y.1);
}

proof fn lemma_zip_alike(
    a: BuildV,
    b: BuildV,
    fi: nat,
    path: Seq<char>,
    dels: Seq<CellV>,
    adds: Seq<CellV>,
    n: nat,
    x: (Seq<Seq<char>>, bool),
    y: (Seq<Seq<char>>, bool),
)
    requires
        agree(a, b, path),
        alike(a.threads, path, a.composer, fi, x, y),
    ensures
        ({
            let o = split::zip_out(a, fi, path, dels, adds, n, x.0, x.1);
            let p = split::zip_out(b, fi, path, dels, adds, n, y.0, y.1);
            o.rows == p.rows && alike(
                a.threads,
                path,
                a.composer,
                fi,
                (o.ids, o.composed),
                (p.ids, p.composed),
            )
        }),
    decreases n,
{
    if n > 0 {
        let m = (n - 1) as nat;
        lemma_zip_alike(a, b, fi, path, dels, adds, m, x, y);
        let o = split::zip_out(a, fi, path, dels, adds, m, x.0, x.1);
        let p = split::zip_out(b, fi, path, dels, adds, m, y.0, y.1);
        lemma_pair_alike(
            a,
            b,
            fi,
            path,
            split::cell_at(dels, n - 1),
            split::cell_at(adds, n - 1),
            (o.ids, o.composed),
            (p.ids, p.composed),
        );
    }
}

/// What two open hunks have in common.
spec fn open_alike(a: BuildV, path: Seq<char>, fi: nat, o: split::Open, p: split::Open) -> bool {
    &&& o.dels == p.dels
    &&& o.adds == p.adds
    &&& o.out.rows == p.out.rows
    &&& alike(
        a.threads,
        path,
        a.composer,
        fi,
        (o.out.ids, o.out.composed),
        (p.out.ids, p.out.composed),
    )
}

proof fn lemma_flushed_alike(
    a: BuildV,
    b: BuildV,
    fi: nat,
    path: Seq<char>,
    o: split::Open,
    p: split::Open,
)
    requires
        agree(a, b, path),
        open_alike(a, path, fi, o, p),
    ensures
        ({
            let f = split::flushed(a, fi, path, o);
            let g = split::flushed(b, fi, path, p);
            f.rows == g.rows && alike(
                a.threads,
                path,
                a.composer,
                fi,
                (f.ids, f.composed),
                (g.ids, g.composed),
            )
        }),
{
    lemma_zip_alike(
        a,
        b,
        fi,
        path,
        o.dels,
        o.adds,
        split::zip_len(o.dels, o.adds),
        (o.out.ids, o.out.composed),
        (p.out.ids, p.out.composed),
    );
}

proof fn lemma_open_alike(
    a: BuildV,
    b: BuildV,
    fi: nat,
    path: Seq<char>,
    lines: Seq<DiffLineV>,
    n: nat,
    x: (Seq<Seq<char>>, bool),
    y: (Seq<Seq<char>>, bool),
)
    requires
        agree(a, b, path),
        alike(a.threads, path, a.composer, fi, x, y),
    ensures
        open_alike(
            a,
            path,
            fi,
            split::lines_open(a, fi, path, lines, n, x.0, x.1),
            split::lines_open(b, fi, path, lines, n, y.0, y.1),
        ),
    decreases n,
{
    if n > 0 {
        let m = (n - 1) as nat;
        lemma_open_alike(a, b, fi, path, lines, m, x, y);
        let o = split::lines_open(a, fi, path, lines, m, x.0, x.1);
        let p = split::lines_open(b, fi, path, lines, m, y.0, y.1);
        lemma_flushed_alike(a, b, fi, path, o, p);
        let f = split::flushed(a, fi, path, o);
        let g = split::flushed(b, fi, path, p);
        let l = lines[n - 1];
        lemma_pair_alike(
            a,
            b,
            fi,
            path,
            Some(split::context_cell(l)),
            Some(split::line_cell(l)),
            (f.ids, f.composed),
            (g.ids, g.composed),
        );
    }
}

proof fn lemma_split_hunks_alike(
    a: BuildV,
    b: BuildV,
    fi: nat,
    path: Seq<char>,
    hunks: Seq<HunkV>,
    n: nat,
    x: (Seq<Seq<char>>, bool),
    y: (Seq<Seq<char>>, bool),
)
    requires
        agree(a, b, path),
        alike(a.threads, path, a.composer, fi, x, y),
    ensures
        ({
            let o = split::hunks_out(a, fi, path, hunks, n, x.0, x.1);
            let p = split::hunks_out(b, fi, path, hunks, n, y.0, y.1);
            o.rows == p.rows && alike(
                a.threads,
                path,
                a.composer,
                fi,
                (o.ids, o.composed),
                (p.ids, p.composed),
            )
        }),
    decreases n,
{
    if n > 0 {
        let m = (n - 1) as nat;
        lemma_split_hunks_alike(a, b, fi, path, hunks, m, x, y);
        let o = split::hunks_out(a, fi, path, hunks, m, x.0, x.1);
        let p = split::hunks_out(b, fi, path, hunks, m, y.0, y.1);
        let h = hunks[n - 1];
        let k = h.lines.len();
        lemma_open_alike(
            a,
            b,
            fi,
            path,
            h.lines,
            k,
            (o.ids, o.composed),
            (p.ids, p.composed),
        );
        lemma_flushed_alike(
            a,
            b,
            fi,
            path,
            split::lines_open(a, fi, path, h.lines, k, o.ids, o.composed),
            split::lines_open(b, fi, path, h.lines, k, p.ids, p.composed),
        );
    }
}

proof fn lemma_split_file_alike(
    a: BuildV,
    b: BuildV,
    fi: nat,
    file: DiffFileV,
    x: (Seq<Seq<char>>, bool),
    y: (Seq<Seq<char>>, bool),
)
    requires
        agree(a, b, file.display_path()),
        alike(a.threads, file.display_path(), a.composer, fi, x, y),
    ensures
        split::file_out(a, fi, file, x.0, x.1).rows == split::file_out(b, fi, file, y.0, y.1).rows,
{
    let path = file.display_path();
    let n = file.hunks.len();
    lemma_split_hunks_alike(a, b, fi, path, file.hunks, n, x, y);
    let o = split::body_out(a, fi, file, x.0, x.1);
    let p = split::body_out(b, fi, file, y.0, y.1);
    lemma_inject_agrees(a, b, path, None, a.threads.len(), o.ids, p.ids);
}

proof fn lemma_anchor_add(a: Seq<AnchoredV>, b: Seq<AnchoredV>, id: Seq<char>)
    ensures
        threads::anchor_of(a + b, id) == match threads::anchor_of(b, id) {
            Some(x) => Some(x),
            None => threads::anchor_of(a, id),
        },
    decreases b.len(),
{
    if b.len() == 0 {
        assert(a + b == a);
    } else {
        lemma_anchor_add(a, b.drop_last(), id);
        assert((a + b).drop_last() == a + b.drop_last());
        assert((a + b).last() == b.last());
    }
}

proof fn lemma_anchor_in_file(file: DiffFileV, t: Seq<ThreadV>, n: nat, id: Seq<char>)
    requires
        n <= t.len(),
    ensures
        threads::anchor_of(threads::anchors_in_file(file, t, n), id) is Some ==> laws::has_thread(
            t,
            file.display_path(),
            id,
        ),
    decreases n,
{
    if n > 0 {
        lemma_anchor_in_file(file, t, (n - 1) as nat, id);
        let before = threads::anchors_in_file(file, t, (n - 1) as nat);
        let x = t[n - 1];
        let now = threads::anchors_in_file(file, t, n);
        if now.len() > before.len() {
            assert(now.drop_last() == before);
        }
    }
}

proof fn lemma_anchors(files: Seq<DiffFileV>, t: Seq<ThreadV>, n: nat, fi: nat, id: Seq<char>)
    requires
        n <= files.len(),
        fi < files.len(),
        forall|j: int|
            0 <= j < files.len() && j != fi ==> !laws::has_thread(
                t,
                (#[trigger] files[j]).display_path(),
                id,
            ),
    ensures
        threads::anchor_of(threads::anchors_in(files, t, n), id) == if fi < n {
            threads::anchor_of(threads::anchors_in_file(files[fi as int], t, t.len()), id)
        } else {
            None
        },
    decreases n,
{
    if n > 0 {
        lemma_anchors(files, t, (n - 1) as nat, fi, id);
        let x = threads::anchors_in_file(files[n - 1], t, t.len());
        lemma_anchor_add(threads::anchors_in(files, t, (n - 1) as nat), x, id);
        lemma_anchor_in_file(files[n - 1], t, t.len(), id);
        if n - 1 != fi {
            assert(!laws::has_thread(t, files[n - 1].display_path(), id));
        }
    }
}

proof fn lemma_elsewhere(files: Seq<DiffFileV>, t: Seq<ThreadV>, fi: nat, k: int)
    requires
        fi < files.len(),
        path_is_own(files, fi),
        ids_differ(t),
        0 <= k < t.len(),
        paths::same(t[k].file, files[fi as int].display_path()),
    ensures
        forall|j: int|
            0 <= j < files.len() && j != fi ==> !laws::has_thread(
                t,
                (#[trigger] files[j]).display_path(),
                t[k].id,
            ),
{
    assert forall|j: int| 0 <= j < files.len() && j != fi implies !laws::has_thread(
        t,
        (#[trigger] files[j]).display_path(),
        t[k].id,
    ) by {
        let path = files[j].display_path();
        if laws::has_thread(t, path, t[k].id) {
            let m = choose|m: int|
                0 <= m < t.len() && (#[trigger] t[m]).id == t[k].id && paths::same(t[m].file, path);
            assert(m == k);
            assert(paths::same(path, files[fi as int].display_path()));
        }
    }
}

proof fn lemma_builds_agree(
    files: Seq<DiffFileV>,
    t: Seq<ThreadV>,
    width: nat,
    composer: Option<ComposerV>,
    fi: nat,
)
    requires
        fi < files.len(),
        path_is_own(files, fi),
        ids_differ(t),
    ensures
        agree(
            rows::build_view(files, t, width, composer, None),
            rows::build_view(files, t, width, composer, Some(fi)),
            files[fi as int].display_path(),
        ),
{
    let a = rows::build_view(files, t, width, composer, None);
    let b = rows::build_view(files, t, width, composer, Some(fi));
    let path = files[fi as int].display_path();
    assert forall|k: int|
        0 <= k < a.threads.len() && paths::same(
            (#[trigger] a.threads[k]).file,
            path,
        ) implies threads::anchor_of(a.last, a.threads[k].id) == threads::anchor_of(
        b.last,
        a.threads[k].id,
    ) by {
        lemma_elsewhere(files, t, fi, k);
        lemma_anchors(files, t, files.len(), fi, t[k].id);
    }
}

proof fn lemma_composed_line(
    b: BuildV,
    fi: nat,
    path: Seq<char>,
    lines: Seq<DiffLineV>,
    n: nat,
    ids: Seq<Seq<char>>,
    c: bool,
)
    ensures
        rows::lines_out(b, fi, path, lines, n, ids, c).composed ==> c || composes_in(
            b.composer,
            fi,
        ),
    decreases n,
{
    if n > 0 {
        lemma_composed_line(b, fi, path, lines, (n - 1) as nat, ids, c);
    }
}

proof fn lemma_composed_hunks(
    b: BuildV,
    fi: nat,
    path: Seq<char>,
    hunks: Seq<HunkV>,
    n: nat,
    ids: Seq<Seq<char>>,
    c: bool,
)
    ensures
        rows::hunks_out(b, fi, path, hunks, n, ids, c).composed ==> c || composes_in(
            b.composer,
            fi,
        ),
    decreases n,
{
    if n > 0 {
        lemma_composed_hunks(b, fi, path, hunks, (n - 1) as nat, ids, c);
        let o = rows::hunks_out(b, fi, path, hunks, (n - 1) as nat, ids, c);
        let h = hunks[n - 1];
        lemma_composed_line(b, fi, path, h.lines, h.lines.len(), o.ids, o.composed);
    }
}

/// Before file `fi` no thread on its path is out, and no composer that belongs to it.
proof fn lemma_before(files: Seq<DiffFileV>, b: BuildV, n: nat, fi: nat)
    requires
        n <= fi < files.len(),
        path_is_own(files, fi),
        ids_differ(b.threads),
    ensures
        ({
            let o = rows::files_out(b, files, None, n);
            alike(
                b.threads,
                files[fi as int].display_path(),
                b.composer,
                fi,
                (o.ids, o.composed),
                (Seq::empty(), false),
            )
        }),
    decreases n,
{
    let path = files[fi as int].display_path();
    let o = rows::files_out(b, files, None, n);
    if n > 0 {
        lemma_before(files, b, (n - 1) as nat, fi);
        let before = rows::files_out(b, files, None, (n - 1) as nat);
        let f = files[n - 1];
        if !f.is_binary {
            lemma_composed_hunks(
                b,
                (n - 1) as nat,
                f.display_path(),
                f.hunks,
                f.hunks.len(),
                before.ids,
                before.composed,
            );
        }
    }
    assert forall|k: int|
        0 <= k < b.threads.len() && paths::same(
            (#[trigger] b.threads[k]).file,
            path,
        ) implies o.ids.contains(b.threads[k].id) == Seq::<Seq<char>>::empty().contains(
        b.threads[k].id,
    ) by {
        lemma_elsewhere(files, b.threads, fi, k);
        laws::lemma_files(b, files, n, b.threads[k].id);
    }
}

proof fn lemma_only(b: BuildV, files: Seq<DiffFileV>, fi: nat, n: nat)
    ensures
        rows::files_out(b, files, Some(fi), n).rows == if fi < n {
            rows::file_out(b, fi, files[fi as int], Seq::empty(), false).rows
        } else {
            Seq::empty()
        },
        n <= fi ==> rows::files_out(b, files, Some(fi), n) == (rows::Out {
            rows: Seq::empty(),
            ids: Seq::empty(),
            composed: false,
        }),
    decreases n,
{
    if n > 0 {
        lemma_only(b, files, fi, (n - 1) as nat);
        if n - 1 == fi {
            let o = rows::file_out(b, fi, files[fi as int], Seq::empty(), false);
            assert(Seq::<RowV>::empty() + o.rows == o.rows);
        }
    }
}

/// Where a file's path is its own and the threads' ids differ, the rows built for the file
/// alone are those that it adds to the rows of the files in front of it.
pub proof fn law_file_rebuild(
    files: Seq<DiffFileV>,
    t: Seq<ThreadV>,
    width: nat,
    composer: Option<ComposerV>,
    fi: nat,
)
    requires
        fi < files.len(),
        path_is_own(files, fi),
        ids_differ(t),
    ensures
        ({
            let b = rows::build_view(files, t, width, composer, None);
            rows::files_out(b, files, None, fi + 1).rows == rows::files_out(
                b,
                files,
                None,
                fi,
            ).rows + rows::rows_of(files, t, width, composer, Some(fi))
        }),
{
    let a = rows::build_view(files, t, width, composer, None);
    let b = rows::build_view(files, t, width, composer, Some(fi));
    lemma_builds_agree(files, t, width, composer, fi);
    lemma_before(files, a, fi, fi);
    lemma_only(b, files, fi, files.len());
    let o = rows::files_out(a, files, None, fi);
    lemma_file_alike(a, b, fi, files[fi as int], (o.ids, o.composed), (Seq::empty(), false));
}

proof fn lemma_split_boxes_composed(
    b: BuildV,
    fi: nat,
    anchors: Seq<(Side, u32)>,
    n: nat,
    c: bool,
)
    ensures
        split::boxes(b, fi, anchors, n, c).1 ==> c || composes_in(b.composer, fi),
    decreases n,
{
    if n > 0 {
        lemma_split_boxes_composed(b, fi, anchors, (n - 1) as nat, c);
    }
}

proof fn lemma_zip_composed(
    b: BuildV,
    fi: nat,
    path: Seq<char>,
    dels: Seq<CellV>,
    adds: Seq<CellV>,
    n: nat,
    ids: Seq<Seq<char>>,
    c: bool,
)
    ensures
        split::zip_out(b, fi, path, dels, adds, n, ids, c).composed ==> c || composes_in(
            b.composer,
            fi,
        ),
    decreases n,
{
    if n > 0 {
        lemma_zip_composed(b, fi, path, dels, adds, (n - 1) as nat, ids, c);
        let o = split::zip_out(b, fi, path, dels, adds, (n - 1) as nat, ids, c);
        let anchors = split::pair_anchors(
            split::cell_at(dels, n - 1),
            split::cell_at(adds, n - 1),
        );
        lemma_split_boxes_composed(b, fi, anchors, anchors.len(), o.composed);
    }
}

proof fn lemma_open_composed(
    b: BuildV,
    fi: nat,
    path: Seq<char>,
    lines: Seq<DiffLineV>,
    n: nat,
    ids: Seq<Seq<char>>,
    c: bool,
)
    ensures
        ({
            let o = split::lines_open(b, fi, path, lines, n, ids, c);
            &&& o.out.composed ==> c || composes_in(b.composer, fi)
            &&& split::flushed(b, fi, path, o).composed ==> c || composes_in(b.composer, fi)
        }),
    decreases n,
{
    if n > 0 {
        lemma_open_composed(b, fi, path, lines, (n - 1) as nat, ids, c);
        let o = split::lines_open(b, fi, path, lines, (n - 1) as nat, ids, c);
        let f = split::flushed(b, fi, path, o);
        let l = lines[n - 1];
        let anchors = split::pair_anchors(
            Some(split::context_cell(l)),
            Some(split::line_cell(l)),
        );
        lemma_split_boxes_composed(b, fi, anchors, anchors.len(), f.composed);
    }
    let o = split::lines_open(b, fi, path, lines, n, ids, c);
    lemma_zip_composed(
        b,
        fi,
        path,
        o.dels,
        o.adds,
        split::zip_len(o.dels, o.adds),
        o.out.ids,
        o.out.composed,
    );
}

proof fn lemma_split_hunks_composed(
    b: BuildV,
    fi: nat,
    path: Seq<char>,
    hunks: Seq<HunkV>,
    n: nat,
    ids: Seq<Seq<char>>,
    c: bool,
)
    ensures
        split::hunks_out(b, fi, path, hunks, n, ids, c).composed ==> c || composes_in(
            b.composer,
            fi,
        ),
    decreases n,
{
    if n > 0 {
        lemma_split_hunks_composed(b, fi, path, hunks, (n - 1) as nat, ids, c);
        let o = split::hunks_out(b, fi, path, hunks, (n - 1) as nat, ids, c);
        let h = hunks[n - 1];
        lemma_open_composed(b, fi, path, h.lines, h.lines.len(), o.ids, o.composed);
    }
}

proof fn lemma_split_before(files: Seq<DiffFileV>, b: BuildV, n: nat, fi: nat)
    requires
        n <= fi < files.len(),
        path_is_own(files, fi),
        ids_differ(b.threads),
    ensures
        ({
            let o = split::files_out(b, files, None, n);
            alike(
                b.threads,
                files[fi as int].display_path(),
                b.composer,
                fi,
                (o.ids, o.composed),
                (Seq::empty(), false),
            )
        }),
    decreases n,
{
    let path = files[fi as int].display_path();
    let o = split::files_out(b, files, None, n);
    if n > 0 {
        lemma_split_before(files, b, (n - 1) as nat, fi);
        let before = split::files_out(b, files, None, (n - 1) as nat);
        let f = files[n - 1];
        if !f.is_binary {
            lemma_split_hunks_composed(
                b,
                (n - 1) as nat,
                f.display_path(),
                f.hunks,
                f.hunks.len(),
                before.ids,
                before.composed,
            );
        }
    }
    assert forall|k: int|
        0 <= k < b.threads.len() && paths::same(
            (#[trigger] b.threads[k]).file,
            path,
        ) implies o.ids.contains(b.threads[k].id) == Seq::<Seq<char>>::empty().contains(
        b.threads[k].id,
    ) by {
        lemma_elsewhere(files, b.threads, fi, k);
        laws::lemma_split_files(b, files, n, b.threads[k].id);
    }
}

proof fn lemma_split_only(b: BuildV, files: Seq<DiffFileV>, fi: nat, n: nat)
    ensures
        split::files_out(b, files, Some(fi), n).rows == if fi < n {
            split::file_out(b, fi, files[fi as int], Seq::empty(), false).rows
        } else {
            Seq::empty()
        },
        n <= fi ==> split::files_out(b, files, Some(fi), n) == (split::Out {
            rows: Seq::empty(),
            ids: Seq::empty(),
            composed: false,
        }),
    decreases n,
{
    if n > 0 {
        lemma_split_only(b, files, fi, (n - 1) as nat);
        if n - 1 == fi {
            let o = split::file_out(b, fi, files[fi as int], Seq::empty(), false);
            assert(Seq::<SplitRowV>::empty() + o.rows == o.rows);
        }
    }
}

/// The same of the split view: where a file's path is its own and the threads' ids differ, the
/// rows built for the file alone are those that it adds to the rows of the files in front of
/// it.
pub proof fn law_file_rebuild_split(
    files: Seq<DiffFileV>,
    t: Seq<ThreadV>,
    width: nat,
    composer: Option<ComposerV>,
    fi: nat,
)
    requires
        fi < files.len(),
        path_is_own(files, fi),
        ids_differ(t),
    ensures
        ({
            let b = rows::build_view(files, t, width, composer, None);
            split::files_out(b, files, None, fi + 1).rows == split::files_out(
                b,
                files,
                None,
                fi,
            ).rows + split::rows_of(files, t, width, composer, Some(fi))
        }),
{
    let a = rows::build_view(files, t, width, composer, None);
    let b = rows::build_view(files, t, width, composer, Some(fi));
    lemma_builds_agree(files, t, width, composer, fi);
    lemma_split_before(files, a, fi, fi);
    lemma_split_only(b, files, fi, files.len());
    let o = split::files_out(a, files, None, fi);
    lemma_split_file_alike(a, b, fi, files[fi as int], (o.ids, o.composed), (Seq::empty(), false));
}

} // verus!
