//! How the file list is laid out: every row under its directory, and files in the order of the
//! changeset.
use crate::diff::model::DiffFileV;
use crate::str_laws;
use crate::ui::sidebar;
use crate::ui::sidebar::SbRowV;
use vstd::prelude::*;

verus! {

/// How far a row is indented.
pub open spec fn depth_of(r: SbRowV) -> nat {
    match r {
        SbRowV::Dir { depth, .. } => depth,
        SbRowV::File { depth, .. } => depth,
    }
}

/// The row that row `i` hangs under: the nearest above that is indented less, or -1.
pub open spec fn parent(rows: Seq<SbRowV>, i: int) -> int {
    nearest(rows, depth_of(rows[i]), i)
}

/// The nearest row above row `i` that is indented less than `d`, or -1.
pub open spec fn nearest(rows: Seq<SbRowV>, d: nat, i: int) -> int
    decreases i,
{
    if i <= 0 {
        -1
    } else if depth_of(rows[i - 1]) < d {
        i - 1
    } else {
        nearest(rows, d, i - 1)
    }
}

/// Whether a row is one of directory `dir`: a file in it, or a directory right below it. With no
/// directory, one of the top.
pub open spec fn is_in(files: Seq<DiffFileV>, r: SbRowV, dir: Option<Seq<char>>) -> bool {
    match r {
        SbRowV::File { idx, .. } => idx < files.len() && sidebar::dir_part(
            files[idx as int].display_path(),
        ) == (match dir {
            Some(d) => d,
            None => Seq::empty(),
        }),
        SbRowV::Dir { path, name, .. } => path == (match dir {
            Some(d) => d + seq!['/'] + name,
            None => name,
        }),
    }
}

/// Whether row `i` hangs where it belongs: at the top without indent, or one step further in
/// than its directory, which is open.
pub open spec fn hangs(
    files: Seq<DiffFileV>,
    collapsed: Seq<Seq<char>>,
    rows: Seq<SbRowV>,
    i: int,
) -> bool {
    let j = parent(rows, i);
    if j < 0 {
        depth_of(rows[i]) == 0 && is_in(files, rows[i], None)
    } else {
        depth_of(rows[i]) == depth_of(rows[j]) + 1 && (rows[j] matches SbRowV::Dir { path, .. }
            && !collapsed.contains(path) && is_in(files, rows[i], Some(path)))
    }
}

/// The same within the directory `prefix`, at a depth.
spec fn hangs_below(
    files: Seq<DiffFileV>,
    collapsed: Seq<Seq<char>>,
    rows: Seq<SbRowV>,
    depth: nat,
    prefix: Seq<char>,
    i: int,
) -> bool {
    let j = parent(rows, i);
    if j < 0 {
        depth_of(rows[i]) == depth && is_in(
            files,
            rows[i],
            if depth == 0 {
                None
            } else {
                Some(prefix)
            },
        )
    } else {
        depth_of(rows[i]) > depth && depth_of(rows[i]) == depth_of(rows[j]) + 1 && (
        rows[j] matches SbRowV::Dir { path, .. } && !collapsed.contains(path) && is_in(
            files,
            rows[i],
            Some(path),
        ))
    }
}

spec fn all_hang(
    files: Seq<DiffFileV>,
    collapsed: Seq<Seq<char>>,
    rows: Seq<SbRowV>,
    depth: nat,
    prefix: Seq<char>,
) -> bool {
    forall|i: int|
        0 <= i < rows.len() ==> #[trigger] hangs_below(files, collapsed, rows, depth, prefix, i)
}

proof fn lemma_nearest_range(rows: Seq<SbRowV>, d: nat, i: int)
    requires
        0 <= i <= rows.len(),
    ensures
        -1 <= nearest(rows, d, i) < i || i == 0,
        nearest(rows, d, i) >= 0 ==> depth_of(rows[nearest(rows, d, i)]) < d,
    decreases i,
{
    if i > 0 {
        lemma_nearest_range(rows, d, i - 1);
    }
}

proof fn lemma_nearest_none(rows: Seq<SbRowV>, d: nat, i: int)
    requires
        0 <= i <= rows.len(),
        forall|j: int| 0 <= j < i ==> depth_of(#[trigger] rows[j]) >= d,
    ensures
        nearest(rows, d, i) == -1,
    decreases i,
{
    if i > 0 {
        assert(depth_of(rows[i - 1]) >= d);
        lemma_nearest_none(rows, d, i - 1);
    }
}

proof fn lemma_nearest_front(a: Seq<SbRowV>, b: Seq<SbRowV>, d: nat, i: int)
    requires
        0 <= i <= a.len(),
    ensures
        nearest(a + b, d, i) == nearest(a, d, i),
    decreases i,
{
    if i > 0 {
        lemma_nearest_front(a, b, d, i - 1);
    }
}

proof fn lemma_nearest_back(a: Seq<SbRowV>, b: Seq<SbRowV>, d: nat, i: int)
    requires
        0 <= i <= b.len(),
        a.len() > 0,
    ensures
        nearest(b, d, i) >= 0 ==> nearest(a + b, d, a.len() + i) == a.len() + nearest(b, d, i),
        nearest(b, d, i) < 0 && depth_of(a.last()) < d ==> nearest(a + b, d, a.len() + i)
            == a.len() - 1,
    decreases i,
{
    if i > 0 {
        lemma_nearest_back(a, b, d, i - 1);
        assert((a + b)[a.len() + i - 1] == b[i - 1]);
        lemma_nearest_range(b, d, i - 1);
    } else {
        assert((a + b)[a.len() - 1] == a.last());
    }
}

/// Rows with another one behind them.
proof fn lemma_hang_push(
    files: Seq<DiffFileV>,
    collapsed: Seq<Seq<char>>,
    rows: Seq<SbRowV>,
    depth: nat,
    prefix: Seq<char>,
    r: SbRowV,
)
    requires
        all_hang(files, collapsed, rows, depth, prefix),
        depth_of(r) == depth,
        is_in(
            files,
            r,
            if depth == 0 {
                None
            } else {
                Some(prefix)
            },
        ),
    ensures
        all_hang(files, collapsed, rows.push(r), depth, prefix),
{
    let all = rows.push(r);
    assert(all == rows + seq![r]);
    assert forall|i: int| 0 <= i < all.len() implies #[trigger] hangs_below(
        files,
        collapsed,
        all,
        depth,
        prefix,
        i,
    ) by {
        if i < rows.len() {
            assert(hangs_below(files, collapsed, rows, depth, prefix, i));
            lemma_nearest_front(rows, seq![r], depth_of(rows[i]), i);
            lemma_nearest_range(rows, depth_of(rows[i]), i);
        } else {
            assert forall|j: int| 0 <= j < i implies depth_of(#[trigger] all[j]) >= depth by {
                assert(hangs_below(files, collapsed, rows, depth, prefix, j));
                assert(all[j] == rows[j]);
            }
            lemma_nearest_none(all, depth, i);
        }
    }
}

/// Rows with an open directory and its rows behind them.
proof fn lemma_hang_dir(
    files: Seq<DiffFileV>,
    collapsed: Seq<Seq<char>>,
    rows: Seq<SbRowV>,
    inner: Seq<SbRowV>,
    depth: nat,
    prefix: Seq<char>,
)
    requires
        rows.len() > 0,
        all_hang(files, collapsed, rows, depth, prefix),
        depth_of(rows.last()) == depth,
        rows.last() is Dir,
        !collapsed.contains(rows.last()->path),
        all_hang(files, collapsed, inner, depth + 1, rows.last()->path),
    ensures
        all_hang(files, collapsed, rows + inner, depth, prefix),
{
    let all = rows + inner;
    let path = rows.last()->path;
    assert forall|i: int| 0 <= i < all.len() implies #[trigger] hangs_below(
        files,
        collapsed,
        all,
        depth,
        prefix,
        i,
    ) by {
        if i < rows.len() {
            assert(hangs_below(files, collapsed, rows, depth, prefix, i));
            lemma_nearest_front(rows, inner, depth_of(rows[i]), i);
            lemma_nearest_range(rows, depth_of(rows[i]), i);
        } else {
            let k = i - rows.len();
            assert(hangs_below(files, collapsed, inner, depth + 1, path, k));
            assert(all[i] == inner[k]);
            lemma_nearest_back(rows, inner, depth_of(inner[k]), k);
            lemma_nearest_range(inner, depth_of(inner[k]), k);
        }
    }
}

/// The items are files of the directory `prefix`, which lies `depth` steps in.
spec fn gathered(
    items: Seq<nat>,
    segs: Seq<Seq<Seq<char>>>,
    depth: nat,
    deepest: nat,
    prefix: Seq<char>,
) -> bool {
    &&& items.no_duplicates()
    &&& forall|i: int, j: int| 0 <= i < j < items.len() ==> #[trigger] items[i] < #[trigger] items[j]
    &&& forall|m: int|
        0 <= m < items.len() ==> {
            let s = segs[#[trigger] items[m] as int];
            &&& items[m] < segs.len()
            &&& depth <= s.len() <= deepest
            &&& depth > 0 ==> prefix == sidebar::dir_at(s, (depth - 1) as nat)
        }
}

proof fn lemma_members_rise(
    items: Seq<nat>,
    n: nat,
    segs: Seq<Seq<Seq<char>>>,
    depth: nat,
    name: Seq<char>,
)
    requires
        n <= items.len(),
        forall|i: int, j: int|
            0 <= i < j < items.len() ==> #[trigger] items[i] < #[trigger] items[j],
    ensures
        ({
            let r = sidebar::members(items, n, segs, depth, name);
            &&& forall|i: int, j: int|
                0 <= i < j < r.len() ==> #[trigger] r[i] < #[trigger] r[j]
            &&& n < items.len() ==> forall|i: int|
                0 <= i < r.len() ==> #[trigger] r[i] < items[n as int]
        }),
    decreases n,
{
    if n > 0 {
        lemma_members_rise(items, (n - 1) as nat, segs, depth, name);
        let before = sidebar::members(items, (n - 1) as nat, segs, depth, name);
        let r = sidebar::members(items, n, segs, depth, name);
        assert forall|i: int, j: int| 0 <= i < j < r.len() implies #[trigger] r[i]
            < #[trigger] r[j] by {
            assert(r[i] == before[i]);
            if j < before.len() {
                assert(r[j] == before[j]);
            }
        }
        if n < items.len() {
            assert(items[n - 1] < items[n as int]);
            assert forall|i: int| 0 <= i < r.len() implies #[trigger] r[i] < items[n as int] by {
                if i < before.len() {
                    assert(r[i] == before[i]);
                }
            }
        }
    }
}

proof fn lemma_gathered_inside(
    items: Seq<nat>,
    segs: Seq<Seq<Seq<char>>>,
    depth: nat,
    deepest: nat,
    prefix: Seq<char>,
    k: int,
)
    requires
        gathered(items, segs, depth, deepest, prefix),
        0 <= k < items.len(),
        depth < segs[items[k] as int].len(),
    ensures
        ({
            let name = segs[items[k] as int][depth as int];
            let inner = sidebar::members(items, items.len(), segs, depth, name);
            let path = sidebar::child_path(prefix, depth, name);
            gathered(inner, segs, depth + 1, deepest, path)
        }),
{
    let s = segs[items[k] as int];
    let name = s[depth as int];
    let inner = sidebar::members(items, items.len(), segs, depth, name);
    let path = sidebar::child_path(prefix, depth, name);
    sidebar::lemma_members(items, items.len(), segs, depth, name);
    lemma_members_rise(items, items.len(), segs, depth, name);
    assert(items.take(items.len() as int) == items);
    assert forall|m: int| 0 <= m < inner.len() implies {
        let t = segs[#[trigger] inner[m] as int];
        &&& inner[m] < segs.len()
        &&& depth + 1 <= t.len() <= deepest
        &&& path == sidebar::dir_at(t, depth)
    } by {
        assert(items.contains(inner[m]));
        let q = choose|q: int| 0 <= q < items.len() && items[q] == inner[m];
        assert(items[q] == inner[m]);
        assert(sidebar::in_dir(segs, inner[m], depth, name));
    }
}

proof fn lemma_dir_at(ss: Seq<Seq<char>>, k: nat)
    requires
        k < ss.len(),
    ensures
        sidebar::dir_at(ss, k) == str_laws::with_between(ss.take(k as int + 1), seq!['/']),
    decreases k,
{
    if k > 0 {
        lemma_dir_at(ss, (k - 1) as nat);
        assert(ss.take(k as int + 1).drop_last() == ss.take(k as int));
        let x = sidebar::dir_at(ss, (k - 1) as nat);
        assert(x.push('/') + ss[k as int] == x + seq!['/'] + ss[k as int]);
    }
}

/// The directory of a file is made of its segments.
proof fn lemma_whole_dir(path: Seq<char>)
    ensures
        ({
            let ss = sidebar::segments(path);
            if ss.len() == 0 {
                sidebar::dir_part(path).len() == 0
            } else {
                sidebar::dir_at(ss, (ss.len() - 1) as nat) == sidebar::dir_part(path)
            }
        }),
{
    let dir = sidebar::dir_part(path);
    let ss = sidebar::segments(path);
    if dir.len() > 0 {
        str_laws::law_split_keeps_the_text(dir, '/');
        lemma_dir_at(ss, (ss.len() - 1) as nat);
        assert(ss.take(ss.len() as int) == ss);
    }
}

proof fn lemma_tree_hangs(
    files: Seq<DiffFileV>,
    items: Seq<nat>,
    n: nat,
    depth: nat,
    deepest: nat,
    prefix: Seq<char>,
    collapsed: Seq<Seq<char>>,
)
    requires
        n <= items.len(),
        gathered(items, sidebar::all_segments(files), depth, deepest, prefix),
    ensures
        all_hang(
            files,
            collapsed,
            sidebar::tree_rows(
                items,
                n,
                sidebar::all_segments(files),
                depth,
                deepest,
                prefix,
                collapsed,
            ),
            depth,
            prefix,
        ),
    decreases deepest - depth, n,
{
    let segs = sidebar::all_segments(files);
    if n > 0 {
        let p = (n - 1) as nat;
        lemma_tree_hangs(files, items, p, depth, deepest, prefix, collapsed);
        let before = sidebar::tree_rows(items, p, segs, depth, deepest, prefix, collapsed);
        let i = items[n - 1];
        let s = segs[i as int];
        if s.len() <= depth || depth >= deepest {
            lemma_whole_dir(files[i as int].display_path());
            assert(sidebar::dir_part(files[i as int].display_path()) == if depth == 0 {
                Seq::<char>::empty()
            } else {
                prefix
            });
            lemma_hang_push(
                files,
                collapsed,
                before,
                depth,
                prefix,
                SbRowV::File { idx: i, depth },
            );
        } else {
            let name = s[depth as int];
            if sidebar::members(items, p, segs, depth, name).len() == 0 {
                let path = sidebar::child_path(prefix, depth, name);
                let inner = sidebar::members(items, items.len(), segs, depth, name);
                let r = SbRowV::Dir { path, name, depth };
                assert(depth > 0 ==> path == prefix + seq!['/'] + name);
                lemma_hang_push(files, collapsed, before, depth, prefix, r);
                if !collapsed.contains(path) {
                    lemma_gathered_inside(items, segs, depth, deepest, prefix, n - 1);
                    lemma_tree_hangs(
                        files,
                        inner,
                        inner.len(),
                        depth + 1,
                        deepest,
                        path,
                        collapsed,
                    );
                    let sub = sidebar::tree_rows(
                        inner,
                        inner.len(),
                        segs,
                        depth + 1,
                        deepest,
                        path,
                        collapsed,
                    );
                    lemma_hang_dir(files, collapsed, before.push(r), sub, depth, prefix);
                }
            }
        }
    }
}

proof fn lemma_all_gathered(files: Seq<DiffFileV>)
    ensures
        ({
            let segs = sidebar::all_segments(files);
            gathered(
                Seq::new(files.len(), |k: int| k as nat),
                segs,
                0,
                sidebar::deepest_among(segs, segs.len()),
                Seq::empty(),
            )
        }),
{
    let segs = sidebar::all_segments(files);
    sidebar::lemma_deepest(segs, segs.len());
}

/// Every row of the list hangs under its directory: a file one step further in than the
/// directory that its path names, a directory one step further in than the one that it is in,
/// and what is in none at the top; and nothing hangs under a folded directory.
pub proof fn law_rows_hang_under_their_directory(
    files: Seq<DiffFileV>,
    collapsed: Seq<Seq<char>>,
    i: int,
)
    requires
        0 <= i < sidebar::sidebar_view(files, collapsed).len(),
    ensures
        hangs(files, collapsed, sidebar::sidebar_view(files, collapsed), i),
{
    let segs = sidebar::all_segments(files);
    let deepest = sidebar::deepest_among(segs, segs.len());
    let rows = sidebar::sidebar_view(files, collapsed);
    lemma_all_gathered(files);
    lemma_tree_hangs(
        files,
        Seq::new(files.len(), |k: int| k as nat),
        files.len(),
        0,
        deepest,
        Seq::empty(),
        collapsed,
    );
    assert(hangs_below(files, collapsed, rows, 0, Seq::empty(), i));
    lemma_nearest_range(rows, depth_of(rows[i]), i);
}

/// Whether one of the first `n` items brings file `x` along.
spec fn brought(items: Seq<nat>, n: nat, segs: Seq<Seq<Seq<char>>>, depth: nat, x: nat) -> bool {
    items.contains(x) && exists|m: int|
        0 <= m < n && (#[trigger] items[m] == x || (depth < segs[x as int].len()
            && sidebar::in_dir(segs, items[m], depth, segs[x as int][depth as int])))
}

/// Whether files of one directory stand in their order, and all come from the first `n` items.
spec fn ordered(
    rows: Seq<SbRowV>,
    items: Seq<nat>,
    n: nat,
    segs: Seq<Seq<Seq<char>>>,
    depth: nat,
) -> bool {
    &&& forall|i: int|
        0 <= i < rows.len() && (#[trigger] rows[i] is File) ==> brought(
            items,
            n,
            segs,
            depth,
            rows[i]->idx,
        )
    &&& forall|i: int, j: int|
        0 <= i < j < rows.len() && (#[trigger] rows[i] is File) && (#[trigger] rows[j] is File)
            && segs[rows[i]->idx as int] == segs[rows[j]->idx as int] ==> rows[i]->idx
            < rows[j]->idx
}

proof fn lemma_brought_later(
    items: Seq<nat>,
    n: nat,
    segs: Seq<Seq<Seq<char>>>,
    depth: nat,
    x: nat,
)
    requires
        n > 0,
        brought(items, (n - 1) as nat, segs, depth, x),
    ensures
        brought(items, n, segs, depth, x),
{
    let m = choose|m: int|
        0 <= m < n - 1 && (#[trigger] items[m] == x || (depth < segs[x as int].len()
            && sidebar::in_dir(segs, items[m], depth, segs[x as int][depth as int])));
    assert(items[m] == x || (depth < segs[x as int].len() && sidebar::in_dir(
        segs,
        items[m],
        depth,
        segs[x as int][depth as int],
    )));
}

proof fn lemma_tree_ordered(
    items: Seq<nat>,
    n: nat,
    segs: Seq<Seq<Seq<char>>>,
    depth: nat,
    deepest: nat,
    prefix: Seq<char>,
    collapsed: Seq<Seq<char>>,
)
    requires
        n <= items.len(),
        gathered(items, segs, depth, deepest, prefix),
    ensures
        ordered(
            sidebar::tree_rows(items, n, segs, depth, deepest, prefix, collapsed),
            items,
            n,
            segs,
            depth,
        ),
    decreases deepest - depth, n,
{
    if n > 0 {
        let p = (n - 1) as nat;
        lemma_tree_ordered(items, p, segs, depth, deepest, prefix, collapsed);
        let before = sidebar::tree_rows(items, p, segs, depth, deepest, prefix, collapsed);
        let rows = sidebar::tree_rows(items, n, segs, depth, deepest, prefix, collapsed);
        let x = items[n - 1];
        let s = segs[x as int];
        assert forall|i: int| 0 <= i < before.len() && (#[trigger] before[i] is File) implies brought(
            items,
            n,
            segs,
            depth,
            before[i]->idx,
        ) by {
            lemma_brought_later(items, n, segs, depth, before[i]->idx);
        }
        if s.len() <= depth || depth >= deepest {
            assert(items[n - 1] == x);
            assert(items.contains(x));
            assert(brought(items, n, segs, depth, x));
            assert forall|i: int|
                0 <= i < before.len() && (#[trigger] before[i] is File)
                    && segs[before[i]->idx as int] == s implies before[i]->idx < x by {
                let y = before[i]->idx;
                let m = choose|m: int|
                    0 <= m < p && (#[trigger] items[m] == y || (depth < segs[y as int].len()
                        && sidebar::in_dir(segs, items[m], depth, segs[y as int][depth as int])));
                assert(items[m] < items[n - 1]);
            }
        } else {
            let name = s[depth as int];
            sidebar::lemma_members(items, p, segs, depth, name);
            if sidebar::members(items, p, segs, depth, name).len() == 0 {
                let path = sidebar::child_path(prefix, depth, name);
                let inner = sidebar::members(items, items.len(), segs, depth, name);
                let dir = before.push(SbRowV::Dir { path, name, depth });
                if !collapsed.contains(path) {
                    lemma_gathered_inside(items, segs, depth, deepest, prefix, n - 1);
                    sidebar::lemma_members(items, items.len(), segs, depth, name);
                    assert(items.take(items.len() as int) == items);
                    lemma_tree_ordered(
                        inner,
                        inner.len(),
                        segs,
                        depth + 1,
                        deepest,
                        path,
                        collapsed,
                    );
                    let sub = sidebar::tree_rows(
                        inner,
                        inner.len(),
                        segs,
                        depth + 1,
                        deepest,
                        path,
                        collapsed,
                    );
                    assert(rows == dir + sub);
                    assert forall|k: int| 0 <= k < sub.len() && (#[trigger] sub[k] is File) implies ({
                        let y = sub[k]->idx;
                        &&& items.contains(y)
                        &&& sidebar::in_dir(segs, y, depth, name)
                    }) by {
                        let y = sub[k]->idx;
                        assert(inner.contains(y));
                        let q = choose|q: int| 0 <= q < inner.len() && inner[q] == y;
                        assert(items.contains(inner[q]));
                    }
                    assert forall|i: int|
                        0 <= i < rows.len() && (#[trigger] rows[i] is File) implies brought(
                        items,
                        n,
                        segs,
                        depth,
                        rows[i]->idx,
                    ) by {
                        if i < before.len() {
                            assert(rows[i] == before[i]);
                        } else if i > before.len() {
                            let k = i - dir.len();
                            assert(rows[i] == sub[k]);
                            assert(items[n - 1] == x && sidebar::in_dir(
                                segs,
                                items[n - 1],
                                depth,
                                name,
                            ));
                        }
                    }
                    assert forall|i: int, j: int|
                        0 <= i < j < rows.len() && (#[trigger] rows[i] is File) && (
                        #[trigger] rows[j] is File) && segs[rows[i]->idx as int]
                            == segs[rows[j]->idx as int] implies rows[i]->idx < rows[j]->idx by {
                        if j < before.len() {
                            assert(rows[i] == before[i] && rows[j] == before[j]);
                        } else if i > before.len() {
                            assert(rows[i] == sub[i - dir.len()]);
                            assert(rows[j] == sub[j - dir.len()]);
                        } else {
                            assert(rows[i] == before[i]);
                            assert(rows[j] == sub[j - dir.len()]);
                            let y = before[i]->idx;
                            assert(sidebar::in_dir(segs, y, depth, name));
                            let m = choose|m: int|
                                0 <= m < p && (#[trigger] items[m] == y || (depth
                                    < segs[y as int].len() && sidebar::in_dir(
                                    segs,
                                    items[m],
                                    depth,
                                    segs[y as int][depth as int],
                                )));
                            assert(sidebar::in_dir(segs, items[m], depth, name));
                            assert(sidebar::members(items, p, segs, depth, name).contains(
                                items[m],
                            ));
                        }
                    }
                }
            }
        }
    }
}

/// Files of one directory stand in the list in the order of the changeset.
pub proof fn law_files_keep_their_order(
    files: Seq<DiffFileV>,
    collapsed: Seq<Seq<char>>,
    i: int,
    j: int,
)
    requires
        0 <= i < j < sidebar::sidebar_view(files, collapsed).len(),
        sidebar::sidebar_view(files, collapsed)[i] is File,
        sidebar::sidebar_view(files, collapsed)[j] is File,
        ({
            let rows = sidebar::sidebar_view(files, collapsed);
            sidebar::dir_part(files[rows[i]->idx as int].display_path()) == sidebar::dir_part(
                files[rows[j]->idx as int].display_path(),
            )
        }),
    ensures
        sidebar::sidebar_view(files, collapsed)[i]->idx < sidebar::sidebar_view(
            files,
            collapsed,
        )[j]->idx,
{
    let segs = sidebar::all_segments(files);
    let deepest = sidebar::deepest_among(segs, segs.len());
    let items = Seq::new(files.len(), |k: int| k as nat);
    let rows = sidebar::sidebar_view(files, collapsed);
    lemma_all_gathered(files);
    lemma_tree_ordered(items, files.len(), segs, 0, deepest, Seq::empty(), collapsed);
    assert(brought(items, files.len(), segs, 0, rows[i]->idx));
    assert(brought(items, files.len(), segs, 0, rows[j]->idx));
}

} // verus!
