//! The file-tree model of the sidebar: the collapsible row list and the per-file status and
//! comment markers.
use crate::comments::model::{CommentStore, ThreadV};
use crate::diff::model::{Changeset, DiffFile, DiffFileV};
use crate::paths;
use crate::strs;
use crate::strs::{same_text, split_char};
use crate::ui::render_rows::text;
use crate::ui::render_rows::threads::{has_id, threads_on};
use crate::ui::style::Color;
use crate::ui::theme::Theme;
use vstd::prelude::*;

verus! {

/// A row in the file tree: a directory node (collapsible) or a file entry (by file index).
/// `depth` is the visual nesting level used for indentation.
#[derive(Debug)]
pub enum SbRow {
    Dir { path: String, name: String, depth: usize },
    File { idx: usize, depth: usize },
}

/// What an [`SbRow`] says.
#[verifier::ext_equal]
pub enum SbRowV {
    Dir { path: Seq<char>, name: Seq<char>, depth: nat },
    File { idx: nat, depth: nat },
}

impl View for SbRow {
    type V = SbRowV;

    open spec fn view(&self) -> SbRowV {
        match *self {
            SbRow::Dir { path, name, depth } => SbRowV::Dir {
                path: path@,
                name: name@,
                depth: depth as nat,
            },
            SbRow::File { idx, depth } => SbRowV::File { idx: idx as nat, depth: depth as nat },
        }
    }
}

/// No file on that side.
pub open spec fn absent(path: Seq<char>) -> bool {
    path == "/dev/null"@ || path.len() == 0
}

/// One-letter change status for a file, with its accent color: added, deleted, renamed or
/// modified.
pub open spec fn status_of(f: DiffFileV, t: Theme) -> (char, Color) {
    if absent(f.old_path) {
        ('A', t.added)
    } else if absent(f.new_path) {
        ('D', t.removed)
    } else if f.old_path != f.new_path {
        ('R', t.accent)
    } else {
        ('M', t.warn)
    }
}

fn is_absent(path: &str) -> (r: bool)
    ensures
        r == absent(path@),
{
    path.is_empty() || same_text(path, "/dev/null")
}

/// One-letter change status for a file, with its accent color.
pub fn file_status(f: &DiffFile, theme: &Theme) -> (r: (char, Color))
    ensures
        r == status_of(f@, *theme),
{
    if is_absent(f.old_path.as_str()) {
        ('A', theme.added)
    } else if is_absent(f.new_path.as_str()) {
        ('D', theme.removed)
    } else if !same_text(f.old_path.as_str(), f.new_path.as_str()) {
        ('R', theme.accent)
    } else {
        ('M', theme.warn)
    }
}

/// Everything before the last `/`, or nothing.
pub open spec fn dir_part(path: Seq<char>) -> Seq<char> {
    let i = text::last_index(path, '/');
    if i < 0 {
        Seq::empty()
    } else {
        path.take(i)
    }
}

/// Everything behind the last `/`.
pub open spec fn base_part(path: Seq<char>) -> Seq<char> {
    path.skip(text::last_index(path, '/') + 1)
}

fn last_slash(path: &str) -> (r: Option<usize>)
    ensures
        match r {
            Some(i) => i < path@.len() && text::last_index(path@, '/') == i,
            None => text::last_index(path@, '/') == -1,
        },
{
    let v = strs::chars_of(path);
    text::rfind(&v, '/')
}

/// The directory portion of a path (everything before the last `/`), or `""`.
pub fn dir_of(path: &str) -> (r: &str)
    ensures
        r@ == dir_part(path@),
{
    match last_slash(path) {
        Some(i) => {
            let r = path.substring_char(0, i);
            assert(path@.take(i as int) == path@.subrange(0, i as int));
            r
        },
        None => {
            let r = path.substring_char(0, 0);
            assert(r@ == Seq::<char>::empty());
            r
        },
    }
}

/// The final path segment (filename).
pub fn base_of(path: &str) -> (r: &str)
    ensures
        r@ == base_part(path@),
{
    let n: usize = path.unicode_len();
    match last_slash(path) {
        Some(i) => {
            let r = path.substring_char(i + 1, n);
            assert(path@.skip(i + 1) == path@.subrange(i + 1, n as int));
            r
        },
        None => {
            let r = path.substring_char(0, n);
            assert(path@.skip(0) == path@.subrange(0, n as int));
            r
        },
    }
}

/// The directory segments of a path, outermost first.
pub open spec fn segments(path: Seq<char>) -> Seq<Seq<char>> {
    let dir = dir_part(path);
    if dir.len() == 0 {
        Seq::empty()
    } else {
        strs::split_on(dir, '/')
    }
}

/// The directory segments of a path, outermost first.
pub fn dir_segments(path: &str) -> (r: Vec<String>)
    ensures
        strs::views(r@) == segments(path@),
{
    let dir = dir_of(path);
    if dir.is_empty() {
        let r: Vec<String> = Vec::new();
        assert(strs::views(r@) == Seq::<Seq<char>>::empty());
        r
    } else {
        split_char(dir, '/')
    }
}

/// A directory's path from that of its parent and its own name.
pub open spec fn child_path(prefix: Seq<char>, depth: nat, name: Seq<char>) -> Seq<char> {
    if depth == 0 {
        name
    } else {
        prefix.push('/') + name
    }
}

/// The segments of every file.
pub open spec fn all_segments(files: Seq<DiffFileV>) -> Seq<Seq<Seq<char>>> {
    Seq::new(files.len(), |i: int| segments(files[i].display_path()))
}

/// Whether file `i` lies in directory `name`, `depth` levels down.
pub open spec fn in_dir(segs: Seq<Seq<Seq<char>>>, i: nat, depth: nat, name: Seq<char>) -> bool {
    depth < segs[i as int].len() && segs[i as int][depth as int] == name
}

/// Those of the first `n` of `items` that lie in directory `name`.
pub open spec fn members(
    items: Seq<nat>,
    n: nat,
    segs: Seq<Seq<Seq<char>>>,
    depth: nat,
    name: Seq<char>,
) -> Seq<nat>
    decreases n,
{
    if n == 0 {
        Seq::empty()
    } else {
        let before = members(items, (n - 1) as nat, segs, depth, name);
        if in_dir(segs, items[n - 1], depth, name) {
            before.push(items[n - 1])
        } else {
            before
        }
    }
}

/// The rows of the first `n` of `items`, the files of one directory: a file of the directory
/// itself is a row; the first file of a subdirectory opens it, with the rows of all the
/// files in it below unless it is collapsed.
pub open spec fn tree_rows(
    items: Seq<nat>,
    n: nat,
    segs: Seq<Seq<Seq<char>>>,
    depth: nat,
    deepest: nat,
    prefix: Seq<char>,
    collapsed: Seq<Seq<char>>,
) -> Seq<SbRowV>
    decreases deepest - depth, n,
{
    if n == 0 {
        Seq::empty()
    } else {
        let before = tree_rows(
            items,
            (n - 1) as nat,
            segs,
            depth,
            deepest,
            prefix,
            collapsed,
        );
        let i = items[n - 1];
        if segs[i as int].len() <= depth || depth >= deepest {
            before.push(SbRowV::File { idx: i, depth })
        } else {
            let name = segs[i as int][depth as int];
            if members(items, (n - 1) as nat, segs, depth, name).len() > 0 {
                before
            } else {
                let path = child_path(prefix, depth, name);
                let inner = members(items, items.len(), segs, depth, name);
                let dir = before.push(SbRowV::Dir { path, name, depth });
                if collapsed.contains(path) {
                    dir
                } else {
                    dir + tree_rows(
                        inner,
                        inner.len(),
                        segs,
                        depth + 1,
                        deepest,
                        path,
                        collapsed,
                    )
                }
            }
        }
    }
}

/// The largest number of segments among the first `n` files.
pub open spec fn deepest_among(segs: Seq<Seq<Seq<char>>>, n: nat) -> nat
    decreases n,
{
    if n == 0 {
        0
    } else {
        let before = deepest_among(segs, (n - 1) as nat);
        if segs[n - 1].len() > before {
            segs[n - 1].len()
        } else {
            before
        }
    }
}

/// The rows of the whole tree.
pub open spec fn sidebar_view(files: Seq<DiffFileV>, collapsed: Seq<Seq<char>>) -> Seq<SbRowV> {
    let segs = all_segments(files);
    tree_rows(
        Seq::new(files.len(), |i: int| i as nat),
        files.len(),
        segs,
        0,
        deepest_among(segs, segs.len()),
        Seq::empty(),
        collapsed,
    )
}

/// Where file `i` stands among the first `n` rows: at its last row, or nowhere
/// (`usize::MAX`).
pub open spec fn row_among(rows: Seq<SbRowV>, i: nat, n: nat) -> usize
    decreases n,
{
    if n == 0 {
        usize::MAX
    } else {
        match rows[n - 1] {
            SbRowV::File { idx, .. } => if idx == i {
                (n - 1) as usize
            } else {
                row_among(rows, i, (n - 1) as nat)
            },
            _ => row_among(rows, i, (n - 1) as nat),
        }
    }
}

/// The row of every file.
pub open spec fn row_map(rows: Seq<SbRowV>, files: nat) -> Seq<usize> {
    Seq::new(files, |i: int| row_among(rows, i as nat, rows.len()))
}

pub(crate) proof fn lemma_deepest(segs: Seq<Seq<Seq<char>>>, n: nat)
    requires
        n <= segs.len(),
    ensures
        forall|i: int| 0 <= i < n ==> (#[trigger] segs[i]).len() <= deepest_among(segs, n),
    decreases n,
{
    if n > 0 {
        lemma_deepest(segs, (n - 1) as nat);
    }
}

/// The segments of every file, as held in vectors.
spec fn held(segs: Seq<Vec<String>>) -> Seq<Seq<Seq<char>>> {
    Seq::new(segs.len(), |i: int| strs::views(segs[i]@))
}

/// File indices as held in a vector.
spec fn indices(items: Seq<usize>) -> Seq<nat> {
    Seq::new(items.len(), |i: int| items[i] as nat)
}

fn members_of(items: &Vec<usize>, n: usize, segs: &Vec<Vec<String>>, depth: usize, name: &str) -> (r:
    Vec<usize>)
    requires
        n <= items.len(),
        forall|i: int| 0 <= i < items.len() ==> (#[trigger] items@[i]) < segs.len(),
    ensures
        indices(r@) == members(indices(items@), n as nat, held(segs@), depth as nat, name@),
        forall|i: int| 0 <= i < r.len() ==> (#[trigger] r@[i]) < segs.len(),
{
    let mut r: Vec<usize> = Vec::new();
    let mut k: usize = 0;
    assert(indices(r@) == Seq::<nat>::empty());
    while k < n
        invariant
            k <= n <= items.len(),
            forall|i: int| 0 <= i < items.len() ==> (#[trigger] items@[i]) < segs.len(),
            indices(r@) == members(indices(items@), k as nat, held(segs@), depth as nat, name@),
            forall|i: int| 0 <= i < r.len() ==> (#[trigger] r@[i]) < segs.len(),
        decreases n - k,
    {
        let i: usize = items[k];
        assert(indices(items@)[k as int] == i as nat);
        let s = &segs[i];
        assert(strs::views(s@) == held(segs@)[i as int]);
        if depth < s.len() && same_text(s[depth].as_str(), name) {
            let ghost before = r@;
            r.push(i);
            assert(indices(r@) == indices(before).push(i as nat));
        }
        k += 1;
    }
    r
}

fn push_tree(
    items: &Vec<usize>,
    segs: &Vec<Vec<String>>,
    depth: usize,
    deepest: usize,
    prefix: &str,
    collapsed: &Vec<String>,
    rows: &mut Vec<SbRow>,
)
    requires
        depth <= deepest,
        forall|i: int| 0 <= i < items.len() ==> (#[trigger] items@[i]) < segs.len(),
        forall|i: int| 0 <= i < segs.len() ==> (#[trigger] held(segs@)[i]).len() <= deepest,
    ensures
        strs::views(final(rows)@) == strs::views(old(rows)@) + tree_rows(
            indices(items@),
            items@.len(),
            held(segs@),
            depth as nat,
            deepest as nat,
            prefix@,
            strs::views(collapsed@),
        ),
    decreases deepest - depth,
{
    broadcast use strs::lemma_views_push;

    let ghost o = strs::views(rows@);
    let ghost iv = indices(items@);
    let ghost sv = held(segs@);
    let ghost cv = strs::views(collapsed@);
    let mut k: usize = 0;
    assert(o + Seq::<SbRowV>::empty() == o);
    while k < items.len()
        invariant
            depth <= deepest,
            forall|i: int| 0 <= i < items.len() ==> (#[trigger] items@[i]) < segs.len(),
            forall|i: int| 0 <= i < segs.len() ==> (#[trigger] held(segs@)[i]).len() <= deepest,
            iv == indices(items@),
            sv == held(segs@),
            cv == strs::views(collapsed@),
            0 <= k <= items.len(),
            strs::views(rows@) == o + tree_rows(
                iv,
                k as nat,
                sv,
                depth as nat,
                deepest as nat,
                prefix@,
                cv,
            ),
        decreases items.len() - k,
    {
        let ghost before = tree_rows(
            iv,
            k as nat,
            sv,
            depth as nat,
            deepest as nat,
            prefix@,
            cv,
        );
        let ghost next = tree_rows(
            iv,
            k as nat + 1,
            sv,
            depth as nat,
            deepest as nat,
            prefix@,
            cv,
        );
        let i: usize = items[k];
        assert(iv[k as int] == i as nat);
        let s = &segs[i];
        assert(strs::views(s@) == sv[i as int]);
        if s.len() <= depth {
            rows.push(SbRow::File { idx: i, depth });
            assert(o + before.push(SbRowV::File { idx: i as nat, depth: depth as nat }) == (o
                + before).push(SbRowV::File { idx: i as nat, depth: depth as nat }));
        } else {
            let name = s[depth].as_str();
            assert(name@ == sv[i as int][depth as int]);
            let earlier = members_of(items, k, segs, depth, name);
            assert(indices(earlier@).len() == earlier@.len());
            if earlier.len() == 0 {
                let mut path = String::new();
                if depth > 0 {
                    path.append(prefix);
                    path.push('/');
                }
                path.append(name);
                assert(path@ == child_path(prefix@, depth as nat, name@));
                let inner = members_of(items, items.len(), segs, depth, name);
                assert(indices(inner@).len() == inner@.len());
                let hidden = has_id(collapsed, path.as_str());
                let ghost dir = SbRowV::Dir { path: path@, name: name@, depth: depth as nat };
                let ghost r0 = rows@;
                rows.push(SbRow::Dir { path: path.clone(), name: strs::owned(name), depth });
                assert(rows@.last()@ == dir);
                assert(strs::views(rows@) == strs::views(r0).push(dir));
                assert(strs::views(rows@) == o + before.push(dir));
                if !hidden {
                    push_tree(&inner, segs, depth + 1, deepest, path.as_str(), collapsed, rows);
                    let ghost below = tree_rows(
                        indices(inner@),
                        inner@.len(),
                        sv,
                        depth as nat + 1,
                        deepest as nat,
                        path@,
                        cv,
                    );
                    assert(o + before.push(dir) + below == o + (before.push(dir) + below));
                }
            }
        }
        assert(strs::views(rows@) == o + next);
        k += 1;
    }
}

/// Build the collapsible file tree. Directory segments become `Dir` nodes and repeated
/// directory prefixes are merged into one subtree, with sibling order based on first
/// appearance in the diff. Subtrees under a collapsed directory are omitted. Returns the
/// rows plus a `file_idx -> row` map (`usize::MAX` for files hidden by a collapse).
pub fn build_sidebar_rows(changeset: &Changeset, collapsed: &Vec<String>) -> (r: (
    Vec<SbRow>,
    Vec<usize>,
))
    ensures
        strs::views(r.0@) == sidebar_view(changeset@, strs::views(collapsed@)),
        r.1@ == row_map(strs::views(r.0@), changeset@.len()),
{
    let mut segs: Vec<Vec<String>> = Vec::new();
    let mut items: Vec<usize> = Vec::new();
    let mut deepest: usize = 0;
    let ghost all = all_segments(changeset@);
    let mut i: usize = 0;
    while i < changeset.files.len()
        invariant
            all == all_segments(changeset@),
            0 <= i <= changeset.files.len(),
            segs.len() == i,
            items.len() == i,
            forall|k: int| 0 <= k < i ==> #[trigger] items@[k] == k,
            forall|k: int| 0 <= k < i ==> #[trigger] held(segs@)[k] == all[k],
            deepest == deepest_among(all, i as nat),
        decreases changeset.files.len() - i,
    {
        let f = &changeset.files[i];
        assert(f@ == changeset@[i as int]);
        let s = dir_segments(f.display_path());
        assert(strs::views(s@).len() == s@.len());
        if s.len() > deepest {
            deepest = s.len();
        }
        let ghost before = segs@;
        segs.push(s);
        items.push(i);
        assert forall|k: int| 0 <= k < i + 1 implies #[trigger] held(segs@)[k] == all[k] by {
            if k < i {
                assert(held(segs@)[k] == held(before)[k]);
            }
        }
        i += 1;
    }
    assert(held(segs@) == all);
    proof {
        lemma_deepest(all, all.len());
    }
    assert(indices(items@) == Seq::new(changeset@.len(), |i: int| i as nat));
    let mut rows: Vec<SbRow> = Vec::new();
    assert(strs::views(rows@) == Seq::<SbRowV>::empty());
    assert forall|i: int| 0 <= i < segs.len() implies (#[trigger] held(segs@)[i]).len() <= deepest by {
        assert(all[i].len() <= deepest);
    }
    push_tree(&items, &segs, 0, deepest, "", collapsed, &mut rows);
    proof {
        reveal_strlit("");
        assert(""@ == Seq::<char>::empty());
        assert(Seq::<SbRowV>::empty() + sidebar_view(changeset@, strs::views(collapsed@))
            == sidebar_view(changeset@, strs::views(collapsed@)));
    }
    let map = map_rows(&rows, changeset.files.len());
    (rows, map)
}

fn map_rows(rows: &Vec<SbRow>, files: usize) -> (map: Vec<usize>)
    ensures
        map@ == row_map(strs::views(rows@), files as nat),
{
    let ghost rv = strs::views(rows@);
    let mut map: Vec<usize> = Vec::new();
    let mut i: usize = 0;
    while i < files
        invariant
            i <= files,
            map.len() == i,
            forall|k: int| 0 <= k < i ==> #[trigger] map@[k] == usize::MAX,
        decreases files - i,
    {
        map.push(usize::MAX);
        i += 1;
    }
    let mut r: usize = 0;
    while r < rows.len()
        invariant
            rv == strs::views(rows@),
            0 <= r <= rows.len(),
            map.len() == files,
            forall|k: int| 0 <= k < files ==> #[trigger] map@[k] == row_among(rv, k as nat, r as nat),
        decreases rows.len() - r,
    {
        assert(rv[r as int] == rows@[r as int]@);
        match &rows[r] {
            SbRow::File { idx, .. } => {
                if *idx < map.len() {
                    map.set(*idx, r);
                }
            },
            SbRow::Dir { .. } => {},
        }
        r += 1;
    }
    assert(map@ =~= row_map(rv, files as nat));
    map
}

/// Whether any of the first `n` threads is on `path`, and whether one of these is open.
pub open spec fn markers_among(threads: Seq<ThreadV>, path: Seq<char>, n: nat) -> (bool, bool)
    decreases n,
{
    if n == 0 {
        (false, false)
    } else {
        let (any, open) = markers_among(threads, path, (n - 1) as nat);
        let t = threads[n - 1];
        if paths::same(t.file, path) {
            (true, open || !t.resolved)
        } else {
            (any, open)
        }
    }
}

/// The comment marker of a file.
pub open spec fn comment_state(threads: Seq<ThreadV>, path: Seq<char>) -> Option<bool> {
    let (any, open) = markers_among(threads, path, threads.len());
    if any {
        Some(open)
    } else {
        None
    }
}

/// Comment marker for a file: `Some(true)` when it has an unresolved thread, `Some(false)`
/// when it only has resolved threads, `None` when it has none.
pub fn file_comment_state(comments: &CommentStore, path: &str) -> (r: Option<bool>)
    ensures
        r == comment_state(comments@, path@),
{
    let here = threads_on(comments, path);
    let mut any = false;
    let mut open = false;
    let mut i: usize = 0;
    while i < comments.threads.len()
        invariant
            crate::ui::render_rows::threads::on_path(comments@, path@, here@),
            0 <= i <= comments.threads.len(),
            (any, open) == markers_among(comments@, path@, i as nat),
        decreases comments.threads.len() - i,
    {
        assert(comments.threads@[i as int]@ == comments@[i as int]);
        assert(here@[i as int] == paths::same(comments@[i as int].file, path@));
        if here[i] {
            any = true;
            if !comments.threads[i].resolved {
                open = true;
            }
        }
        i += 1;
    }
    if any {
        Some(open)
    } else {
        None
    }
}

/// The path of the directory that the first `k + 1` segments name.
pub open spec fn dir_at(segs: Seq<Seq<char>>, k: nat) -> Seq<char>
    decreases k,
{
    if k == 0 {
        segs[0]
    } else {
        dir_at(segs, (k - 1) as nat).push('/') + segs[k as int]
    }
}

/// Whether none of a file's directories from depth `depth` on is collapsed.
pub open spec fn open_from(segs: Seq<Seq<char>>, depth: nat, collapsed: Seq<Seq<char>>) -> bool {
    forall|k: nat| depth <= k < segs.len() ==> !collapsed.contains(#[trigger] dir_at(segs, k))
}

/// How many rows show file `i`.
pub open spec fn shown(rows: Seq<SbRowV>, i: nat) -> nat
    decreases rows.len(),
{
    if rows.len() == 0 {
        0
    } else {
        let before = shown(rows.drop_last(), i);
        match rows.last() {
            SbRowV::File { idx, .. } => if idx == i {
                before + 1
            } else {
                before
            },
            _ => before,
        }
    }
}

/// Whether the first `n` items bring file `i` along: it is one of them, or in the directory of
/// one of them.
spec fn brought(items: Seq<nat>, n: nat, segs: Seq<Seq<Seq<char>>>, depth: nat, i: nat) -> bool {
    exists|m: int|
        0 <= m < n && (#[trigger] items[m] == i || (items.contains(i) && depth
            < segs[i as int].len() && in_dir(segs, items[m], depth, segs[i as int][depth as int])))
}

/// The items are files at this place of the tree.
spec fn placed(
    items: Seq<nat>,
    segs: Seq<Seq<Seq<char>>>,
    depth: nat,
    deepest: nat,
    prefix: Seq<char>,
) -> bool {
    &&& items.no_duplicates()
    &&& forall|m: int|
        0 <= m < items.len() ==> {
            let s = segs[#[trigger] items[m] as int];
            &&& items[m] < segs.len()
            &&& depth <= s.len() <= deepest
            &&& depth > 0 ==> prefix == dir_at(s, (depth - 1) as nat)
        }
}

proof fn lemma_shown_push(rows: Seq<SbRowV>, r: SbRowV, i: nat)
    ensures
        shown(rows.push(r), i) == shown(rows, i) + if r matches SbRowV::File { idx, .. } && idx
            == i {
            1nat
        } else {
            0
        },
{
    assert(rows.push(r).drop_last() == rows);
}

proof fn lemma_shown_add(a: Seq<SbRowV>, b: Seq<SbRowV>, i: nat)
    ensures
        shown(a + b, i) == shown(a, i) + shown(b, i),
    decreases b.len(),
{
    if b.len() == 0 {
        assert(a + b == a);
    } else {
        lemma_shown_add(a, b.drop_last(), i);
        assert((a + b).drop_last() == a + b.drop_last());
        assert((a + b).last() == b.last());
    }
}

pub(crate) proof fn lemma_members(
    items: Seq<nat>,
    n: nat,
    segs: Seq<Seq<Seq<char>>>,
    depth: nat,
    name: Seq<char>,
)
    requires
        n <= items.len(),
        items.no_duplicates(),
    ensures
        ({
            let r = members(items, n, segs, depth, name);
            &&& r.no_duplicates()
            &&& forall|k: int|
                0 <= k < r.len() ==> items.take(n as int).contains(#[trigger] r[k]) && in_dir(
                    segs,
                    r[k],
                    depth,
                    name,
                )
            &&& forall|m: int|
                0 <= m < n && in_dir(segs, #[trigger] items[m], depth, name) ==> r.contains(
                    items[m],
                )
        }),
    decreases n,
{
    if n > 0 {
        let before = members(items, (n - 1) as nat, segs, depth, name);
        let r = members(items, n, segs, depth, name);
        lemma_members(items, (n - 1) as nat, segs, depth, name);
        let last = items[n - 1];
        assert forall|k: int| 0 <= k < r.len() implies items.take(n as int).contains(
            #[trigger] r[k],
        ) && in_dir(segs, r[k], depth, name) by {
            if k < before.len() {
                assert(before[k] == r[k]);
                let j = choose|j: int|
                    0 <= j < items.take(n - 1).len() && #[trigger] items.take(n - 1)[j] == before[k];
                assert(items.take(n as int)[j] == r[k]);
            } else {
                assert(items.take(n as int)[n - 1] == last);
            }
        }
        assert forall|m: int|
            0 <= m < n && in_dir(segs, #[trigger] items[m], depth, name) implies r.contains(
            items[m],
        ) by {
            if m < n - 1 {
                assert(before.contains(items[m]));
                let j = choose|j: int| 0 <= j < before.len() && before[j] == items[m];
                assert(r[j] == items[m]);
            } else {
                assert(r[before.len() as int] == last);
            }
        }
        if in_dir(segs, last, depth, name) {
            assert forall|j: int| 0 <= j < before.len() implies #[trigger] before[j] != last by {
                assert(items.take(n - 1).contains(before[j]));
                let m = choose|m: int|
                    0 <= m < items.take(n - 1).len() && #[trigger] items.take(n - 1)[m] == before[j];
                assert(items[m] == before[j]);
            }
        }
    }
}

proof fn lemma_tree_shows(
    items: Seq<nat>,
    n: nat,
    segs: Seq<Seq<Seq<char>>>,
    depth: nat,
    deepest: nat,
    prefix: Seq<char>,
    collapsed: Seq<Seq<char>>,
    i: nat,
)
    requires
        n <= items.len(),
        placed(items, segs, depth, deepest, prefix),
    ensures
        shown(tree_rows(items, n, segs, depth, deepest, prefix, collapsed), i) == if brought(
            items,
            n,
            segs,
            depth,
            i,
        ) && open_from(segs[i as int], depth, collapsed) {
            1nat
        } else {
            0
        },
    decreases deepest - depth, n,
{
    if n > 0 {
        let p = (n - 1) as nat;
        let before = tree_rows(items, p, segs, depth, deepest, prefix, collapsed);
        lemma_tree_shows(items, p, segs, depth, deepest, prefix, collapsed, i);
        let j = items[n - 1];
        let s = segs[j as int];
        if brought(items, p, segs, depth, i) {
            let m = choose|m: int|
                0 <= m < p && (#[trigger] items[m] == i || (items.contains(i) && depth
                    < segs[i as int].len() && in_dir(
                    segs,
                    items[m],
                    depth,
                    segs[i as int][depth as int],
                )));
            assert(0 <= m < n && (items[m] == i || (items.contains(i) && depth
                < segs[i as int].len() && in_dir(
                segs,
                items[m],
                depth,
                segs[i as int][depth as int],
            ))));
            assert(brought(items, n, segs, depth, i));
        }
        if s.len() <= depth || depth >= deepest {
            lemma_shown_push(before, SbRowV::File { idx: j, depth }, i);
            assert(items[n - 1] == j);
            if i == j {
                assert(brought(items, n, segs, depth, i));
                assert(!brought(items, p, segs, depth, i));
            } else if brought(items, n, segs, depth, i) && !brought(items, p, segs, depth, i) {
                assert(in_dir(segs, j, depth, segs[i as int][depth as int]));
                assert(false);
            }
        } else {
            let name = s[depth as int];
            let seen = members(items, p, segs, depth, name);
            lemma_members(items, p, segs, depth, name);
            assert(in_dir(segs, j, depth, name));
            if seen.len() > 0 {
                assert(items.take(p as int).contains(seen[0]));
                let m = choose|m: int|
                    0 <= m < items.take(p as int).len() && #[trigger] items.take(p as int)[m] == seen[0];
                assert(items[m] == seen[0] && in_dir(segs, items[m], depth, name));
                if brought(items, n, segs, depth, i) && !brought(items, p, segs, depth, i) {
                    // Only the last item can bring it, and then an earlier one does as well.
                    if j == i {
                        assert(items.contains(i));
                    }
                    assert(segs[i as int][depth as int] == name);
                    assert(0 <= m < p && in_dir(
                        segs,
                        items[m],
                        depth,
                        segs[i as int][depth as int],
                    ));
                    assert(false);
                }
            } else {
                let path = child_path(prefix, depth, name);
                let inner = members(items, items.len(), segs, depth, name);
                let dir = before.push(SbRowV::Dir { path, name, depth });
                lemma_shown_push(before, SbRowV::Dir { path, name, depth }, i);
                lemma_members(items, items.len(), segs, depth, name);
                assert(items.take(items.len() as int) == items);
                assert(path == dir_at(s, depth));
                assert forall|k: int| 0 <= k < inner.len() implies {
                    let t = segs[#[trigger] inner[k] as int];
                    &&& inner[k] < segs.len()
                    &&& depth + 1 <= t.len() <= deepest
                    &&& path == dir_at(t, depth)
                } by {
                    assert(items.contains(inner[k]));
                    let m = choose|m: int| 0 <= m < items.len() && items[m] == inner[k];
                    assert(items[m] == inner[k]);
                    assert(in_dir(segs, inner[k], depth, name));
                }
                assert(placed(inner, segs, depth + 1, deepest, path));
                // What the new directory brings along.
                assert(inner.contains(i) <==> (items.contains(i) && in_dir(
                    segs,
                    i,
                    depth,
                    name,
                ))) by {
                    if inner.contains(i) {
                        let k = choose|k: int| 0 <= k < inner.len() && inner[k] == i;
                        assert(items.contains(inner[k]));
                    }
                    if items.contains(i) && in_dir(segs, i, depth, name) {
                        let m = choose|m: int| 0 <= m < items.len() && items[m] == i;
                        assert(in_dir(segs, items[m], depth, name));
                    }
                }
                assert(inner.contains(i) ==> !brought(items, p, segs, depth, i)) by {
                    if inner.contains(i) && brought(items, p, segs, depth, i) {
                        let m = choose|m: int|
                            0 <= m < p && (#[trigger] items[m] == i || (items.contains(i) && depth
                                < segs[i as int].len() && in_dir(
                                segs,
                                items[m],
                                depth,
                                segs[i as int][depth as int],
                            )));
                        assert(in_dir(segs, items[m], depth, name));
                        assert(seen.contains(items[m]));
                        assert(false);
                    }
                }
                assert(brought(items, n, segs, depth, i) <==> (brought(items, p, segs, depth, i)
                    || inner.contains(i))) by {
                    if inner.contains(i) {
                        assert(0 <= n - 1 < n && items.contains(i) && in_dir(
                            segs,
                            items[n - 1],
                            depth,
                            segs[i as int][depth as int],
                        ));
                    }
                    if brought(items, n, segs, depth, i) && !brought(items, p, segs, depth, i) {
                        if j == i {
                            assert(items.contains(i));
                        }
                        assert(in_dir(segs, i, depth, name));
                    }
                }
                if inner.contains(i) {
                    assert(dir_at(segs[i as int], depth) == path) by {
                        let k = choose|k: int| 0 <= k < inner.len() && inner[k] == i;
                        assert(inner[k] == i);
                    }
                }
                if !collapsed.contains(path) {
                    let sub = tree_rows(
                        inner,
                        inner.len(),
                        segs,
                        depth + 1,
                        deepest,
                        path,
                        collapsed,
                    );
                    lemma_tree_shows(
                        inner,
                        inner.len(),
                        segs,
                        depth + 1,
                        deepest,
                        path,
                        collapsed,
                        i,
                    );
                    lemma_shown_add(dir, sub, i);
                    assert(brought(inner, inner.len(), segs, depth + 1, i) <==> inner.contains(i));
                    if inner.contains(i) {
                        assert(open_from(segs[i as int], depth, collapsed) <==> open_from(
                            segs[i as int],
                            depth + 1,
                            collapsed,
                        )) by {
                            if open_from(segs[i as int], depth + 1, collapsed) {
                                assert forall|k: nat|
                                    depth <= k < segs[i as int].len() implies !collapsed.contains(
                                    #[trigger] dir_at(segs[i as int], k),
                                ) by {
                                    if k == depth {
                                        assert(dir_at(segs[i as int], depth) == path);
                                    }
                                }
                            }
                        }
                    }
                } else if inner.contains(i) {
                    assert(collapsed.contains(dir_at(segs[i as int], depth)));
                    assert(!open_from(segs[i as int], depth, collapsed));
                }
            }
        }
    }
}

/// A file has exactly one row in the tree where none of its directories is collapsed, and none
/// where one is.
pub proof fn law_file_shown_where_open(files: Seq<DiffFileV>, collapsed: Seq<Seq<char>>, i: nat)
    requires
        i < files.len(),
    ensures
        shown(sidebar_view(files, collapsed), i) == if open_from(
            segments(files[i as int].display_path()),
            0,
            collapsed,
        ) {
            1nat
        } else {
            0
        },
{
    let segs = all_segments(files);
    let items = Seq::new(files.len(), |k: int| k as nat);
    let deepest = deepest_among(segs, segs.len());
    lemma_deepest(segs, segs.len());
    assert(placed(items, segs, 0, deepest, Seq::empty()));
    lemma_tree_shows(items, files.len(), segs, 0, deepest, Seq::empty(), collapsed, i);
    assert(items[i as int] == i);
    assert(brought(items, files.len(), segs, 0, i));
}

} // verus!
