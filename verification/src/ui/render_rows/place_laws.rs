//! Where boxes stand: a thread behind the last line that it covers, a composer behind the line
//! it is for or under the thread that it answers.
use crate::comments::model::{LineRange, ThreadV};
use crate::diff::model::{DiffFileV, DiffLineV, HunkV, LineKind, Side};
use crate::paths;
use crate::ui::render_rows::rows;
use crate::ui::render_rows::rows::{RowKindV, RowV};
use crate::ui::render_rows::split;
use crate::ui::render_rows::split::{CellV, Open, SplitKindV, SplitRowV};
use crate::ui::render_rows::threads;
use crate::ui::render_rows::threads::{
    AnchoredV, BuildV, ComposerAnchorV, ComposerV, InjectedV,
};
use vstd::prelude::*;

verus! {

/// What a row is to a box: a line of the diff with the numbers that it can be commented on
/// under, another row of the diff, a line of a thread's box, or a line of the composer.
pub enum Mark {
    At(Seq<(Side, u32)>),
    Other,
    Note(Seq<char>),
    Draft,
}

/// A number with its side, where there is one.
pub open spec fn numbered(side: Side, n: Option<u32>) -> Seq<(Side, u32)> {
    match n {
        Some(x) => seq![(side, x)],
        None => Seq::empty(),
    }
}

/// What a row is to a box.
pub open spec fn mark(r: RowV) -> Mark {
    match r.kind {
        RowKindV::Line { kind, old_line, new_line } => Mark::At(
            if kind == LineKind::Deletion {
                numbered(Side::Old, old_line)
            } else {
                numbered(Side::New, new_line)
            },
        ),
        RowKindV::Comment(c) => Mark::Note(c.thread_id),
        RowKindV::Composer(_) => Mark::Draft,
        _ => Mark::Other,
    }
}

/// The number of a cell.
pub open spec fn cell_number(c: Option<CellV>) -> Option<u32> {
    match c {
        Some(x) => x.line,
        None => None,
    }
}

/// What a split row is to a box.
pub open spec fn split_mark(r: SplitRowV) -> Mark {
    match r.kind {
        SplitKindV::Pair { left, right } => Mark::At(
            numbered(Side::Old, cell_number(left)) + numbered(Side::New, cell_number(right)),
        ),
        SplitKindV::Comment { side, line } => Mark::Note(line.thread_id),
        SplitKindV::Composer { .. } => Mark::Draft,
        _ => Mark::Other,
    }
}

/// What rows are to a box.
pub open spec fn marks(s: Seq<RowV>) -> Seq<Mark> {
    Seq::new(s.len(), |i: int| mark(s[i]))
}

/// What split rows are to a box.
pub open spec fn split_marks(s: Seq<SplitRowV>) -> Seq<Mark> {
    Seq::new(s.len(), |i: int| split_mark(s[i]))
}

/// The nearest row of the diff above row `i`, or -1.
pub open spec fn above(m: Seq<Mark>, i: int) -> int
    decreases i,
{
    if i <= 0 {
        -1
    } else if m[i - 1] is Note || m[i - 1] is Draft {
        above(m, i - 1)
    } else {
        i - 1
    }
}

/// The nearest row above row `i` that is not of the composer, or -1.
pub open spec fn over(m: Seq<Mark>, i: int) -> int
    decreases i,
{
    if i <= 0 {
        -1
    } else if m[i - 1] is Draft {
        over(m, i - 1)
    } else {
        i - 1
    }
}

/// The number of a line on a side.
pub open spec fn number(l: DiffLineV, side: Side) -> Option<u32> {
    match side {
        Side::Old => l.old_line,
        Side::New => l.new_line,
    }
}

/// Whether the diff of a file has line `n` of a side.
pub open spec fn has_line(f: DiffFileV, side: Side, n: u32) -> bool {
    exists|h: int, k: int|
        0 <= h < f.hunks.len() && 0 <= k < f.hunks[h].lines.len() && number(
            #[trigger] f.hunks[h].lines[k],
            side,
        ) == Some(n)
}

/// Whether a thread is about line `n` of its side.
pub open spec fn covers(t: ThreadV, n: u32) -> bool {
    t.range.start <= n <= t.range.end
}

/// Whether `n` is the last line that a thread is about, of those that the diff has.
pub open spec fn last_covered(f: DiffFileV, t: ThreadV, n: u32) -> bool {
    &&& has_line(f, t.side, n) && covers(t, n)
    &&& forall|k: u32| #[trigger] has_line(f, t.side, k) && covers(t, k) ==> k <= n
}

/// Whether the box of a thread belongs behind a row.
pub open spec fn hosts(f: DiffFileV, t: ThreadV, m: Mark) -> bool {
    match m {
        Mark::At(a) => exists|n: u32| #[trigger] last_covered(f, t, n) && a.contains((t.side, n)),
        _ => false,
    }
}

/// Whether no two threads share an id.
pub open spec fn own_ids(t: Seq<ThreadV>) -> bool {
    forall|i: int, j: int|
        0 <= i < j < t.len() ==> (#[trigger] t[i]).id != (#[trigger] t[j]).id
}

/// Whether row `i` stands where it belongs. A line of a thread's box: the thread is on the file,
/// and the nearest row of the diff above has the last line that the thread covers; or no row of
/// the file has it, and the box stands behind all lines. A line of the composer: the nearest row
/// of the diff above is the line that it is for, or the box right above is that of the thread
/// that it answers.
pub open spec fn in_place(
    f: DiffFileV,
    t: Seq<ThreadV>,
    composer: Option<ComposerV>,
    m: Seq<Mark>,
    i: int,
) -> bool {
    match m[i] {
        Mark::Note(id) => exists|k: int|
            0 <= k < t.len() && (#[trigger] t[k]).id == id && paths::same(
                t[k].file,
                f.display_path(),
            ) && (0 <= above(m, i) && hosts(f, t[k], m[above(m, i)]) || ((forall|j: int|
                0 <= j < m.len() ==> !hosts(f, t[k], #[trigger] m[j])) && (forall|j: int|
                i <= j < m.len() ==> !(#[trigger] m[j] is At)))),
        Mark::Draft => match composer {
            Some(c) => match c.anchor {
                ComposerAnchorV::NewThread { side, line, .. } => 0 <= above(m, i) && (m[above(
                    m,
                    i,
                )] matches Mark::At(a) && a.contains((side, line))),
                ComposerAnchorV::Reply { thread_id } => 0 <= over(m, i) && m[over(m, i)]
                    == Mark::Note(thread_id),
            },
            None => false,
        },
        _ => true,
    }
}

/// The same without the boxes that no line hosts.
spec fn settled(
    f: DiffFileV,
    t: Seq<ThreadV>,
    composer: Option<ComposerV>,
    m: Seq<Mark>,
    i: int,
) -> bool {
    match m[i] {
        Mark::Note(id) => exists|k: int|
            0 <= k < t.len() && (#[trigger] t[k]).id == id && paths::same(
                t[k].file,
                f.display_path(),
            ) && 0 <= above(m, i) && hosts(f, t[k], m[above(m, i)]),
        _ => in_place(f, t, composer, m, i),
    }
}

spec fn all_settled(
    f: DiffFileV,
    t: Seq<ThreadV>,
    composer: Option<ComposerV>,
    m: Seq<Mark>,
) -> bool {
    forall|i: int| 0 <= i < m.len() ==> #[trigger] settled(f, t, composer, m, i)
}

proof fn lemma_range(m: Seq<Mark>, i: int)
    requires
        0 <= i <= m.len(),
    ensures
        -1 <= above(m, i) < i || (above(m, i) == -1 && i == 0),
        -1 <= over(m, i) < i || (over(m, i) == -1 && i == 0),
    decreases i,
{
    if i > 0 {
        lemma_range(m, i - 1);
    }
}

proof fn lemma_front(a: Seq<Mark>, b: Seq<Mark>, i: int)
    requires
        0 <= i <= a.len(),
    ensures
        above(a + b, i) == above(a, i),
        over(a + b, i) == over(a, i),
    decreases i,
{
    if i > 0 {
        lemma_front(a, b, i - 1);
    }
}

proof fn lemma_back(a: Seq<Mark>, b: Seq<Mark>, i: int)
    requires
        0 <= i <= b.len(),
    ensures
        above(b, i) >= 0 ==> above(a + b, a.len() + i) == a.len() + above(b, i),
        over(b, i) >= 0 ==> over(a + b, a.len() + i) == a.len() + over(b, i),
    decreases i,
{
    if i > 0 {
        lemma_back(a, b, i - 1);
        assert((a + b)[a.len() + i - 1] == b[i - 1]);
    }
}

proof fn lemma_settled_add(
    f: DiffFileV,
    t: Seq<ThreadV>,
    c: Option<ComposerV>,
    a: Seq<Mark>,
    b: Seq<Mark>,
)
    requires
        all_settled(f, t, c, a),
        all_settled(f, t, c, b),
    ensures
        all_settled(f, t, c, a + b),
{
    let m = a + b;
    assert forall|i: int| 0 <= i < m.len() implies #[trigger] settled(f, t, c, m, i) by {
        if i < a.len() {
            assert(settled(f, t, c, a, i));
            lemma_front(a, b, i);
            lemma_range(a, i);
        } else {
            let j = i - a.len();
            assert(settled(f, t, c, b, j));
            lemma_back(a, b, j);
            lemma_range(b, j);
        }
    }
}

proof fn lemma_best_lines(
    lines: Seq<DiffLineV>,
    n: nat,
    side: Side,
    range: LineRange,
    best: Option<u32>,
)
    requires
        n <= lines.len(),
    ensures
        ({
            let r = threads::best_in_lines(lines, n, side, range, best);
            &&& best is Some ==> r is Some && best->0 <= r->0
            &&& forall|k: int|
                0 <= k < n && number(#[trigger] lines[k], side) is Some && range.start <= number(
                    lines[k],
                    side,
                )->0 <= range.end ==> r is Some && number(lines[k], side)->0 <= r->0
            &&& r != best ==> r is Some && range.start <= r->0 <= range.end && exists|k: int|
                0 <= k < n && number(#[trigger] lines[k], side) == r
        }),
    decreases n,
{
    if n > 0 {
        let m = (n - 1) as nat;
        lemma_best_lines(lines, m, side, range, best);
        let before = threads::best_in_lines(lines, m, side, range, best);
        let r = threads::best_in_lines(lines, n, side, range, best);
        assert(threads::line_on(lines[n - 1], side) == number(lines[n - 1], side));
        if r != best {
            if r == before {
                let k = choose|k: int| 0 <= k < m && number(#[trigger] lines[k], side) == before;
                assert(number(lines[k], side) == r);
            } else {
                assert(number(lines[n - 1], side) == r);
            }
        }
    }
}

proof fn lemma_best_hunks(hunks: Seq<HunkV>, n: nat, side: Side, range: LineRange)
    requires
        n <= hunks.len(),
    ensures
        ({
            let r = threads::best_in_hunks(hunks, n, side, range);
            &&& forall|h: int, k: int|
                0 <= h < n && 0 <= k < hunks[h].lines.len() && number(
                    #[trigger] hunks[h].lines[k],
                    side,
                ) is Some && range.start <= number(hunks[h].lines[k], side)->0 <= range.end
                    ==> r is Some && number(hunks[h].lines[k], side)->0 <= r->0
            &&& r is Some ==> range.start <= r->0 <= range.end && exists|h: int, k: int|
                0 <= h < n && 0 <= k < hunks[h].lines.len() && number(
                    #[trigger] hunks[h].lines[k],
                    side,
                ) == r
        }),
    decreases n,
{
    if n > 0 {
        let m = (n - 1) as nat;
        lemma_best_hunks(hunks, m, side, range);
        let before = threads::best_in_hunks(hunks, m, side, range);
        let r = threads::best_in_hunks(hunks, n, side, range);
        let lines = hunks[n - 1].lines;
        lemma_best_lines(lines, lines.len(), side, range, before);
        if r is Some {
            if r == before {
                let (h, k) = choose|h: int, k: int|
                    0 <= h < m && 0 <= k < hunks[h].lines.len() && number(
                        #[trigger] hunks[h].lines[k],
                        side,
                    ) == before;
                assert(number(hunks[h].lines[k], side) == r);
            } else {
                let k = choose|k: int|
                    0 <= k < lines.len() && number(#[trigger] lines[k], side) == r;
                assert(number(hunks[n - 1].lines[k], side) == r);
            }
        }
    }
}

proof fn lemma_last(f: DiffFileV, t: ThreadV, n: u32)
    ensures
        threads::last_line(f, t) == Some(n) <==> last_covered(f, t, n),
{
    lemma_best_hunks(f.hunks, f.hunks.len(), t.side, t.range);
    let r = threads::last_line(f, t);
    assert forall|k: u32| #[trigger] has_line(f, t.side, k) && covers(t, k) implies r is Some && k
        <= r->0 by {
        let (h, j) = choose|h: int, j: int|
            0 <= h < f.hunks.len() && 0 <= j < f.hunks[h].lines.len() && number(
                #[trigger] f.hunks[h].lines[j],
                t.side,
            ) == Some(k);
        assert(number(f.hunks[h].lines[j], t.side) == Some(k));
    }
    if r is Some {
        let (h, j) = choose|h: int, j: int|
            0 <= h < f.hunks.len() && 0 <= j < f.hunks[h].lines.len() && number(
                #[trigger] f.hunks[h].lines[j],
                t.side,
            ) == r;
        assert(number(f.hunks[h].lines[j], t.side) == r);
        assert(has_line(f, t.side, r->0));
        assert(covers(t, r->0));
    }
}

/// Where a thread on a file is anchored.
spec fn spot(f: DiffFileV, t: ThreadV) -> Option<(Side, u32)> {
    match threads::last_line(f, t) {
        Some(n) => Some((t.side, n)),
        None => None,
    }
}

proof fn lemma_anchor(f: DiffFileV, t: Seq<ThreadV>, n: nat, k: int)
    requires
        own_ids(t),
        n <= t.len(),
        0 <= k < t.len(),
        paths::same(t[k].file, f.display_path()),
    ensures
        threads::anchor_of(threads::anchors_in_file(f, t, n), t[k].id) == (if k < n {
            spot(f, t[k])
        } else {
            None
        }),
    decreases n,
{
    if n > 0 {
        lemma_anchor(f, t, (n - 1) as nat, k);
        let before = threads::anchors_in_file(f, t, (n - 1) as nat);
        let u = t[n - 1];
        if paths::same(u.file, f.display_path()) && threads::last_line(f, u) is Some {
            let x = AnchoredV { id: u.id, side: u.side, line: threads::last_line(f, u)->0 };
            assert(before.push(x).drop_last() == before);
            assert(before.push(x).last() == x);
            if k != n - 1 {
                assert(t[k].id != t[n - 1].id);
            }
        }
    }
}

/// A build of one file.
spec fn built_for(b: BuildV, f: DiffFileV, t: Seq<ThreadV>, c: Option<ComposerV>) -> bool {
    &&& b.threads == t && b.composer == c
    &&& own_ids(t)
    &&& b.last == threads::anchors_in_file(f, t, t.len())
}

/// What an injected line is.
spec fn injected_mark(i: InjectedV) -> Mark {
    match i {
        InjectedV::Comment(c) => Mark::Note(c.thread_id),
        InjectedV::Composer(_) => Mark::Draft,
    }
}

spec fn injected_marks(s: Seq<(Side, InjectedV)>) -> Seq<Mark> {
    Seq::new(s.len(), |i: int| injected_mark(s[i].1))
}

proof fn lemma_messages_own(t: ThreadV, n: nat, w: nat)
    ensures
        forall|i: int|
            0 <= i < threads::messages_among(t, n, w).len() ==> (
            #[trigger] threads::messages_among(t, n, w)[i]).thread_id == t.id,
    decreases n,
{
    if n > 0 {
        lemma_messages_own(t, (n - 1) as nat, w);
        let a = threads::messages_among(t, (n - 1) as nat, w);
        let b = threads::message_lines(t, n - 1, w);
        let m = threads::messages_among(t, n, w);
        assert forall|i: int| 0 <= i < m.len() implies (#[trigger] m[i]).thread_id == t.id by {
            if i < a.len() {
                assert(m[i] == a[i]);
            } else {
                assert(m[i] == b[i - a.len()]);
            }
        }
    }
}

proof fn lemma_box_own(t: ThreadV, w: nat)
    ensures
        threads::thread_box(t, w).len() > 0,
        forall|i: int|
            0 <= i < threads::thread_box(t, w).len() ==> (
            #[trigger] threads::thread_box(t, w)[i]).thread_id == t.id,
{
    lemma_messages_own(t, t.comments.len(), w);
    let m = threads::messages_among(t, t.comments.len(), w);
    let x = threads::thread_box(t, w);
    assert forall|i: int| 0 <= i < x.len() implies (#[trigger] x[i]).thread_id == t.id by {
        if 2 <= i < 2 + m.len() {
            assert(x[i] == m[i - 2]);
        }
    }
}

/// Whether row `i` of injected ones is of a thread that belongs here, or of the composer right
/// under the box of the thread that it answers.
spec fn belongs_here(
    b: BuildV,
    path: Seq<char>,
    anchors: Option<Seq<(Side, u32)>>,
    ids: Seq<Seq<char>>,
    m: Seq<Mark>,
    i: int,
) -> bool {
    match m[i] {
        Mark::Note(id) => exists|k: int|
            0 <= k < b.threads.len() && (#[trigger] b.threads[k]).id == id && paths::same(
                b.threads[k].file,
                path,
            ) && threads::belongs(b, anchors, b.threads[k]) && !ids.contains(id),
        Mark::Draft => b.composer is Some && 0 <= over(m, i) && (b.composer->0.anchor matches
            ComposerAnchorV::Reply { thread_id } && m[over(m, i)] == Mark::Note(thread_id)),
        _ => false,
    }
}

proof fn lemma_draft_over(m: Seq<Mark>, from: int, i: int)
    requires
        0 < from <= i < m.len(),
        !(m[from - 1] is Draft),
        forall|j: int| from <= j < m.len() ==> #[trigger] m[j] is Draft,
    ensures
        over(m, i) == from - 1,
    decreases i,
{
    if i > from {
        lemma_draft_over(m, from, i - 1);
        assert(m[i - 1] is Draft);
    }
}

proof fn lemma_thread_rows(
    b: BuildV,
    path: Seq<char>,
    anchors: Option<Seq<(Side, u32)>>,
    ids: Seq<Seq<char>>,
    k: int,
    i: int,
)
    requires
        0 <= k < b.threads.len(),
        paths::same(b.threads[k].file, path),
        threads::belongs(b, anchors, b.threads[k]),
        !ids.contains(b.threads[k].id),
        0 <= i < threads::thread_rows(b, b.threads[k]).len(),
    ensures
        belongs_here(
            b,
            path,
            anchors,
            ids,
            injected_marks(threads::thread_rows(b, b.threads[k])),
            i,
        ),
{
    let t = b.threads[k];
    let lines = threads::thread_box(t, b.width);
    let m = injected_marks(threads::thread_rows(b, t));
    lemma_box_own(t, b.width);
    assert forall|j: int| 0 <= j < lines.len() implies #[trigger] m[j] == Mark::Note(t.id) by {
        assert(lines[j].thread_id == t.id);
    }
    if i < lines.len() {
        assert(m[i] == Mark::Note(t.id));
    } else {
        assert(m[lines.len() - 1] == Mark::Note(t.id));
        assert forall|j: int| lines.len() <= j < m.len() implies #[trigger] m[j] is Draft by {}
        lemma_draft_over(m, lines.len() as int, i);
    }
}

proof fn lemma_inject(
    b: BuildV,
    path: Seq<char>,
    anchors: Option<Seq<(Side, u32)>>,
    n: nat,
    ids: Seq<Seq<char>>,
)
    requires
        n <= b.threads.len(),
    ensures
        ({
            let (s, out) = threads::inject_among(b, path, anchors, n, ids);
            &&& forall|i: int|
                0 <= i < s.len() ==> #[trigger] belongs_here(
                    b,
                    path,
                    anchors,
                    ids,
                    injected_marks(s),
                    i,
                )
            &&& forall|x: Seq<char>| ids.contains(x) ==> #[trigger] out.contains(x)
            &&& forall|k: int|
                0 <= k < n && paths::same((#[trigger] b.threads[k]).file, path) && threads::belongs(
                    b,
                    anchors,
                    b.threads[k],
                ) ==> out.contains(b.threads[k].id)
        }),
    decreases n,
{
    if n > 0 {
        let p = (n - 1) as nat;
        lemma_inject(b, path, anchors, p, ids);
        let (s, out) = threads::inject_among(b, path, anchors, p, ids);
        let t = b.threads[n - 1];
        if paths::same(t.file, path) && !out.contains(t.id) && threads::belongs(b, anchors, t) {
            let r = threads::thread_rows(b, t);
            let ms = injected_marks(s);
            let mr = injected_marks(r);
            let m = injected_marks(s + r);
            assert(m == ms + mr);
            assert(!ids.contains(t.id));
            assert forall|i: int| 0 <= i < m.len() implies #[trigger] belongs_here(
                b,
                path,
                anchors,
                ids,
                m,
                i,
            ) by {
                if i < s.len() {
                    assert(belongs_here(b, path, anchors, ids, ms, i));
                    lemma_front(ms, mr, i);
                    lemma_range(ms, i);
                } else {
                    let j = i - s.len();
                    lemma_thread_rows(b, path, anchors, ids, n - 1, j);
                    lemma_back(ms, mr, j);
                    lemma_range(mr, j);
                }
            }
            let o = out.push(t.id);
            assert(o[out.len() as int] == t.id);
            assert forall|x: Seq<char>| out.contains(x) implies #[trigger] o.contains(x) by {
                let q = choose|q: int| 0 <= q < out.len() && out[q] == x;
                assert(o[q] == x);
            }
        }
    }
}

/// What a block of rows is: a line of the diff, and then boxes and drafts only.
proof fn lemma_above_first(m: Seq<Mark>, i: int)
    requires
        0 < i <= m.len(),
        !(m[0] is Note) && !(m[0] is Draft),
        forall|j: int| 0 < j < m.len() ==> #[trigger] m[j] is Note || m[j] is Draft,
    ensures
        above(m, i) == 0,
    decreases i,
{
    if i > 1 {
        lemma_above_first(m, i - 1);
        assert(m[i - 1] is Note || m[i - 1] is Draft);
    }
}

/// A line, its threads, and drafts of new threads on it.
proof fn lemma_block(
    b: BuildV,
    f: DiffFileV,
    t: Seq<ThreadV>,
    c: Option<ComposerV>,
    anchors: Seq<(Side, u32)>,
    ids: Seq<Seq<char>>,
    drafts: nat,
)
    requires
        built_for(b, f, t, c),
        drafts > 0 ==> c is Some && (c->0.anchor matches ComposerAnchorV::NewThread {
            side,
            line,
            ..
        } && anchors.contains((side, line))),
    ensures
        ({
            let (inj, out) = threads::inject(b, f.display_path(), Some(anchors), ids);
            &&& all_settled(
                f,
                t,
                c,
                seq![Mark::At(anchors)] + injected_marks(inj) + Seq::new(
                    drafts,
                    |i: int| Mark::Draft,
                ),
            )
            &&& forall|x: Seq<char>| ids.contains(x) ==> #[trigger] out.contains(x)
            &&& forall|k: int|
                0 <= k < t.len() && paths::same((#[trigger] t[k]).file, f.display_path())
                    && threads::last_line(f, t[k]) is Some && anchors.contains(
                    (t[k].side, threads::last_line(f, t[k])->0),
                ) ==> out.contains(t[k].id)
        }),
{
    let path = f.display_path();
    let (inj, out) = threads::inject(b, path, Some(anchors), ids);
    lemma_inject(b, path, Some(anchors), t.len(), ids);
    let head = seq![Mark::At(anchors)];
    let mi = injected_marks(inj);
    let dr = Seq::new(drafts, |i: int| Mark::Draft);
    let m = head + mi + dr;
    assert forall|j: int| 0 < j < m.len() implies #[trigger] m[j] is Note || m[j] is Draft by {
        if j < 1 + mi.len() {
            assert(m[j] == mi[j - 1]);
            assert(belongs_here(b, path, Some(anchors), ids, mi, j - 1));
        }
    }
    assert forall|i: int| 0 <= i < m.len() implies #[trigger] settled(f, t, c, m, i) by {
        if i > 0 {
            lemma_above_first(m, i);
            if i < 1 + mi.len() {
                assert(belongs_here(b, path, Some(anchors), ids, mi, i - 1));
                lemma_front(head + mi, dr, i);
                lemma_back(head, mi, i - 1);
                lemma_range(mi, i - 1);
                assert(m[i] == mi[i - 1]);
                if let Mark::Note(id) = m[i] {
                    let k = choose|k: int|
                        0 <= k < b.threads.len() && (#[trigger] b.threads[k]).id == id
                            && paths::same(b.threads[k].file, path) && threads::belongs(
                            b,
                            Some(anchors),
                            b.threads[k],
                        ) && !ids.contains(id);
                    lemma_anchor(f, t, t.len(), k);
                    let n = threads::last_line(f, t[k])->0;
                    lemma_last(f, t[k], n);
                    assert(anchors.contains((t[k].side, n)));
                    assert(m[0] == Mark::At(anchors));
                    assert(last_covered(f, t[k], n));
                    assert(hosts(f, t[k], Mark::At(anchors)));
                }
            }
        }
    }
    assert forall|k: int|
        0 <= k < t.len() && paths::same((#[trigger] t[k]).file, path) && threads::last_line(
            f,
            t[k],
        ) is Some && anchors.contains((t[k].side, threads::last_line(f, t[k])->0))
        implies out.contains(t[k].id) by {
        lemma_anchor(f, t, t.len(), k);
        assert(threads::belongs(b, Some(anchors), b.threads[k]));
    }
}

/// Whether every thread that a line of `m` hosts is out.
spec fn hosted_are_out(f: DiffFileV, t: Seq<ThreadV>, m: Seq<Mark>, ids: Seq<Seq<char>>) -> bool {
    forall|k: int, j: int|
        0 <= k < t.len() && 0 <= j < m.len() && paths::same(t[k].file, f.display_path())
            && #[trigger] hosts(f, t[k], m[j]) ==> ids.contains(t[k].id)
}

/// Whether what is out stays out.
spec fn grows(a: Seq<Seq<char>>, b: Seq<Seq<char>>) -> bool {
    forall|x: Seq<char>| a.contains(x) ==> #[trigger] b.contains(x)
}

/// Whether boxes behind one row stand in the order of the store.
spec fn in_store_order(t: Seq<ThreadV>, m: Seq<Mark>) -> bool {
    forall|i: int, j: int, k: int, q: int|
        #![trigger m[i], m[j], t[k], t[q]]
        0 <= i < j < m.len() && 0 <= k < t.len() && 0 <= q < t.len() && m[i] == Mark::Note(t[k].id)
            && m[j] == Mark::Note(t[q].id) && above(m, i) == above(m, j) ==> k <= q
}

/// What every part of the rows of a file keeps.
spec fn good(
    f: DiffFileV,
    t: Seq<ThreadV>,
    c: Option<ComposerV>,
    m: Seq<Mark>,
    ids: Seq<Seq<char>>,
    out: Seq<Seq<char>>,
) -> bool {
    &&& all_settled(f, t, c, m)
    &&& hosted_are_out(f, t, m, out)
    &&& grows(ids, out)
    &&& in_store_order(t, m)
}

proof fn lemma_order_add(
    f: DiffFileV,
    t: Seq<ThreadV>,
    c: Option<ComposerV>,
    a: Seq<Mark>,
    b: Seq<Mark>,
)
    requires
        all_settled(f, t, c, a),
        all_settled(f, t, c, b),
        in_store_order(t, a),
        in_store_order(t, b),
    ensures
        in_store_order(t, a + b),
{
    let m = a + b;
    assert forall|i: int, j: int, k: int, q: int|
        #![trigger m[i], m[j], t[k], t[q]]
        0 <= i < j < m.len() && 0 <= k < t.len() && 0 <= q < t.len() && m[i] == Mark::Note(t[k].id)
            && m[j] == Mark::Note(t[q].id) && above(m, i) == above(m, j) implies k <= q by {
        let n = a.len() as int;
        if j < n {
            lemma_front(a, b, i);
            lemma_front(a, b, j);
            assert(a[i] == m[i] && a[j] == m[j]);
        } else {
            assert(settled(f, t, c, b, j - n));
            assert(b[j - n] == m[j]);
            lemma_back(a, b, j - n);
            if i < n {
                lemma_front(a, b, i);
                lemma_range(a, i);
            } else {
                assert(settled(f, t, c, b, i - n));
                assert(b[i - n] == m[i]);
                lemma_back(a, b, i - n);
            }
        }
    }
}

proof fn lemma_inject_order(
    b: BuildV,
    path: Seq<char>,
    anchors: Option<Seq<(Side, u32)>>,
    n: nat,
    ids: Seq<Seq<char>>,
)
    requires
        n <= b.threads.len(),
        own_ids(b.threads),
    ensures
        ({
            let t = b.threads;
            let m = injected_marks(threads::inject_among(b, path, anchors, n, ids).0);
            &&& forall|i: int, k: int|
                #![trigger m[i], t[k]]
                0 <= i < m.len() && 0 <= k < t.len() && m[i] == Mark::Note(t[k].id) ==> k < n
            &&& forall|i: int, j: int, k: int, q: int|
                #![trigger m[i], m[j], t[k], t[q]]
                0 <= i < j < m.len() && 0 <= k < t.len() && 0 <= q < t.len() && m[i] == Mark::Note(
                    t[k].id,
                ) && m[j] == Mark::Note(t[q].id) ==> k <= q
        }),
    decreases n,
{
    let t = b.threads;
    if n > 0 {
        let p = (n - 1) as nat;
        lemma_inject_order(b, path, anchors, p, ids);
        let (s, out) = threads::inject_among(b, path, anchors, p, ids);
        let u = t[n - 1];
        if paths::same(u.file, path) && !out.contains(u.id) && threads::belongs(b, anchors, u) {
            let r = threads::thread_rows(b, u);
            let ms = injected_marks(s);
            let mr = injected_marks(r);
            let m = injected_marks(s + r);
            assert(m == ms + mr);
            lemma_box_own(u, b.width);
            let lines = threads::thread_box(u, b.width);
            assert forall|i: int, k: int|
                #![trigger m[i], t[k]]
                ms.len() <= i < m.len() && 0 <= k < t.len() && m[i] == Mark::Note(t[k].id)
                implies k == n - 1 by {
                let j = i - ms.len();
                assert(m[i] == mr[j]);
                if j < lines.len() {
                    assert(lines[j].thread_id == u.id);
                }
                if k < n - 1 {
                    assert(t[k].id != t[n - 1].id);
                } else if k > n - 1 {
                    assert(t[n - 1].id != t[k].id);
                }
            }
            assert forall|i: int, k: int|
                #![trigger m[i], t[k]]
                0 <= i < m.len() && 0 <= k < t.len() && m[i] == Mark::Note(t[k].id)
                implies k < n by {
                if i < ms.len() {
                    assert(m[i] == ms[i]);
                }
            }
            assert forall|i: int, j: int, k: int, q: int|
                #![trigger m[i], m[j], t[k], t[q]]
                0 <= i < j < m.len() && 0 <= k < t.len() && 0 <= q < t.len() && m[i] == Mark::Note(
                    t[k].id,
                ) && m[j] == Mark::Note(t[q].id) implies k <= q by {
                if j < ms.len() {
                    assert(m[i] == ms[i] && m[j] == ms[j]);
                }
            }
        }
    }
}

proof fn lemma_good_add(
    f: DiffFileV,
    t: Seq<ThreadV>,
    c: Option<ComposerV>,
    x: Seq<Mark>,
    y: Seq<Mark>,
    a: Seq<Seq<char>>,
    b: Seq<Seq<char>>,
    d: Seq<Seq<char>>,
)
    requires
        good(f, t, c, x, a, b),
        good(f, t, c, y, b, d),
    ensures
        good(f, t, c, x + y, a, d),
{
    lemma_settled_add(f, t, c, x, y);
    lemma_order_add(f, t, c, x, y);
    assert forall|k: int, j: int|
        0 <= k < t.len() && 0 <= j < (x + y).len() && paths::same(t[k].file, f.display_path())
            && #[trigger] hosts(f, t[k], (x + y)[j]) implies d.contains(t[k].id) by {
        if j < x.len() {
            assert(hosts(f, t[k], x[j]));
            assert(b.contains(t[k].id));
        } else {
            assert(hosts(f, t[k], y[j - x.len()]));
        }
    }
    assert forall|z: Seq<char>| a.contains(z) implies #[trigger] d.contains(z) by {
        assert(b.contains(z));
    }
}

proof fn lemma_good_other(
    f: DiffFileV,
    t: Seq<ThreadV>,
    c: Option<ComposerV>,
    ids: Seq<Seq<char>>,
)
    ensures
        good(f, t, c, seq![Mark::Other], ids, ids),
        good(f, t, c, Seq::empty(), ids, ids),
{
    let m = seq![Mark::Other];
    assert(settled(f, t, c, m, 0));
    assert forall|i: int| 0 <= i < m.len() implies #[trigger] settled(f, t, c, m, i) by {}
}

proof fn lemma_good_block(
    b: BuildV,
    f: DiffFileV,
    t: Seq<ThreadV>,
    c: Option<ComposerV>,
    anchors: Seq<(Side, u32)>,
    ids: Seq<Seq<char>>,
    drafts: nat,
)
    requires
        built_for(b, f, t, c),
        drafts > 0 ==> c is Some && (c->0.anchor matches ComposerAnchorV::NewThread {
            side,
            line,
            ..
        } && anchors.contains((side, line))),
    ensures
        ({
            let (inj, out) = threads::inject(b, f.display_path(), Some(anchors), ids);
            good(
                f,
                t,
                c,
                seq![Mark::At(anchors)] + injected_marks(inj) + Seq::new(
                    drafts,
                    |i: int| Mark::Draft,
                ),
                ids,
                out,
            )
        }),
{
    let path = f.display_path();
    let (inj, out) = threads::inject(b, path, Some(anchors), ids);
    lemma_block(b, f, t, c, anchors, ids, drafts);
    let mi = injected_marks(inj);
    let dr = Seq::new(drafts, |i: int| Mark::Draft);
    let m = seq![Mark::At(anchors)] + mi + dr;
    lemma_inject(b, path, Some(anchors), t.len(), ids);
    lemma_inject_order(b, path, Some(anchors), t.len(), ids);
    assert forall|i: int, j: int, k: int, q: int|
        #![trigger m[i], m[j], t[k], t[q]]
        0 <= i < j < m.len() && 0 <= k < t.len() && 0 <= q < t.len() && m[i] == Mark::Note(t[k].id)
            && m[j] == Mark::Note(t[q].id) && above(m, i) == above(m, j) implies k <= q by {
        assert(m[i] == mi[i - 1]);
        assert(m[j] == mi[j - 1]);
    }
    assert forall|k: int, j: int|
        0 <= k < t.len() && 0 <= j < m.len() && paths::same(t[k].file, path) && #[trigger] hosts(
            f,
            t[k],
            m[j],
        ) implies out.contains(t[k].id) by {
        if 0 < j < 1 + mi.len() {
            assert(m[j] == mi[j - 1]);
            assert(belongs_here(b, path, Some(anchors), ids, mi, j - 1));
        }
        assert(j == 0);
        let n = choose|n: u32| #[trigger]
            last_covered(f, t[k], n) && anchors.contains((t[k].side, n));
        lemma_last(f, t[k], n);
    }
}

proof fn lemma_line(
    b: BuildV,
    f: DiffFileV,
    t: Seq<ThreadV>,
    c: Option<ComposerV>,
    fi: nat,
    l: DiffLineV,
    ids: Seq<Seq<char>>,
    composed: bool,
)
    requires
        built_for(b, f, t, c),
    ensures
        ({
            let o = rows::line_out(b, fi, f.display_path(), l, ids, composed);
            good(f, t, c, marks(o.rows), ids, o.ids)
        }),
{
    let path = f.display_path();
    let o = rows::line_out(b, fi, path, l, ids, composed);
    match rows::line_anchor(l.kind, l.old_line, l.new_line) {
        Some((side, n)) => {
            let anchors = seq![(side, n)];
            let (inj, out) = threads::inject(b, path, Some(anchors), ids);
            let bx = threads::new_thread_box(b.composer, composed, fi, side, n, b.width);
            if bx.len() > 0 {
                assert(anchors[0] == (side, n));
                assert(anchors.contains((side, n)));
            }
            lemma_good_block(b, f, t, c, anchors, ids, bx.len());
            assert(numbered(side, Some(n)) == anchors);
            assert(marks(o.rows) == seq![Mark::At(anchors)] + injected_marks(inj) + Seq::new(
                bx.len(),
                |i: int| Mark::Draft,
            ));
        },
        None => {
            let none = Seq::<(Side, u32)>::empty();
            let m = seq![Mark::At(none)];
            assert(marks(o.rows) == m);
            assert(settled(f, t, c, m, 0));
            assert forall|i: int| 0 <= i < m.len() implies #[trigger] settled(f, t, c, m, i) by {}
        },
    }
}

proof fn lemma_marks_add(a: Seq<RowV>, b: Seq<RowV>)
    ensures
        marks(a + b) == marks(a) + marks(b),
{
}

proof fn lemma_lines(
    b: BuildV,
    f: DiffFileV,
    t: Seq<ThreadV>,
    c: Option<ComposerV>,
    fi: nat,
    lines: Seq<DiffLineV>,
    n: nat,
    ids: Seq<Seq<char>>,
    composed: bool,
)
    requires
        built_for(b, f, t, c),
    ensures
        ({
            let o = rows::lines_out(b, fi, f.display_path(), lines, n, ids, composed);
            good(f, t, c, marks(o.rows), ids, o.ids)
        }),
    decreases n,
{
    let path = f.display_path();
    lemma_good_other(f, t, c, ids);
    if n > 0 {
        let p = (n - 1) as nat;
        lemma_lines(b, f, t, c, fi, lines, p, ids, composed);
        let x = rows::lines_out(b, fi, path, lines, p, ids, composed);
        let o = rows::line_out(b, fi, path, lines[n - 1], x.ids, x.composed);
        lemma_line(b, f, t, c, fi, lines[n - 1], x.ids, x.composed);
        lemma_marks_add(x.rows, o.rows);
        lemma_good_add(f, t, c, marks(x.rows), marks(o.rows), ids, x.ids, o.ids);
    } else {
        assert(marks(Seq::<RowV>::empty()) == Seq::<Mark>::empty());
    }
}

proof fn lemma_hunks(
    b: BuildV,
    f: DiffFileV,
    t: Seq<ThreadV>,
    c: Option<ComposerV>,
    fi: nat,
    n: nat,
    ids: Seq<Seq<char>>,
    composed: bool,
)
    requires
        built_for(b, f, t, c),
    ensures
        ({
            let o = rows::hunks_out(b, fi, f.display_path(), f.hunks, n, ids, composed);
            good(f, t, c, marks(o.rows), ids, o.ids)
        }),
    decreases n,
{
    let path = f.display_path();
    lemma_good_other(f, t, c, ids);
    if n > 0 {
        let p = (n - 1) as nat;
        lemma_hunks(b, f, t, c, fi, p, ids, composed);
        let x = rows::hunks_out(b, fi, path, f.hunks, p, ids, composed);
        let h = f.hunks[n - 1];
        let head = rows::plain_row(fi, RowKindV::HunkHeader, rows::header_text(h));
        let o = rows::lines_out(b, fi, path, h.lines, h.lines.len(), x.ids, x.composed);
        lemma_lines(b, f, t, c, fi, h.lines, h.lines.len(), x.ids, x.composed);
        lemma_good_other(f, t, c, x.ids);
        assert(marks(x.rows.push(head)) == marks(x.rows) + seq![Mark::Other]);
        lemma_good_add(f, t, c, marks(x.rows), seq![Mark::Other], ids, x.ids, x.ids);
        lemma_marks_add(x.rows.push(head), o.rows);
        lemma_good_add(f, t, c, marks(x.rows.push(head)), marks(o.rows), ids, x.ids, o.ids);
    } else {
        assert(marks(Seq::<RowV>::empty()) == Seq::<Mark>::empty());
    }
}

/// The boxes that no line hosts, behind all lines.
proof fn lemma_tail(
    b: BuildV,
    f: DiffFileV,
    t: Seq<ThreadV>,
    c: Option<ComposerV>,
    m: Seq<Mark>,
    ids: Seq<Seq<char>>,
    i: int,
)
    requires
        built_for(b, f, t, c),
        all_settled(f, t, c, m),
        hosted_are_out(f, t, m, ids),
        0 <= i < (m + injected_marks(threads::inject(b, f.display_path(), None, ids).0)).len(),
    ensures
        in_place(
            f,
            t,
            c,
            m + injected_marks(threads::inject(b, f.display_path(), None, ids).0),
            i,
        ),
{
    let path = f.display_path();
    let (inj, out) = threads::inject(b, path, None, ids);
    let mi = injected_marks(inj);
    lemma_inject(b, path, None, t.len(), ids);
    let all = m + mi;
    if i < m.len() {
        assert(settled(f, t, c, m, i));
        lemma_front(m, mi, i);
        lemma_range(m, i);
    } else {
        let j = i - m.len();
        assert(belongs_here(b, path, None, ids, mi, j));
        lemma_back(m, mi, j);
        lemma_range(mi, j);
        assert(all[i] == mi[j]);
        if let Mark::Note(id) = all[i] {
            let k = choose|k: int|
                0 <= k < b.threads.len() && (#[trigger] b.threads[k]).id == id && paths::same(
                    b.threads[k].file,
                    path,
                ) && threads::belongs(b, None, b.threads[k]) && !ids.contains(id);
            assert forall|q: int| 0 <= q < all.len() implies !hosts(
                f,
                t[k],
                #[trigger] all[q],
            ) by {
                if q < m.len() {
                    assert(all[q] == m[q]);
                    if hosts(f, t[k], m[q]) {
                        assert(ids.contains(t[k].id));
                    }
                } else {
                    assert(belongs_here(b, path, None, ids, mi, q - m.len()));
                }
            }
            assert forall|q: int| i <= q < all.len() implies !(#[trigger] all[q] is At) by {
                assert(belongs_here(b, path, None, ids, mi, q - m.len()));
            }
            assert(t[k].id == id);
        }
    }
}

/// In the unified rows of a file every box stands where it belongs: that of a thread behind the
/// last line of the diff that the thread covers, and the composer behind its line or under its
/// thread.
pub proof fn law_boxes_stand_behind_their_line(
    files: Seq<DiffFileV>,
    t: Seq<ThreadV>,
    width: nat,
    composer: Option<ComposerV>,
    f: nat,
    i: int,
)
    requires
        f < files.len(),
        own_ids(t),
        0 <= i < rows::rows_of(files, t, width, composer, Some(f)).len(),
    ensures
        in_place(
            files[f as int],
            t,
            composer,
            marks(rows::rows_of(files, t, width, composer, Some(f))),
            i,
        ),
{
    let file = files[f as int];
    let b = rows::build_view(files, t, width, composer, Some(f));
    lemma_only(b, files, f, files.len());
    let none = Seq::<Seq<char>>::empty();
    let path = file.display_path();
    let o = rows::body_out(b, f, file, none, false);
    lemma_good_other(file, t, composer, none);
    if file.is_binary {
        assert(marks(o.rows) == seq![Mark::Other]);
    } else {
        lemma_hunks(b, file, t, composer, f, file.hunks.len(), none, false);
    }
    lemma_good_add(file, t, composer, seq![Mark::Other], marks(o.rows), none, none, o.ids);
    let m = seq![Mark::Other] + marks(o.rows);
    let inj = threads::inject(b, path, None, o.ids).0;
    let all = rows::file_out(b, f, file, none, false).rows;
    assert(marks(all) == m + injected_marks(inj));
    lemma_tail(b, file, t, composer, m, o.ids, i);
}

proof fn lemma_only(b: BuildV, files: Seq<DiffFileV>, f: nat, n: nat)
    requires
        n <= files.len(),
    ensures
        ({
            let x = rows::files_out(b, files, Some(f), n);
            if f < n {
                x.rows == rows::file_out(b, f, files[f as int], Seq::empty(), false).rows
            } else {
                x == (rows::Out { rows: Seq::empty(), ids: Seq::empty(), composed: false })
            }
        }),
        ({
            let x = split::files_out(b, files, Some(f), n);
            if f < n {
                x.rows == split::file_out(b, f, files[f as int], Seq::empty(), false).rows
            } else {
                x == (split::Out { rows: Seq::empty(), ids: Seq::empty(), composed: false })
            }
        }),
    decreases n,
{
    if n > 0 {
        lemma_only(b, files, f, (n - 1) as nat);
        if f == n - 1 {
            let o = rows::file_out(b, f, files[f as int], Seq::empty(), false);
            assert(Seq::<RowV>::empty() + o.rows == o.rows);
            let s = split::file_out(b, f, files[f as int], Seq::empty(), false);
            assert(Seq::<SplitRowV>::empty() + s.rows == s.rows);
        }
    }
}

proof fn lemma_drafts(
    b: BuildV,
    fi: nat,
    anchors: Seq<(Side, u32)>,
    n: nat,
    composed: bool,
)
    requires
        n <= anchors.len(),
    ensures
        ({
            let r = split::boxes(b, fi, anchors, n, composed).0;
            &&& split_marks(r) == Seq::new(r.len(), |i: int| Mark::Draft)
            &&& r.len() > 0 ==> b.composer is Some && (b.composer->0.anchor matches
                ComposerAnchorV::NewThread { side, line, .. } && anchors.contains((side, line)))
        }),
    decreases n,
{
    if n > 0 {
        lemma_drafts(b, fi, anchors, (n - 1) as nat, composed);
        let (r, c) = split::boxes(b, fi, anchors, (n - 1) as nat, composed);
        let (side, l) = anchors[n - 1];
        let bx = threads::new_thread_box(b.composer, c, fi, side, l, b.width);
        if bx.len() > 0 {
            assert(anchors[n - 1] == (side, l));
            assert(anchors.contains((side, l)));
        }
        let all = split::boxes(b, fi, anchors, n, composed).0;
        let br = split::box_rows(fi, side, bx);
        assert(all == r + br);
        let dr = Seq::new(all.len(), |i: int| Mark::Draft);
        assert forall|i: int| 0 <= i < all.len() implies #[trigger] split_marks(all)[i]
            == dr[i] by {
            if i < r.len() {
                assert(split_marks(r)[i] == Mark::Draft);
            } else {
                assert(all[i] == br[i - r.len()]);
            }
        }
        assert(split_marks(all) == dr);
    } else {
        let r = split::boxes(b, fi, anchors, n, composed).0;
        assert(split_marks(r) == Seq::new(r.len(), |i: int| Mark::Draft));
    }
}

proof fn lemma_pair(
    b: BuildV,
    f: DiffFileV,
    t: Seq<ThreadV>,
    c: Option<ComposerV>,
    fi: nat,
    left: Option<CellV>,
    right: Option<CellV>,
    ids: Seq<Seq<char>>,
    composed: bool,
)
    requires
        built_for(b, f, t, c),
    ensures
        ({
            let o = split::pair_out(b, fi, f.display_path(), left, right, ids, composed);
            good(f, t, c, split_marks(o.rows), ids, o.ids)
        }),
{
    let path = f.display_path();
    let o = split::pair_out(b, fi, path, left, right, ids, composed);
    let anchors = split::pair_anchors(left, right);
    assert(anchors == numbered(Side::Old, cell_number(left)) + numbered(
        Side::New,
        cell_number(right),
    ));
    let (inj, out) = threads::inject(b, path, Some(anchors), ids);
    let bx = split::boxes(b, fi, anchors, anchors.len(), composed).0;
    lemma_drafts(b, fi, anchors, anchors.len(), composed);
    lemma_good_block(b, f, t, c, anchors, ids, bx.len());
    let dr = Seq::new(bx.len(), |i: int| Mark::Draft);
    let m = seq![Mark::At(anchors)] + injected_marks(inj) + dr;
    assert forall|i: int| 0 <= i < m.len() implies split_marks(o.rows)[i] == #[trigger] m[i] by {
        if i > inj.len() {
            assert(o.rows[i] == bx[i - 1 - inj.len()]);
            assert(split_marks(bx)[i - 1 - inj.len()] == dr[i - 1 - inj.len()]);
        }
    }
    assert(split_marks(o.rows) == m);
}

proof fn lemma_split_marks_add(a: Seq<SplitRowV>, b: Seq<SplitRowV>)
    ensures
        split_marks(a + b) == split_marks(a) + split_marks(b),
{
}

proof fn lemma_zip(
    b: BuildV,
    f: DiffFileV,
    t: Seq<ThreadV>,
    c: Option<ComposerV>,
    fi: nat,
    dels: Seq<CellV>,
    adds: Seq<CellV>,
    n: nat,
    ids: Seq<Seq<char>>,
    composed: bool,
)
    requires
        built_for(b, f, t, c),
    ensures
        ({
            let o = split::zip_out(b, fi, f.display_path(), dels, adds, n, ids, composed);
            good(f, t, c, split_marks(o.rows), ids, o.ids)
        }),
    decreases n,
{
    let path = f.display_path();
    lemma_good_other(f, t, c, ids);
    if n > 0 {
        let p = (n - 1) as nat;
        lemma_zip(b, f, t, c, fi, dels, adds, p, ids, composed);
        let x = split::zip_out(b, fi, path, dels, adds, p, ids, composed);
        let l = split::cell_at(dels, n - 1);
        let r = split::cell_at(adds, n - 1);
        let o = split::pair_out(b, fi, path, l, r, x.ids, x.composed);
        lemma_pair(b, f, t, c, fi, l, r, x.ids, x.composed);
        lemma_split_marks_add(x.rows, o.rows);
        lemma_good_add(f, t, c, split_marks(x.rows), split_marks(o.rows), ids, x.ids, o.ids);
    } else {
        assert(split_marks(Seq::<SplitRowV>::empty()) == Seq::<Mark>::empty());
    }
}

proof fn lemma_flushed(
    b: BuildV,
    f: DiffFileV,
    t: Seq<ThreadV>,
    c: Option<ComposerV>,
    fi: nat,
    o: Open,
    ids: Seq<Seq<char>>,
)
    requires
        built_for(b, f, t, c),
        good(f, t, c, split_marks(o.out.rows), ids, o.out.ids),
    ensures
        ({
            let x = split::flushed(b, fi, f.display_path(), o);
            good(f, t, c, split_marks(x.rows), ids, x.ids)
        }),
{
    let n = split::zip_len(o.dels, o.adds);
    lemma_zip(b, f, t, c, fi, o.dels, o.adds, n, o.out.ids, o.out.composed);
    let z = split::zip_out(
        b,
        fi,
        f.display_path(),
        o.dels,
        o.adds,
        n,
        o.out.ids,
        o.out.composed,
    );
    lemma_split_marks_add(o.out.rows, z.rows);
    lemma_good_add(
        f,
        t,
        c,
        split_marks(o.out.rows),
        split_marks(z.rows),
        ids,
        o.out.ids,
        z.ids,
    );
}

proof fn lemma_open(
    b: BuildV,
    f: DiffFileV,
    t: Seq<ThreadV>,
    c: Option<ComposerV>,
    fi: nat,
    lines: Seq<DiffLineV>,
    n: nat,
    ids: Seq<Seq<char>>,
    composed: bool,
)
    requires
        built_for(b, f, t, c),
    ensures
        ({
            let o = split::lines_open(b, fi, f.display_path(), lines, n, ids, composed);
            good(f, t, c, split_marks(o.out.rows), ids, o.out.ids)
        }),
    decreases n,
{
    let path = f.display_path();
    lemma_good_other(f, t, c, ids);
    if n > 0 {
        let p = (n - 1) as nat;
        lemma_open(b, f, t, c, fi, lines, p, ids, composed);
        let o = split::lines_open(b, fi, path, lines, p, ids, composed);
        let l = lines[n - 1];
        if l.kind == LineKind::Context {
            let x = split::flushed(b, fi, path, o);
            lemma_flushed(b, f, t, c, fi, o, ids);
            let left = Some(split::context_cell(l));
            let right = Some(split::line_cell(l));
            let y = split::pair_out(b, fi, path, left, right, x.ids, x.composed);
            lemma_pair(b, f, t, c, fi, left, right, x.ids, x.composed);
            lemma_split_marks_add(x.rows, y.rows);
            lemma_good_add(f, t, c, split_marks(x.rows), split_marks(y.rows), ids, x.ids, y.ids);
        }
    } else {
        assert(split_marks(Seq::<SplitRowV>::empty()) == Seq::<Mark>::empty());
    }
}

proof fn lemma_split_hunks(
    b: BuildV,
    f: DiffFileV,
    t: Seq<ThreadV>,
    c: Option<ComposerV>,
    fi: nat,
    n: nat,
    ids: Seq<Seq<char>>,
    composed: bool,
)
    requires
        built_for(b, f, t, c),
    ensures
        ({
            let o = split::hunks_out(b, fi, f.display_path(), f.hunks, n, ids, composed);
            good(f, t, c, split_marks(o.rows), ids, o.ids)
        }),
    decreases n,
{
    let path = f.display_path();
    lemma_good_other(f, t, c, ids);
    if n > 0 {
        let p = (n - 1) as nat;
        lemma_split_hunks(b, f, t, c, fi, p, ids, composed);
        let x = split::hunks_out(b, fi, path, f.hunks, p, ids, composed);
        let h = f.hunks[n - 1];
        let head = split::plain_row(fi, SplitKindV::HunkHeader, rows::header_text(h));
        let l = split::lines_open(b, fi, path, h.lines, h.lines.len(), x.ids, x.composed);
        lemma_open(b, f, t, c, fi, h.lines, h.lines.len(), x.ids, x.composed);
        lemma_flushed(b, f, t, c, fi, l, x.ids);
        let o = split::flushed(b, fi, path, l);
        lemma_good_other(f, t, c, x.ids);
        let xh = x.rows.push(head);
        assert(split_marks(xh) == split_marks(x.rows) + seq![Mark::Other]);
        lemma_good_add(f, t, c, split_marks(x.rows), seq![Mark::Other], ids, x.ids, x.ids);
        lemma_split_marks_add(xh, o.rows);
        lemma_good_add(f, t, c, split_marks(xh), split_marks(o.rows), ids, x.ids, o.ids);
    } else {
        assert(split_marks(Seq::<SplitRowV>::empty()) == Seq::<Mark>::empty());
    }
}

/// The same side by side: every box stands behind the row with the last line that its thread
/// covers, and the composer behind the row with its line or under its thread.
pub proof fn law_boxes_stand_behind_their_line_split(
    files: Seq<DiffFileV>,
    t: Seq<ThreadV>,
    width: nat,
    composer: Option<ComposerV>,
    f: nat,
    i: int,
)
    requires
        f < files.len(),
        own_ids(t),
        0 <= i < split::rows_of(files, t, width, composer, Some(f)).len(),
    ensures
        in_place(
            files[f as int],
            t,
            composer,
            split_marks(split::rows_of(files, t, width, composer, Some(f))),
            i,
        ),
{
    let file = files[f as int];
    let b = rows::build_view(files, t, width, composer, Some(f));
    lemma_only(b, files, f, files.len());
    let none = Seq::<Seq<char>>::empty();
    let path = file.display_path();
    let o = split::body_out(b, f, file, none, false);
    lemma_good_other(file, t, composer, none);
    if file.is_binary {
        assert(split_marks(o.rows) == seq![Mark::Other]);
    } else {
        lemma_split_hunks(b, file, t, composer, f, file.hunks.len(), none, false);
    }
    lemma_good_add(file, t, composer, seq![Mark::Other], split_marks(o.rows), none, none, o.ids);
    let m = seq![Mark::Other] + split_marks(o.rows);
    let inj = threads::inject(b, path, None, o.ids).0;
    let all = split::file_out(b, f, file, none, false).rows;
    assert(split_marks(all) == m + injected_marks(inj));
    lemma_tail(b, file, t, composer, m, o.ids, i);
}

/// What is said of two boxes that the same row hosts.
proof fn lemma_hosted_order(
    f: DiffFileV,
    t: Seq<ThreadV>,
    m: Seq<Mark>,
    tail: Seq<Mark>,
    i: int,
    j: int,
    k: int,
    q: int,
)
    requires
        in_store_order(t, m),
        0 <= i < j < m.len() + tail.len(),
        0 <= k < t.len(),
        0 <= q < t.len(),
        (m + tail)[i] == Mark::Note(t[k].id),
        (m + tail)[j] == Mark::Note(t[q].id),
        above(m + tail, i) == above(m + tail, j),
        j < m.len(),
    ensures
        k <= q,
{
    lemma_front(m, tail, i);
    lemma_front(m, tail, j);
    assert(m[i] == (m + tail)[i]);
    assert(m[j] == (m + tail)[j]);
}

/// Threads that belong behind the same row have their boxes there in the order of the store, in
/// either view.
pub proof fn law_boxes_stand_in_the_order_of_the_store(
    files: Seq<DiffFileV>,
    t: Seq<ThreadV>,
    width: nat,
    composer: Option<ComposerV>,
    f: nat,
    i: int,
    j: int,
    k: int,
    q: int,
)
    requires
        f < files.len(),
        own_ids(t),
        0 <= k < t.len(),
        0 <= q < t.len(),
    ensures
        ({
            let m = marks(rows::rows_of(files, t, width, composer, Some(f)));
            0 <= i < j < m.len() && m[i] == Mark::Note(t[k].id) && m[j] == Mark::Note(t[q].id)
                && above(m, i) == above(m, j) && 0 <= above(m, j) && hosts(
                files[f as int],
                t[q],
                m[above(m, j)],
            ) ==> k <= q
        }),
        ({
            let m = split_marks(split::rows_of(files, t, width, composer, Some(f)));
            0 <= i < j < m.len() && m[i] == Mark::Note(t[k].id) && m[j] == Mark::Note(t[q].id)
                && above(m, i) == above(m, j) && 0 <= above(m, j) && hosts(
                files[f as int],
                t[q],
                m[above(m, j)],
            ) ==> k <= q
        }),
{
    let file = files[f as int];
    let b = rows::build_view(files, t, width, composer, Some(f));
    lemma_only(b, files, f, files.len());
    let none = Seq::<Seq<char>>::empty();
    let path = file.display_path();
    lemma_good_other(file, t, composer, none);
    let o = rows::body_out(b, f, file, none, false);
    let x = split::body_out(b, f, file, none, false);
    if file.is_binary {
        assert(marks(o.rows) == seq![Mark::Other]);
        assert(split_marks(x.rows) == seq![Mark::Other]);
    } else {
        lemma_hunks(b, file, t, composer, f, file.hunks.len(), none, false);
        lemma_split_hunks(b, file, t, composer, f, file.hunks.len(), none, false);
    }
    lemma_good_add(file, t, composer, seq![Mark::Other], marks(o.rows), none, none, o.ids);
    lemma_good_add(file, t, composer, seq![Mark::Other], split_marks(x.rows), none, none, x.ids);
    let oi = threads::inject(b, path, None, o.ids).0;
    let xi = threads::inject(b, path, None, x.ids).0;
    assert(marks(rows::file_out(b, f, file, none, false).rows) == seq![Mark::Other] + marks(o.rows)
        + injected_marks(oi));
    assert(split_marks(split::file_out(b, f, file, none, false).rows) == seq![Mark::Other]
        + split_marks(x.rows) + injected_marks(xi));
    lemma_tail_order(
        b,
        file,
        t,
        composer,
        seq![Mark::Other] + marks(o.rows),
        marks(rows::file_out(b, f, file, none, false).rows),
        o.ids,
        i,
        j,
        k,
        q,
    );
    lemma_tail_order(
        b,
        file,
        t,
        composer,
        seq![Mark::Other] + split_marks(x.rows),
        split_marks(split::file_out(b, f, file, none, false).rows),
        x.ids,
        i,
        j,
        k,
        q,
    );
}

proof fn lemma_tail_order(
    b: BuildV,
    file: DiffFileV,
    t: Seq<ThreadV>,
    composer: Option<ComposerV>,
    m: Seq<Mark>,
    all: Seq<Mark>,
    ids: Seq<Seq<char>>,
    i: int,
    j: int,
    k: int,
    q: int,
)
    requires
        built_for(b, file, t, composer),
        0 <= k < t.len(),
        0 <= q < t.len(),
        all_settled(file, t, composer, m),
        hosted_are_out(file, t, m, ids),
        in_store_order(t, m),
        all == m + injected_marks(threads::inject(b, file.display_path(), None, ids).0),
    ensures
        0 <= i < j < all.len() && all[i] == Mark::Note(t[k].id) && all[j] == Mark::Note(t[q].id)
            && above(all, i) == above(all, j) && 0 <= above(all, j) && hosts(
            file,
            t[q],
            all[above(all, j)],
        ) ==> k <= q,
{
    let path = file.display_path();
    let inj = threads::inject(b, path, None, ids).0;
    let mi = injected_marks(inj);
    if 0 <= i < j < all.len() && all[i] == Mark::Note(t[k].id) && all[j] == Mark::Note(t[q].id)
        && above(all, i) == above(all, j) && 0 <= above(all, j) && hosts(
        file,
        t[q],
        all[above(all, j)],
    ) {
        lemma_range(all, j);
        if j >= m.len() {
            lemma_inject(b, path, None, t.len(), ids);
            assert(belongs_here(b, path, None, ids, mi, j - m.len()));
            assert(all[j] == mi[j - m.len()]);
            let id = t[q].id;
            let w = choose|w: int|
                0 <= w < b.threads.len() && (#[trigger] b.threads[w]).id == id && paths::same(
                    b.threads[w].file,
                    path,
                ) && threads::belongs(b, None, b.threads[w]) && !ids.contains(id);
            assert(w == q) by {
                if w < q {
                    assert(t[w].id != t[q].id);
                } else if q < w {
                    assert(t[q].id != t[w].id);
                }
            }
            let a = above(all, j);
            if a < m.len() {
                assert(all[a] == m[a]);
                assert(hosts(file, t[q], m[a]));
                assert(ids.contains(t[q].id));
            } else {
                assert(belongs_here(b, path, None, ids, mi, a - m.len()));
            }
        } else {
            lemma_hosted_order(file, t, m, mi, i, j, k, q);
        }
    }
}

} // verus!
