//! What the mouse does: clicks, drags and the wheel; and how the file list folds.
use crate::ui::app::comments::Drawn;
use crate::ui::app::input;
use crate::ui::app::input::{Mouse, MouseKind, Thumbs};
use crate::ui::app::key_laws;
use crate::ui::app::move_laws;
use crate::ui::app::nav;
use crate::ui::app::scroll_laws;
use crate::ui::app::state::{AppV, Focus, HitV};
use crate::ui::app::tree;
use crate::ui::highlight_cache;
use crate::ui::render_rows::text;
use crate::ui::sidebar;
use crate::ui::sidebar::SbRowV;
use crate::ui::style::Rect;
use vstd::prelude::*;

verus! {

/// Whether the pointer is on a rectangle.
pub open spec fn on(r: Rect, m: Mouse) -> bool {
    r.x <= m.column < r.x + r.width && r.y <= m.row < r.y + r.height
}

/// Whether the pointer is on no button.
pub open spec fn off_buttons(a: AppV, m: Mouse) -> bool {
    forall|i: int| 0 <= i < a.button_hits.len() ==> !on((#[trigger] a.button_hits[i]).rect, m)
}

/// Whether the pointer is on the code: on no scrollbar, not between the panes and not on the
/// list.
pub open spec fn on_code(a: AppV, m: Mouse) -> bool {
    &&& on(a.diff_area, m)
    &&& !on(a.diff_sb, m) && !on(a.sidebar_sb, m)
    &&& a.sidebar_area.width > 0 ==> m.column != a.sidebar_area.x + a.sidebar_area.width
    &&& !on(a.sidebar_area, m)
}

proof fn lemma_no_hit(hits: Seq<HitV>, m: Mouse, i: nat)
    requires
        forall|k: int| 0 <= k < hits.len() ==> !on((#[trigger] hits[k]).rect, m),
    ensures
        input::hit_among(hits, m.column, m.row, i) is None,
    decreases hits.len() - i,
{
    if i < hits.len() {
        assert(!on(hits[i as int].rect, m));
        lemma_no_hit(hits, m, i + 1);
    }
}

proof fn lemma_lines_front(a: AppV, i: nat, j: nat)
    requires
        i < j,
    ensures
        scroll_laws::lines_between(a, i, j) == a.row_h(i) + scroll_laws::lines_between(
            a,
            i + 1,
            j,
        ),
    decreases j,
{
    if i + 1 < j {
        lemma_lines_front(a, i, (j - 1) as nat);
    } else {
        assert(scroll_laws::lines_between(a, i, i) == 0);
        assert(scroll_laws::lines_between(a, i + 1, j) == 0);
    }
}

proof fn lemma_row_below(a: AppV, i: nat, end: nat, off: nat, k: nat)
    requires
        i <= k < end,
        scroll_laws::lines_between(a, i, k) <= off < scroll_laws::lines_between(a, i, k + 1),
    ensures
        a.row_below(i, end, off) == k,
    decreases end - i,
{
    if i < k {
        lemma_lines_front(a, i, k);
        lemma_lines_front(a, i, k + 1);
        lemma_row_below(a, i + 1, end, (off - a.row_h(i)) as nat, k);
    } else {
        assert(scroll_laws::lines_between(a, i, i) == 0);
        assert(scroll_laws::lines_between(a, i, i + 1) == scroll_laws::lines_between(a, i, i)
            + a.row_h(i));
    }
}

/// Whether row `i` of the file is the one under the pointer: the lines of the rows above it,
/// from the top of the viewport on, end above the pointer, and its own do not.
pub open spec fn under(a: AppV, m: Mouse, i: nat) -> bool {
    &&& a.file_span.0 <= a.scroll <= i < a.file_span.1
    &&& scroll_laws::lines_between(a, a.scroll, i) <= m.row - a.diff_area.y
    &&& m.row - a.diff_area.y < scroll_laws::lines_between(a, a.scroll, i + 1)
}

/// A click puts the cursor on the row under the pointer, and a selection starts there where that
/// is a line of the diff. On a line of a message it goes to the message's first line. Dragging
/// moves the cursor in the same way, and leaves the start of the selection.
pub proof fn law_clicks_go_to_the_row_under_the_pointer(
    a: AppV,
    m: Mouse,
    at: Thumbs,
    d: Drawn,
    i: nat,
)
    requires
        a.composer is None,
        off_buttons(a, m),
        on_code(a, m),
        under(a, m, i),
        m.kind == MouseKind::Down || (m.kind == MouseKind::Drag && !a.resizing && a.sb_drag
            is None),
    ensures
        ({
            let b = a.moused(m, at, d);
            let to = b.selected as int;
            &&& b.focus == Focus::Diff
            &&& move_laws::landing(a, i as int) ==> to == i
            &&& move_laws::message(a, i as int) is Some ==> move_laws::message(a, to)
                == move_laws::message(a, i as int) && to <= i && move_laws::message(a, to - 1)
                != move_laws::message(a, to) && key_laws::one_message(a, i as int, to)
            &&& move_laws::diff_line(a, i as int) ==> b.sel_anchor == (if m.kind
                == MouseKind::Down {
                Some(i)
            } else {
                a.sel_anchor
            })
            &&& b.threads == a.threads && b.rows == a.rows && b.split_rows == a.split_rows
        }),
{
    reveal(AppV::moused);
    reveal(AppV::clicked);
    reveal(AppV::dragged);
    reveal(AppV::diff_clicked);
    reveal(AppV::on_diff);
    reveal(AppV::with_click);
    reveal(AppV::visible);
    reveal(AppV::stop_for);
    reveal(AppV::row_at);
    lemma_no_hit(a.button_hits, m, 0);
    let b = a.on_diff();
    let (start, end) = a.file_span;
    let off = (m.row - a.diff_area.y) as nat;
    lemma_same_lines(a, b, a.scroll, i);
    lemma_same_lines(a, b, a.scroll, i + 1);
    lemma_row_below(b, a.scroll, end, off, i);
    assert(b.row_at(m.row) == i);
    move_laws::lemma_holds(b, i);
    move_laws::lemma_holds(a, i);
    move_laws::lemma_place(b, i);
    reveal(AppV::holds);
    key_laws::lemma_unit_lo(b, i);
    assert(move_laws::landing(b, i as int) == move_laws::landing(a, i as int));
    let to = a.moused(m, at, d).selected as int;
    assert forall|k: int| #[trigger] move_laws::message(b, k) == move_laws::message(a, k) by {}
    if move_laws::message(a, i as int) is Some {
        assert(move_laws::message(b, to) == move_laws::message(b, i as int));
        assert forall|k: int| (i <= k <= to || to <= k <= i) implies #[trigger] move_laws::message(
            a,
            k,
        ) == move_laws::message(a, i as int) by {
            assert(move_laws::message(b, k) == move_laws::message(a, k));
        }
        assert(key_laws::one_message(a, i as int, to));
        if i == 0 {
            assert(move_laws::message(a, -1) is None);
        }
    }
}

proof fn lemma_same_lines(a: AppV, b: AppV, i: nat, j: nat)
    requires
        b == (AppV { focus: b.focus, ..a }),
    ensures
        scroll_laws::lines_between(a, i, j) == scroll_laws::lines_between(b, i, j),
    decreases j,
{
    if j > i {
        lemma_same_lines(a, b, i, (j - 1) as nat);
        assert(a.row_h((j - 1) as nat) == b.row_h((j - 1) as nat));
    }
}

/// A click on a button presses that button, whatever is below it.
pub proof fn law_clicks_press_the_button_under_the_pointer(
    a: AppV,
    m: Mouse,
    at: Thumbs,
    d: Drawn,
    i: int,
)
    requires
        m.kind == MouseKind::Down,
        0 <= i < a.button_hits.len(),
        on(a.button_hits[i].rect, m),
        forall|k: int| 0 <= k < i ==> !on((#[trigger] a.button_hits[k]).rect, m),
    ensures
        a.moused(m, at, d) == a.button_pressed(a.button_hits[i].action, d),
{
    reveal(AppV::moused);
    lemma_first_hit(a.button_hits, m, 0, i);
}

proof fn lemma_first_hit(hits: Seq<HitV>, m: Mouse, j: nat, i: int)
    requires
        j <= i < hits.len(),
        on(hits[i].rect, m),
        forall|k: int| 0 <= k < i ==> !on((#[trigger] hits[k]).rect, m),
    ensures
        input::hit_among(hits, m.column, m.row, j) == Some(hits[i].action),
    decreases i - j,
{
    if j < i {
        assert(!on(hits[j as int].rect, m));
        lemma_first_hit(hits, m, j + 1, i);
    }
}

/// The wheel scrolls what is under the pointer by three rows and no further than its ends, and
/// moves neither the cursor nor anything else.
pub proof fn law_the_wheel_scrolls(a: AppV, m: Mouse, at: Thumbs, d: Drawn)
    requires
        a.composer is None,
        m.kind == MouseKind::ScrollDown || m.kind == MouseKind::ScrollUp,
        a.file_span.0 <= a.scroll <= a.max_scroll(
            a.file_span.0,
            a.file_span.1,
            text::at_least_one(a.height),
        ),
        a.sidebar_scroll <= a.sidebar_max(),
    ensures
        ({
            let b = a.moused(m, at, d);
            let by: int = if m.kind == MouseKind::ScrollDown {
                3
            } else {
                -3
            };
            let top = a.max_scroll(a.file_span.0, a.file_span.1, text::at_least_one(a.height));
            let list = a.sidebar_area.width > 0 && on(a.sidebar_area, m);
            &&& list ==> b == (AppV { sidebar_scroll: b.sidebar_scroll, ..a }) && (0
                <= a.sidebar_scroll + by <= a.sidebar_max() ==> b.sidebar_scroll
                == a.sidebar_scroll + by) && (a.sidebar_scroll + by < 0 ==> b.sidebar_scroll == 0)
                && (a.sidebar_scroll + by > a.sidebar_max() ==> b.sidebar_scroll
                == a.sidebar_max())
            &&& !list ==> b == (AppV { scroll: b.scroll, focus: Focus::Diff, ..a }) && (
            a.file_span.0 <= a.scroll + by <= top ==> b.scroll == a.scroll + by) && (a.scroll + by
                < a.file_span.0 ==> b.scroll == a.file_span.0) && (a.scroll + by > top ==> b.scroll
                == top)
        }),
{
    reveal(AppV::moused);
    reveal(AppV::wheeled);
    reveal(AppV::scrolled);
    reveal(AppV::on_diff);
    reveal(AppV::sidebar_scrolled);
    let b = a.on_diff();
    lemma_same_top(a, b, a.file_span.0, a.file_span.1, text::at_least_one(a.height));
}

proof fn lemma_same_top(a: AppV, b: AppV, start: nat, t: nat, room: nat)
    requires
        b == (AppV { focus: b.focus, ..a }),
    ensures
        a.fit_up(start, t, room) == b.fit_up(start, t, room),
    decreases t,
{
    if t > start {
        assert(a.row_h((t - 1) as nat) == b.row_h((t - 1) as nat));
        if a.row_h((t - 1) as nat) <= room {
            lemma_same_top(
                a,
                b,
                start,
                (t - 1) as nat,
                (room - a.row_h((t - 1) as nat)) as nat,
            );
        }
    }
}

/// Between the panes the button takes hold of the divider, dragging puts it under the pointer as
/// far as either pane keeps its least width, and letting go leaves it there.
pub proof fn law_the_divider_follows_the_pointer(a: AppV, m: Mouse, at: Thumbs, d: Drawn)
    requires
        a.composer is None,
        off_buttons(a, m),
    ensures
        m.kind == MouseKind::Down && a.sidebar_area.width > 0 && m.column == a.sidebar_area.x
            + a.sidebar_area.width && !on(a.diff_sb, m) && !on(a.sidebar_sb, m) ==> a.moused(
            m,
            at,
            d,
        ) == (AppV { resizing: true, ..a }),
        m.kind == MouseKind::Drag && a.resizing && a.sb_drag is None && m.column - a.sidebar_area.x
            >= nav::MIN_SIDEBAR && a.sidebar_area.width + a.diff_area.width - (m.column
            - a.sidebar_area.x) >= nav::MIN_DIFF ==> a.moused(m, at, d) == (AppV {
            sidebar_width: (m.column - a.sidebar_area.x) as u16,
            ..a
        }),
        m.kind == MouseKind::Up ==> a.moused(m, at, d) == (AppV {
            resizing: false,
            sb_drag: None,
            ..a
        }),
{
    reveal(AppV::moused);
    reveal(AppV::clicked);
    reveal(AppV::dragged);
    reveal(AppV::grabbed);
    reveal(AppV::released);
    reveal(AppV::resized);
    lemma_no_hit(a.button_hits, m, 0);
}

/// A click on a file of the list shows the file.
pub proof fn law_clicks_open_files(a: AppV, m: Mouse, at: Thumbs, d: Drawn, f: nat, depth: nat)
    requires
        a.composer is None,
        m.kind == MouseKind::Down,
        off_buttons(a, m),
        on(a.sidebar_area, m),
        a.sidebar_area.width > 0,
        !on(a.diff_sb, m) && !on(a.sidebar_sb, m),
        a.sidebar_scroll <= a.sidebar_max(),
        a.sidebar_scroll + (m.row - a.sidebar_area.y) < a.sidebar_rows.len(),
        a.sidebar_rows[a.sidebar_scroll + (m.row - a.sidebar_area.y)] == (SbRowV::File {
            idx: f,
            depth,
        }),
        f < a.files.len(),
    ensures
        ({
            let b = a.moused(m, at, d);
            b.focus == Focus::Sidebar && key_laws::shows_file(a, b, f)
        }),
{
    reveal(AppV::moused);
    reveal(AppV::clicked);
    reveal(AppV::sidebar_clicked);
    lemma_no_hit(a.button_hits, m, 0);
    let c = AppV { focus: Focus::Sidebar, ..a };
    key_laws::lemma_on_file(c, f);
}

proof fn lemma_without(set: Seq<Seq<char>>, s: Seq<char>, n: nat, x: Seq<char>)
    requires
        n <= set.len(),
    ensures
        tree::without_among(set, s, n).contains(x) <==> x != s && set.take(n as int).contains(x),
    decreases n,
{
    if n > 0 {
        let p = (n - 1) as nat;
        lemma_without(set, s, p, x);
        let before = tree::without_among(set, s, p);
        let y = set[n - 1];
        assert(set.take(n as int) == set.take(p as int).push(y));
        assert(set.take(n as int).contains(x) <==> set.take(p as int).contains(x) || x == y) by {
            if set.take(p as int).contains(x) {
                let q = choose|q: int| 0 <= q < p && set.take(p as int)[q] == x;
                assert(set.take(n as int)[q] == x);
            }
            assert(set.take(n as int)[p as int] == y);
            if set.take(n as int).contains(x) && x != y {
                let q = choose|q: int| 0 <= q < n && set.take(n as int)[q] == x;
                assert(set.take(p as int)[q] == x);
            }
        }
        if y != s {
            assert(before.push(y).contains(x) <==> before.contains(x) || x == y) by {
                if before.contains(x) {
                    let q = choose|q: int| 0 <= q < before.len() && before[q] == x;
                    assert(before.push(y)[q] == x);
                }
                assert(before.push(y)[before.len() as int] == y);
                if before.push(y).contains(x) && x != y {
                    let q = choose|q: int| 0 <= q <= before.len() && before.push(y)[q] == x;
                    assert(before[q] == x);
                }
            }
        }
    }
}

/// Whether `b` is `a` with the directory folded or unfolded, and no other, and the list drawn
/// up anew.
pub open spec fn refolded(a: AppV, b: AppV, path: Seq<char>, folded: bool) -> bool {
    &&& b.collapsed.contains(path) == folded
    &&& forall|x: Seq<char>|
        x != path ==> (#[trigger] b.collapsed.contains(x) <==> a.collapsed.contains(x))
    &&& b.sidebar_rows == sidebar::sidebar_view(a.files, b.collapsed)
    &&& b.files == a.files && b.threads == a.threads && b.rows == a.rows && b.split_rows
        == a.split_rows && b.selected == a.selected && b.current_file == a.current_file && b.focus
        == a.focus
}

proof fn lemma_folded(a: AppV, path: Seq<char>, folded: bool)
    requires
        a.collapsed.contains(path) != folded,
    ensures
        refolded(a, a.folded(path, folded), path, folded),
{
    reveal(AppV::folded);
    reveal(AppV::with_dir);
    reveal(AppV::sidebar_rebuilt);
    reveal(AppV::on_dir);
    reveal(AppV::sidebar_revealed);
    let b = a.folded(path, folded);
    let set = a.collapsed;
    assert(set.take(set.len() as int) == set);
    assert forall|x: Seq<char>| #[trigger] b.collapsed.contains(x) <==> (if x == path {
        folded
    } else {
        set.contains(x)
    }) by {
        if folded {
            if set.contains(x) {
                let q = choose|q: int| 0 <= q < set.len() && set[q] == x;
                assert(set.push(path)[q] == x);
            }
            assert(set.push(path)[set.len() as int] == path);
            if set.push(path).contains(x) && x != path {
                let q = choose|q: int| 0 <= q <= set.len() && set.push(path)[q] == x;
                assert(set[q] == x);
            }
        } else {
            lemma_without(set, path, set.len(), x);
        }
    }
}

/// A click on a directory of the list folds or unfolds it.
pub proof fn law_clicks_fold_directories(
    a: AppV,
    m: Mouse,
    at: Thumbs,
    d: Drawn,
    path: Seq<char>,
    name: Seq<char>,
    depth: nat,
)
    requires
        a.composer is None,
        m.kind == MouseKind::Down,
        off_buttons(a, m),
        on(a.sidebar_area, m),
        !on(a.diff_sb, m) && !on(a.sidebar_sb, m),
        a.focus == Focus::Sidebar,
        a.sidebar_scroll <= a.sidebar_max(),
        a.sidebar_scroll + (m.row - a.sidebar_area.y) < a.sidebar_rows.len(),
        a.sidebar_rows[a.sidebar_scroll + (m.row - a.sidebar_area.y)] == (SbRowV::Dir {
            path,
            name,
            depth,
        }),
    ensures
        refolded(a, a.moused(m, at, d), path, !a.collapsed.contains(path)),
{
    reveal(AppV::moused);
    reveal(AppV::clicked);
    reveal(AppV::sidebar_clicked);
    lemma_no_hit(a.button_hits, m, 0);
    let idx = (a.sidebar_scroll + (m.row - a.sidebar_area.y)) as nat;
    let c = AppV { sidebar_sel: idx, ..a };
    lemma_folded(c, path, !a.collapsed.contains(path));
    let b = a.moused(m, at, d);
    assert forall|x: Seq<char>| x != path implies (#[trigger] b.collapsed.contains(x)
        <==> a.collapsed.contains(x)) by {
        assert(b.collapsed.contains(x) <==> c.collapsed.contains(x));
    }
}

/// On a directory of the list, the space bar and `o` fold or unfold it, `l` unfolds it, and `h`
/// folds it.
pub proof fn law_keys_fold_directories(
    a: AppV,
    d: Drawn,
    path: Seq<char>,
    name: Seq<char>,
    depth: nat,
)
    requires
        a.composer is None,
        a.focus == Focus::Sidebar,
        a.show_sidebar,
        a.files.len() > 0,
        a.sidebar_sel < a.sidebar_rows.len(),
        a.sidebar_rows[a.sidebar_sel as int] == (SbRowV::Dir { path, name, depth }),
    ensures
        refolded(a, move_laws::pressed(a, ' ', d), path, !a.collapsed.contains(path)),
        move_laws::pressed(a, 'o', d) == move_laws::pressed(a, ' ', d),
        a.collapsed.contains(path) ==> refolded(a, move_laws::pressed(a, 'l', d), path, false),
        !a.collapsed.contains(path) ==> move_laws::pressed(a, 'l', d) == a && refolded(
            a,
            move_laws::pressed(a, 'h', d),
            path,
            true,
        ),
{
    reveal(AppV::keyed);
    reveal(AppV::tree_key);
    reveal(AppV::fold_toggled_here);
    reveal(AppV::folded_here);
    lemma_folded(a, path, !a.collapsed.contains(path));
    if !a.collapsed.contains(path) {
        reveal(AppV::folded);
    }
}

/// On a file of the list, `h` folds the directory that it is in.
pub proof fn law_h_folds_the_directory_of_a_file(
    a: AppV,
    d: Drawn,
    f: nat,
    depth: nat,
    dir: Seq<char>,
    name: Seq<char>,
)
    requires
        a.composer is None,
        a.focus == Focus::Sidebar,
        a.show_sidebar,
        a.sidebar_sel < a.sidebar_rows.len(),
        a.sidebar_rows[a.sidebar_sel as int] == (SbRowV::File { idx: f, depth }),
        f < a.files.len(),
        a.files[f as int].display_path() == dir + seq!['/'] + name,
        dir.len() > 0,
        !name.contains('/'),
        !a.collapsed.contains(dir),
    ensures
        refolded(a, move_laws::pressed(a, 'h', d), dir, true),
{
    reveal(AppV::keyed);
    reveal(AppV::tree_key);
    reveal(AppV::folded_here);
    lemma_dir_part(dir, name);
    lemma_folded(a, dir, true);
}

proof fn lemma_last_index(a: Seq<char>, b: Seq<char>)
    requires
        !b.contains('/'),
    ensures
        text::last_index(a + seq!['/'] + b, '/') == a.len(),
    decreases b.len(),
{
    let s = a + seq!['/'] + b;
    if b.len() > 0 {
        assert(b[b.len() - 1] != '/');
        assert(s.last() == b.last());
        assert(s.drop_last() == a + seq!['/'] + b.drop_last());
        assert forall|i: int| 0 <= i < b.drop_last().len() implies b.drop_last()[i] != '/' by {
            assert(b[i] != '/');
        }
        lemma_last_index(a, b.drop_last());
    } else {
        assert(s.last() == '/');
    }
}

proof fn lemma_dir_part(dir: Seq<char>, name: Seq<char>)
    requires
        !name.contains('/'),
    ensures
        sidebar::dir_part(dir + seq!['/'] + name) == dir,
        sidebar::base_part(dir + seq!['/'] + name) == name,
{
    lemma_last_index(dir, name);
    let s = dir + seq!['/'] + name;
    assert(s.take(dir.len() as int) == dir);
    assert(s.skip(dir.len() as int + 1) == name);
}

/// The name of a file is what stands behind its last slash, and its directory what stands in
/// front of it.
pub proof fn law_paths_have_directory_and_name(dir: Seq<char>, name: Seq<char>)
    requires
        !name.contains('/'),
    ensures
        sidebar::dir_part(dir + seq!['/'] + name) == dir,
        sidebar::base_part(dir + seq!['/'] + name) == name,
        sidebar::dir_part(name) == Seq::<char>::empty(),
        sidebar::base_part(name) == name,
{
    lemma_dir_part(dir, name);
    lemma_no_index(name);
    assert(name.skip(0) == name);
}

proof fn lemma_no_index(s: Seq<char>)
    requires
        !s.contains('/'),
    ensures
        text::last_index(s, '/') == -1,
    decreases s.len(),
{
    if s.len() > 0 {
        assert(s[s.len() - 1] != '/');
        assert forall|i: int| 0 <= i < s.drop_last().len() implies s.drop_last()[i] != '/' by {
            assert(s[i] != '/');
        }
        lemma_no_index(s.drop_last());
    }
}

proof fn lemma_ancestor(segs: Seq<Seq<char>>, k: nat)
    ensures
        tree::ancestor(segs, k) == sidebar::dir_at(segs, k),
    decreases k,
{
    if k > 0 {
        lemma_ancestor(segs, (k - 1) as nat);
    }
}

proof fn lemma_opened(set: Seq<Seq<char>>, segs: Seq<Seq<char>>, n: nat, x: Seq<char>)
    ensures
        tree::opened(set, segs, n).contains(x) <==> set.contains(x) && forall|k: nat|
            k < n ==> x != #[trigger] sidebar::dir_at(segs, k),
    decreases n,
{
    if n > 0 {
        let p = (n - 1) as nat;
        lemma_opened(set, segs, p, x);
        lemma_ancestor(segs, p);
        let before = tree::opened(set, segs, p);
        lemma_without(before, sidebar::dir_at(segs, p), before.len(), x);
        assert(before.take(before.len() as int) == before);
        if tree::opened(set, segs, n).contains(x) {
            assert forall|k: nat| k < n implies x != #[trigger] sidebar::dir_at(segs, k) by {}
        }
    }
}

proof fn lemma_any_collapsed(set: Seq<Seq<char>>, segs: Seq<Seq<char>>, n: nat)
    ensures
        !tree::any_collapsed(set, segs, n) ==> forall|k: nat|
            k < n ==> !set.contains(#[trigger] sidebar::dir_at(segs, k)),
    decreases n,
{
    if n > 0 {
        let p = (n - 1) as nat;
        lemma_any_collapsed(set, segs, p);
        lemma_ancestor(segs, p);
        lemma_opened(set, segs, p, sidebar::dir_at(segs, p));
        if !tree::any_collapsed(set, segs, n) {
            assert forall|k: nat| k < n implies !set.contains(
                #[trigger] sidebar::dir_at(segs, k),
            ) by {
                if k == p && set.contains(sidebar::dir_at(segs, p)) {
                    let j = choose|j: nat|
                        j < p && sidebar::dir_at(segs, p) == #[trigger] sidebar::dir_at(segs, j);
                    assert(!set.contains(sidebar::dir_at(segs, j)));
                }
            }
        }
    }
}

proof fn lemma_row_found(rows: Seq<SbRowV>, i: nat, n: nat)
    requires
        n <= rows.len() <= usize::MAX,
        sidebar::shown(rows.take(n as int), i) > 0,
    ensures
        ({
            let r = sidebar::row_among(rows, i, n);
            &&& r < n && (rows[r as int] matches SbRowV::File { idx, .. } && idx == i)
        }),
    decreases n,
{
    let t = rows.take(n as int);
    if n > 0 {
        assert(t.drop_last() == rows.take(n - 1));
        assert(t.last() == rows[n - 1]);
        if !(rows[n - 1] matches SbRowV::File { idx, .. } && idx == i) {
            lemma_row_found(rows, i, (n - 1) as nat);
        }
    }
}

/// A file that is shown is revealed in the list: its directories are unfolded, and no others,
/// and the cursor of the list is on its row.
pub proof fn law_shown_files_are_revealed(a: AppV, f: nat, x: Seq<char>)
    requires
        f < a.files.len(),
        a.sidebar_rows == sidebar::sidebar_view(a.files, a.collapsed),
        a.file_to_sbrow == sidebar::row_map(a.sidebar_rows, a.files.len()),
        sidebar::sidebar_view(a.files, a.on_file(f).collapsed).len() <= usize::MAX,
    ensures
        ({
            let b = a.on_file(f);
            let segs = sidebar::segments(a.files[f as int].display_path());
            &&& sidebar::open_from(segs, 0, b.collapsed)
            &&& b.collapsed.contains(x) ==> a.collapsed.contains(x)
            &&& (forall|k: nat| k < segs.len() ==> x != #[trigger] sidebar::dir_at(segs, k)) ==> (
            b.collapsed.contains(x) <==> a.collapsed.contains(x))
            &&& b.sidebar_rows == sidebar::sidebar_view(a.files, b.collapsed)
            &&& b.sidebar_sel < b.sidebar_rows.len()
            &&& b.sidebar_rows[b.sidebar_sel as int] matches SbRowV::File { idx, .. } && idx == f
        }),
{
    reveal(AppV::on_file);
    reveal(AppV::pointed_at);
    reveal(AppV::with_file);
    reveal(AppV::with_span);
    reveal(AppV::file_revealed);
    reveal(AppV::sidebar_rebuilt);
    reveal(AppV::with_sidebar_cursor);
    reveal(AppV::sidebar_row);
    reveal(AppV::sidebar_revealed);
    reveal(AppV::at_top);
    reveal(AppV::visible);
    let b = a.on_file(f);
    let segs = sidebar::segments(a.files[f as int].display_path());
    lemma_any_collapsed(a.collapsed, segs, segs.len());
    lemma_opened(a.collapsed, segs, segs.len(), x);
    assert forall|k: nat| k < segs.len() implies !b.collapsed.contains(
        #[trigger] sidebar::dir_at(segs, k),
    ) by {
        lemma_opened(a.collapsed, segs, segs.len(), sidebar::dir_at(segs, k));
    }
    assert(sidebar::open_from(segs, 0, b.collapsed));
    let rows = b.sidebar_rows;
    assert(rows == sidebar::sidebar_view(a.files, b.collapsed));
    sidebar::law_file_shown_where_open(a.files, b.collapsed, f);
    assert(rows.take(rows.len() as int) == rows);
    lemma_row_found(rows, f, rows.len());
    assert(b.file_to_sbrow == sidebar::row_map(rows, a.files.len()));
}

/// The cursor of the list is in view, where the list has at least two lines.
pub proof fn law_the_list_follows_its_cursor(a: AppV)
    requires
        a.sidebar_sel < a.sidebar_rows.len(),
        a.sidebar_area.height >= 2,
    ensures
        ({
            let b = a.sidebar_revealed();
            &&& b.sidebar_sel == a.sidebar_sel
            &&& b.sidebar_scroll <= b.sidebar_sel < b.sidebar_scroll + a.sidebar_area.height
        }),
{
    reveal(AppV::sidebar_revealed);
}

/// The files that are made ready are those at most two places from the one that is shown, and it
/// comes first.
pub proof fn law_near_files_are_made_ready(focus: nat, n: nat, f: nat)
    requires
        focus < n,
    ensures
        highlight_cache::window(focus, n)[0] == focus,
        highlight_cache::window(focus, n).contains(f) <==> f < n && focus <= f + 2 && f <= focus + 2,
{
    let w = highlight_cache::window(focus, n);
    let a = highlight_cache::neighbors(focus, n, 1);
    let b = highlight_cache::neighbors(focus, n, 2);
    assert(w == seq![focus] + a + b);
    if f < n && focus <= f + 2 && f <= focus + 2 {
        if f == focus {
            assert(w[0] == f);
        } else if f == focus + 1 {
            assert(a[0] == f);
            assert(w[1] == f);
        } else if f + 1 == focus {
            assert(a[a.len() - 1] == f);
            assert(w[a.len() as int] == f);
        } else if f == focus + 2 {
            assert(b[0] == f);
            assert(w[1 + a.len() as int] == f);
        } else {
            assert(b[b.len() - 1] == f);
            assert(w[a.len() as int + b.len()] == f);
        }
    }
    if w.contains(f) {
        let q = choose|q: int| 0 <= q < w.len() && w[q] == f;
        if 1 <= q < 1 + a.len() {
            assert(w[q] == a[q - 1]);
        } else if q >= 1 + a.len() {
            assert(w[q] == b[q - 1 - a.len()]);
        }
    }
}

} // verus!
