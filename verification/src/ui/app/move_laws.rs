//! Where the keys of the diff pane take the cursor.
use crate::diff::model::{LineKind, Side};
use crate::paths;
use crate::ui::app::comments::Drawn;
use crate::ui::app::editor::{KeyCode, Mods};
use crate::ui::app::laws;
use crate::ui::app::nav;
use crate::ui::app::state;
use crate::ui::app::state::{AppV, Focus, PredV, ViewMode};
use crate::ui::app::wrap;
use crate::ui::render_rows::rows::RowKindV;
use crate::ui::render_rows::split::SplitKindV;
use crate::ui::render_rows::text;
use vstd::prelude::*;

verus! {

/// Whether the keys go to the diff pane.
pub open spec fn in_diff(a: AppV) -> bool {
    a.composer is None && (a.focus == Focus::Diff || !a.show_sidebar || a.files.len() == 0)
}

/// After a key without modifiers.
pub open spec fn pressed(a: AppV, c: char, d: Drawn) -> AppV {
    a.keyed(KeyCode::Char(c), laws::bare(), d)
}

/// After a key with Ctrl held.
pub open spec fn pressed_ctrl(a: AppV, c: char, d: Drawn) -> AppV {
    a.keyed(KeyCode::Char(c), (Mods { ctrl: true, alt: false, shift: false }), d)
}

/// Whether row `i` is a line of the diff.
pub open spec fn diff_line(a: AppV, i: int) -> bool {
    match a.view {
        ViewMode::Unified => 0 <= i < a.rows.len() && a.rows[i].kind is Line,
        ViewMode::Split => 0 <= i < a.split_rows.len() && a.split_rows[i].kind is Pair,
    }
}

/// The message that row `i` is a line of.
pub open spec fn message(a: AppV, i: int) -> Option<Seq<char>> {
    match a.view {
        ViewMode::Unified => if 0 <= i < a.rows.len() {
            match a.rows[i].kind {
                RowKindV::Comment(c) => c.comment_id,
                _ => None,
            }
        } else {
            None
        },
        ViewMode::Split => if 0 <= i < a.split_rows.len() {
            match a.split_rows[i].kind {
                SplitKindV::Comment { line, .. } => line.comment_id,
                _ => None,
            }
        } else {
            None
        },
    }
}

/// Whether the cursor can stand on row `i`: a line of the diff, or the first line of a message.
pub open spec fn landing(a: AppV, i: int) -> bool {
    diff_line(a, i) || (message(a, i) is Some && message(a, i - 1) != message(a, i))
}

/// File, side and line number of the diff line in row `i`: that of the old text for a deletion,
/// and else that of the new one.
pub open spec fn place(a: AppV, i: int) -> Option<(nat, Side, u32)> {
    match a.view {
        ViewMode::Unified => if 0 <= i < a.rows.len() {
            match a.rows[i].kind {
                RowKindV::Line { kind, old_line, new_line } => if kind == LineKind::Deletion {
                    match old_line {
                        Some(l) => Some((a.rows[i].file_idx, Side::Old, l)),
                        None => None,
                    }
                } else {
                    match new_line {
                        Some(l) => Some((a.rows[i].file_idx, Side::New, l)),
                        None => None,
                    }
                },
                _ => None,
            }
        } else {
            None
        },
        ViewMode::Split => if 0 <= i < a.split_rows.len() {
            match a.split_rows[i].kind {
                SplitKindV::Pair { left, right } => if right is Some && right->0.line is Some {
                    Some((a.split_rows[i].file_idx, Side::New, right->0.line->0))
                } else if left is Some && left->0.line is Some {
                    Some((a.split_rows[i].file_idx, Side::Old, left->0.line->0))
                } else {
                    None
                },
                _ => None,
            }
        } else {
            None
        },
    }
}

/// Whether a thread starts at the line in row `i`.
pub open spec fn thread_starts(a: AppV, i: int) -> bool {
    match place(a, i) {
        Some((f, side, line)) => f < a.files.len() && exists|k: int|
            0 <= k < a.threads.len() && (#[trigger] a.threads[k]).side == side
                && a.threads[k].range.start == line && paths::same(
                a.threads[k].file,
                a.files[f as int].display_path(),
            ),
        None => false,
    }
}

/// Whether row `i` is one of the current file.
pub open spec fn in_file(a: AppV, i: int) -> bool {
    a.file_span.0 <= i < a.file_span.1
}

pub(crate) proof fn lemma_place(a: AppV, i: nat)
    ensures
        a.anchor_at(i) == place(a, i as int),
        a.selectable(i) == diff_line(a, i as int),
        a.unit_id(i) == message(a, i as int),
        a.stop(i) == landing(a, i as int),
{
    if i > 0 {
        assert(a.unit_id((i - 1) as nat) == message(a, i - 1));
    } else {
        assert(message(a, -1) is None);
    }
}

proof fn lemma_starts_at(a: AppV, path: Seq<char>, side: Side, line: u32, n: nat)
    requires
        n <= a.threads.len(),
    ensures
        state::starts_at(a.threads, path, side, line, n) <==> exists|k: int|
            0 <= k < n && (#[trigger] a.threads[k]).side == side && a.threads[k].range.start == line
                && paths::same(a.threads[k].file, path),
    decreases n,
{
    if n > 0 {
        lemma_starts_at(a, path, side, line, (n - 1) as nat);
        let t = a.threads[n - 1];
        if state::starts_at(a.threads, path, side, line, n) {
            if state::starts_at(a.threads, path, side, line, (n - 1) as nat) {
                let k = choose|k: int|
                    0 <= k < n - 1 && (#[trigger] a.threads[k]).side == side
                        && a.threads[k].range.start == line && paths::same(a.threads[k].file, path);
                assert(0 <= k < n);
            }
        }
    }
}

pub(crate) proof fn lemma_holds(a: AppV, i: nat)
    ensures
        a.holds(PredV::Head, i) == thread_starts(a, i as int),
        a.holds(PredV::Stop, i) == landing(a, i as int),
        a.holds(PredV::Selectable, i) == diff_line(a, i as int),
{
    reveal(AppV::holds);
    lemma_place(a, i);
    if let Some((f, side, line)) = a.anchor_at(i) {
        if f < a.files.len() {
            let path = a.files[f as int].display_path();
            lemma_starts_at(a, path, side, line, a.threads.len());
        }
    }
}

pub(crate) proof fn lemma_first(a: AppV, p: PredV, i: nat, end: nat)
    ensures
        match a.first(p, i, end) {
            Some(k) => i <= k < end && a.holds(p, k) && forall|j: nat|
                i <= j < k ==> !#[trigger] a.holds(p, j),
            None => forall|j: nat| i <= j < end ==> !#[trigger] a.holds(p, j),
        },
    decreases end - i,
{
    if i < end && !a.holds(p, i) {
        lemma_first(a, p, i + 1, end);
    }
}

pub(crate) proof fn lemma_last(a: AppV, p: PredV, start: nat, i: nat)
    ensures
        match a.last(p, start, i) {
            Some(k) => start <= k < i && a.holds(p, k) && forall|j: nat|
                k < j < i ==> !#[trigger] a.holds(p, j),
            None => forall|j: nat| start <= j < i ==> !#[trigger] a.holds(p, j),
        },
    decreases i,
{
    if i > start && !a.holds(p, (i - 1) as nat) {
        lemma_last(a, p, start, (i - 1) as nat);
    }
}

/// `n` goes to the next thread: where a row of the file below the cursor starts one, the cursor
/// goes down to it, past no other; where there is none below, it goes to the first of the file;
/// and where the file has none at all, it stays.
pub proof fn law_n_goes_to_the_next_thread(a: AppV, d: Drawn, i: int)
    requires
        in_diff(a),
    ensures
        ({
            let b = pressed(a, 'n', d);
            let to = b.selected as int;
            &&& in_file(a, i) && thread_starts(a, i) ==> in_file(a, to) && thread_starts(a, to)
            &&& in_file(a, i) && thread_starts(a, i) && i > a.selected ==> a.selected < to <= i
            &&& in_file(a, i) && thread_starts(a, i) && to <= a.selected ==> to <= i <= a.selected
            &&& to != a.selected ==> in_file(a, to) && thread_starts(a, to)
        }),
{
    lemma_diff_key(a, 'n', d);
    reveal(AppV::at_next_comment);
    reveal(AppV::next_head);
    reveal(AppV::visible);
    let (start, end) = a.file_span;
    let from = wrap::larger(start, a.selected + 1);
    lemma_first(a, PredV::Head, from, end);
    lemma_first(a, PredV::Head, start, end);
    if i >= 0 {
        lemma_holds(a, i as nat);
        assert(a.holds(PredV::Head, i as nat) == thread_starts(a, i));
    }
    let to = pressed(a, 'n', d).selected;
    lemma_holds(a, to);
}

/// `N` goes to the thread before: where a row of the file above the cursor starts one, the
/// cursor goes up to it, past no other; where there is none above, it goes to the last of the
/// file; and where the file has none at all, it stays.
pub proof fn law_shift_n_goes_to_the_thread_before(a: AppV, d: Drawn, i: int)
    requires
        in_diff(a),
    ensures
        ({
            let b = pressed(a, 'N', d);
            let to = b.selected as int;
            &&& in_file(a, i) && thread_starts(a, i) ==> in_file(a, to) && thread_starts(a, to)
            &&& in_file(a, i) && thread_starts(a, i) && i < a.selected ==> i <= to < a.selected
            &&& in_file(a, i) && thread_starts(a, i) && to >= a.selected ==> a.selected <= i <= to
            &&& to != a.selected ==> in_file(a, to) && thread_starts(a, to)
        }),
{
    lemma_diff_key(a, 'N', d);
    reveal(AppV::at_next_comment);
    reveal(AppV::next_head);
    reveal(AppV::visible);
    let (start, end) = a.file_span;
    let until = nav::smaller(end, a.selected);
    lemma_last(a, PredV::Head, start, until);
    lemma_last(a, PredV::Head, start, end);
    if i >= 0 {
        lemma_holds(a, i as nat);
        assert(a.holds(PredV::Head, i as nat) == thread_starts(a, i));
    }
    let to = pressed(a, 'N', d).selected;
    lemma_holds(a, to);
}

pub(crate) proof fn lemma_diff_key(a: AppV, c: char, d: Drawn)
    requires
        in_diff(a),
        c != 'q' && c != 's' && c != 'w',
    ensures
        pressed(a, c, d) == a.diff_key(KeyCode::Char(c), false, false),
        c == 'n' ==> pressed(a, c, d) == a.at_next_comment(true),
        c == 'N' ==> pressed(a, c, d) == a.at_next_comment(false),
        c == 'j' ==> pressed(a, c, d) == a.moved_by(true, 1),
        c == 'k' ==> pressed(a, c, d) == a.moved_by(false, 1),
        c == 'g' ==> pressed(a, c, d) == a.at_edge(false),
        c == 'G' ==> pressed(a, c, d) == a.at_edge(true),
        c == ' ' ==> pressed(a, c, d) == a.moved_by(true, text::at_least_one(a.height)),
        c == 'b' ==> pressed(a, c, d) == a.moved_by(false, text::at_least_one(a.height)),
        c == 'v' ==> pressed(a, c, d) == a.visual_toggled(),
        c == 'y' ==> pressed(a, c, d) == a.copied(),
        c == ']' ==> pressed(a, c, d) == a.on_next_file(1),
        c == '[' ==> pressed(a, c, d) == a.on_next_file(-1),
{
    reveal(AppV::keyed);
    reveal(AppV::diff_key);
}

/// Whether no row strictly between `i` and `j` is one that the cursor can stand on.
pub open spec fn nothing_between(a: AppV, i: int, j: int) -> bool {
    forall|k: int| i < k < j ==> !#[trigger] landing(a, k)
}

proof fn lemma_seek(a: AppV, down: bool)
    ensures
        ({
            let to = a.seek(PredV::Stop, a.beside(down), down);
            &&& to matches Some(k) ==> in_file(a, k as int) && landing(a, k as int)
            &&& down ==> (to matches Some(k) ==> k > a.selected && nothing_between(
                a,
                a.selected as int,
                k as int,
            ))
            &&& !down ==> (to matches Some(k) ==> k < a.selected && nothing_between(
                a,
                k as int,
                a.selected as int,
            ))
            &&& in_file(a, a.selected as int) && to is None ==> forall|k: int|
                in_file(a, k) && #[trigger] landing(a, k) ==> (if down {
                    k <= a.selected
                } else {
                    k >= a.selected
                })
        }),
{
    reveal(AppV::seek);
    let (start, end) = a.file_span;
    let from = a.beside(down);
    let to = a.seek(PredV::Stop, from, down);
    if start <= from < end {
        if down {
            lemma_first(a, PredV::Stop, from as nat, end);
        } else {
            lemma_last(a, PredV::Stop, start, from as nat + 1);
        }
    }
    if let Some(k) = to {
        lemma_holds(a, k);
        assert forall|j: int|
            (if down {
                a.selected < j < k
            } else {
                k < j < a.selected
            }) implies !#[trigger] landing(a, j) by {
            lemma_holds(a, j as nat);
            assert(!a.holds(PredV::Stop, j as nat));
        }
    } else if in_file(a, a.selected as int) {
        assert forall|k: int| in_file(a, k) && #[trigger] landing(a, k) implies (if down {
            k <= a.selected
        } else {
            k >= a.selected
        }) by {
            lemma_holds(a, k as nat);
            assert(a.holds(PredV::Stop, k as nat));
        }
    }
}

/// Whether two states show the same rows of the same file.
pub open spec fn same_rows(a: AppV, b: AppV) -> bool {
    a.view == b.view && a.rows == b.rows && a.split_rows == b.split_rows && a.file_span
        == b.file_span
}

proof fn lemma_moved(a: AppV, down: bool)
    ensures
        ({
            let b = a.moved(down);
            &&& same_rows(a, b)
            &&& b.height == a.height
            &&& b.selected != a.selected ==> in_file(a, b.selected as int) && landing(
                a,
                b.selected as int,
            )
            &&& down ==> b.selected >= a.selected && nothing_between(
                a,
                a.selected as int,
                b.selected as int,
            )
            &&& !down ==> b.selected <= a.selected && nothing_between(
                a,
                b.selected as int,
                a.selected as int,
            )
            &&& in_file(a, a.selected as int) && b.selected == a.selected ==> forall|k: int|
                in_file(a, k) && #[trigger] landing(a, k) ==> (if down {
                    k <= a.selected
                } else {
                    k >= a.selected
                })
        }),
{
    reveal(AppV::moved);
    reveal(AppV::unanchored);
    reveal(AppV::visible);
    let u = a.unanchored();
    lemma_seek(u, down);
    assert forall|k: int| landing(u, k) == #[trigger] landing(a, k) by {}
    if let Some(k) = u.seek(PredV::Stop, u.beside(down), down) {
        assert forall|j: int|
            (if down {
                a.selected < j < k
            } else {
                k < j < a.selected
            }) implies !#[trigger] landing(a, j) by {
            assert(!landing(u, j));
        }
    } else if in_file(a, a.selected as int) {
        assert forall|k: int| in_file(a, k) && #[trigger] landing(a, k) implies (if down {
            k <= a.selected
        } else {
            k >= a.selected
        }) by {
            assert(landing(u, k));
        }
    }
}

/// `j` and `k` move by one: the cursor goes to the nearest row of the file below or above it
/// that it can stand on, and stays where there is none.
pub proof fn law_j_and_k_move_by_one(a: AppV, d: Drawn, i: int)
    requires
        in_diff(a),
        in_file(a, a.selected as int),
    ensures
        ({
            let b = pressed(a, 'j', d);
            let to = b.selected as int;
            &&& same_rows(a, b)
            &&& to != a.selected ==> to > a.selected && in_file(a, to) && landing(a, to)
            &&& in_file(a, i) && landing(a, i) && i > a.selected ==> a.selected < to <= i
        }),
        ({
            let b = pressed(a, 'k', d);
            let to = b.selected as int;
            &&& same_rows(a, b)
            &&& to != a.selected ==> to < a.selected && in_file(a, to) && landing(a, to)
            &&& in_file(a, i) && landing(a, i) && i < a.selected ==> i <= to < a.selected
        }),
{
    lemma_diff_key(a, 'j', d);
    lemma_diff_key(a, 'k', d);
    lemma_moved(a, true);
    lemma_moved(a, false);
    let x = a.moved(true);
    let y = a.moved(false);
    assert(x.moved_by(true, 0) == x);
    assert(y.moved_by(false, 0) == y);
    assert(a.moved_by(true, 1) == x);
    assert(a.moved_by(false, 1) == y);
}

/// How many of the rows `[i, j)` the cursor can stand on.
pub open spec fn landings(a: AppV, i: int, j: int) -> nat
    decreases j - i,
{
    if j <= i {
        0
    } else {
        landings(a, i, j - 1) + if landing(a, j - 1) {
            1nat
        } else {
            0
        }
    }
}

proof fn lemma_landings_split(a: AppV, i: int, m: int, j: int)
    requires
        i <= m <= j,
    ensures
        landings(a, i, j) == landings(a, i, m) + landings(a, m, j),
    decreases j - m,
{
    if m < j {
        lemma_landings_split(a, i, m, j - 1);
    }
}

proof fn lemma_no_landings(a: AppV, i: int, j: int)
    requires
        forall|k: int| i <= k < j ==> !#[trigger] landing(a, k),
    ensures
        landings(a, i, j) == 0,
    decreases j - i,
{
    if i < j {
        lemma_no_landings(a, i, j - 1);
        assert(!landing(a, j - 1));
    }
}

proof fn lemma_same_landings(a: AppV, b: AppV, i: int, j: int)
    requires
        same_rows(a, b),
    ensures
        landings(a, i, j) == landings(b, i, j),
    decreases j - i,
{
    if i < j {
        lemma_same_landings(a, b, i, j - 1);
        assert(landing(a, j - 1) == landing(b, j - 1));
    }
}

/// The smaller number.
pub open spec fn least(a: nat, b: nat) -> nat {
    if a < b {
        a
    } else {
        b
    }
}

proof fn lemma_moved_by(a: AppV, down: bool, n: nat)
    requires
        in_file(a, a.selected as int),
    ensures
        ({
            let b = a.moved_by(down, n);
            let (start, end) = (a.file_span.0 as int, a.file_span.1 as int);
            &&& same_rows(a, b)
            &&& in_file(a, b.selected as int)
            &&& down ==> b.selected >= a.selected && landings(
                a,
                a.selected as int + 1,
                b.selected as int + 1,
            ) == least(n, landings(a, a.selected as int + 1, end))
            &&& !down ==> b.selected <= a.selected && landings(
                a,
                b.selected as int,
                a.selected as int,
            ) == least(n, landings(a, start, a.selected as int))
        }),
    decreases n,
{
    let (start, end) = (a.file_span.0 as int, a.file_span.1 as int);
    let s = a.selected as int;
    assert(landings(a, s + 1, s + 1) == 0);
    assert(landings(a, s, s) == 0);
    if n > 0 {
        let m = a.moved(down);
        lemma_moved(a, down);
        if m.selected == a.selected {
            if down {
                lemma_no_landings(a, s + 1, end);
            } else {
                lemma_no_landings(a, start, s);
            }
        } else {
            lemma_moved_by(m, down, (n - 1) as nat);
            let b = a.moved_by(down, n);
            let t = m.selected as int;
            let u = b.selected as int;
            if down {
                lemma_same_landings(a, m, t + 1, u + 1);
                lemma_same_landings(a, m, t + 1, end);
                lemma_no_landings(a, s + 1, t);
                assert(landings(a, s + 1, t + 1) == 1);
                lemma_landings_split(a, s + 1, t + 1, u + 1);
                lemma_landings_split(a, s + 1, t + 1, end);
            } else {
                lemma_same_landings(a, m, u, t);
                lemma_same_landings(a, m, start, t);
                lemma_no_landings(a, t + 1, s);
                lemma_landings_split(a, t, t + 1, s);
                assert(landings(a, t, t) == 0);
                assert(landings(a, t, t + 1) == 1);
                lemma_landings_split(a, u, t, s);
                lemma_landings_split(a, start, t, s);
            }
        }
    }
}

/// Space and `b` move by a page, and Ctrl-D and Ctrl-U by half of one: the cursor passes as many
/// rows that it can stand on as the pane has lines, or half as many, or all that the file has on
/// that side.
pub proof fn law_pages_are_as_long_as_the_pane(a: AppV, d: Drawn)
    requires
        in_diff(a),
        in_file(a, a.selected as int),
    ensures
        ({
            let (start, end) = (a.file_span.0 as int, a.file_span.1 as int);
            let s = a.selected as int;
            let page = if a.height == 0 {
                1nat
            } else {
                a.height
            };
            let half = if a.height / 2 == 0 {
                1nat
            } else {
                a.height / 2
            };
            let below = landings(a, s + 1, end);
            let above = landings(a, start, s);
            let pd = pressed(a, ' ', d).selected as int;
            let pu = pressed(a, 'b', d).selected as int;
            let hd = pressed_ctrl(a, 'd', d).selected as int;
            let hu = pressed_ctrl(a, 'u', d).selected as int;
            &&& in_file(a, pd) && in_file(a, pu) && in_file(a, hd) && in_file(a, hu)
            &&& pd >= s && landings(a, s + 1, pd + 1) == least(page, below)
            &&& hd >= s && landings(a, s + 1, hd + 1) == least(half, below)
            &&& pu <= s && landings(a, pu, s) == least(page, above)
            &&& hu <= s && landings(a, hu, s) == least(half, above)
        }),
{
    lemma_diff_key(a, ' ', d);
    lemma_diff_key(a, 'b', d);
    lemma_ctrl_key(a, d);
    lemma_moved_by(a, true, text::at_least_one(a.height));
    lemma_moved_by(a, false, text::at_least_one(a.height));
    lemma_moved_by(a, true, text::at_least_one(a.height / 2));
    lemma_moved_by(a, false, text::at_least_one(a.height / 2));
}

pub(crate) proof fn lemma_ctrl_key(a: AppV, d: Drawn)
    requires
        in_diff(a),
    ensures
        pressed_ctrl(a, 'd', d) == a.moved_by(true, text::at_least_one(a.height / 2)),
        pressed_ctrl(a, 'u', d) == a.moved_by(false, text::at_least_one(a.height / 2)),
        pressed_ctrl(a, 'e', d) == a.scrolled(1).cursor_kept(),
        pressed_ctrl(a, 'y', d) == a.scrolled(-1).cursor_kept(),
{
    reveal(AppV::keyed);
    reveal(AppV::diff_key);
}

/// `g` goes to the first row of the file that the cursor can stand on, and `G` to the last.
pub proof fn law_g_goes_to_the_ends(a: AppV, d: Drawn, i: int)
    requires
        in_diff(a),
        in_file(a, i),
        landing(a, i),
    ensures
        ({
            let top = pressed(a, 'g', d).selected as int;
            let bottom = pressed(a, 'G', d).selected as int;
            &&& in_file(a, top) && landing(a, top) && top <= i
            &&& in_file(a, bottom) && landing(a, bottom) && i <= bottom
        }),
{
    lemma_diff_key(a, 'g', d);
    lemma_diff_key(a, 'G', d);
    reveal(AppV::at_edge);
    reveal(AppV::unanchored);
    reveal(AppV::first_stop);
    reveal(AppV::last_stop);
    reveal(AppV::visible);
    let u = a.unanchored();
    let (start, end) = a.file_span;
    lemma_first(u, PredV::Stop, start, end);
    lemma_last(u, PredV::Stop, start, end);
    lemma_holds(u, i as nat);
    assert(landing(u, i) == landing(a, i));
    assert(u.holds(PredV::Stop, i as nat));
    let top = pressed(a, 'g', d).selected;
    let bottom = pressed(a, 'G', d).selected;
    lemma_holds(u, top);
    lemma_holds(u, bottom);
    assert(landing(u, top as int) == landing(a, top as int));
    assert(landing(u, bottom as int) == landing(a, bottom as int));
}

} // verus!
