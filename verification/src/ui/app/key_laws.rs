//! What the other keys do: files, scrolling, selections, the clipboard and the panes.
use crate::comments::model;
use crate::strs;
use crate::ui::app::comments::Drawn;
use crate::ui::app::editor::{KeyCode, Mods};
use crate::ui::app::laws;
use crate::ui::app::move_laws;
use crate::ui::app::review_laws;
use crate::ui::app::state::{AppV, Focus, PredV, ViewMode};
use crate::ui::render_rows::split::SplitKindV;
use crate::ui::render_rows::text;
use crate::ui::sidebar::SbRowV;
use vstd::prelude::*;

verus! {

/// The file that row `i` belongs to.
pub open spec fn file_of_row(a: AppV, i: int) -> Option<nat> {
    match a.view {
        ViewMode::Unified => if 0 <= i < a.rows.len() {
            Some(a.rows[i].file_idx)
        } else {
            None
        },
        ViewMode::Split => if 0 <= i < a.split_rows.len() {
            Some(a.split_rows[i].file_idx)
        } else {
            None
        },
    }
}

proof fn lemma_span_among(a: AppV, f: nat, n: nat)
    requires
        n <= a.active_len(),
    ensures
        ({
            let (s, e) = a.span_among(f, n);
            &&& forall|i: int|
                0 <= i < n && #[trigger] file_of_row(a, i) == Some(f) ==> s <= i < e
            &&& (s, e) == (a.active_len(), a.active_len()) || (s < e <= n && file_of_row(
                a,
                s as int,
            ) == Some(f) && file_of_row(a, e - 1) == Some(f))
        }),
    decreases n,
{
    if n > 0 {
        lemma_span_among(a, f, (n - 1) as nat);
        assert(a.row_file((n - 1) as nat) == file_of_row(a, n - 1));
    }
}

/// The rows of a file: the span that is kept for it starts at its first row and ends behind its
/// last one.
pub proof fn law_spans_hold_the_rows_of_a_file(a: AppV, i: int)
    requires
        a.wf(),
        a.current_file < a.files.len(),
    ensures
        file_of_row(a, i) == Some(a.current_file) ==> move_laws::in_file(a, i),
        a.file_span.0 < a.file_span.1 ==> file_of_row(a, a.file_span.0 as int) == Some(
            a.current_file,
        ) && file_of_row(a, a.file_span.1 - 1) == Some(a.current_file),
{
    reveal(AppV::wf);
    lemma_span_among(a, a.current_file, a.active_len());
    if file_of_row(a, i) is Some {
        assert(0 <= i < a.active_len());
    }
}

/// Whether `b` shows file `f` with the cursor at its first row that it can stand on, and the
/// rows and threads of `a`.
pub open spec fn shows_file(a: AppV, b: AppV, f: nat) -> bool {
    &&& b.view == a.view && b.rows == a.rows && b.split_rows == a.split_rows
    &&& b.threads == a.threads && b.files == a.files
    &&& b.current_file == f
    &&& f < a.file_spans.len() ==> b.file_span == a.file_spans[f as int]
    &&& b.sel_anchor is None
    &&& forall|i: int| #[trigger]
        move_laws::landing(b, i) && move_laws::in_file(b, i) ==> move_laws::landing(
            b,
            b.selected as int,
        ) && move_laws::in_file(b, b.selected as int) && b.selected <= i
}

pub(crate) proof fn lemma_on_file(a: AppV, f: nat)
    requires
        f < a.files.len(),
    ensures
        shows_file(a, a.on_file(f), f),
        a.on_file(f).focus == a.focus,
{
    reveal(AppV::on_file);
    reveal(AppV::pointed_at);
    reveal(AppV::with_file);
    reveal(AppV::with_span);
    reveal(AppV::file_revealed);
    reveal(AppV::sidebar_rebuilt);
    reveal(AppV::with_sidebar_cursor);
    reveal(AppV::sidebar_revealed);
    reveal(AppV::at_top);
    reveal(AppV::first_stop);
    reveal(AppV::visible);
    let p = a.pointed_at(f);
    let b = a.on_file(f);
    let (start, end) = p.file_span;
    move_laws::lemma_first(p, PredV::Stop, start, end);
    assert forall|i: int| #[trigger]
        move_laws::landing(b, i) && move_laws::in_file(b, i) implies move_laws::landing(
        b,
        b.selected as int,
    ) && move_laws::in_file(b, b.selected as int) && b.selected <= i by {
        assert(move_laws::landing(p, i));
        move_laws::lemma_holds(p, i as nat);
        assert(p.holds(PredV::Stop, i as nat));
        move_laws::lemma_holds(p, b.selected);
        assert(move_laws::landing(p, b.selected as int) == move_laws::landing(
            b,
            b.selected as int,
        ));
    }
}

/// `]` shows the next file and `[` the one before, from either pane, with the cursor at its top;
/// past the last file and the first they do nothing.
pub proof fn law_brackets_change_the_file(a: AppV, d: Drawn)
    requires
        a.composer is None,
        a.current_file < a.files.len(),
    ensures
        a.current_file + 1 < a.files.len() ==> shows_file(
            a,
            move_laws::pressed(a, ']', d),
            a.current_file + 1,
        ),
        a.current_file + 1 == a.files.len() ==> move_laws::pressed(a, ']', d) == a,
        a.current_file > 0 ==> shows_file(
            a,
            move_laws::pressed(a, '[', d),
            (a.current_file - 1) as nat,
        ),
        a.current_file == 0 ==> move_laws::pressed(a, '[', d) == a,
{
    reveal(AppV::keyed);
    reveal(AppV::diff_key);
    reveal(AppV::tree_key);
    reveal(AppV::on_next_file);
    if a.current_file + 1 < a.files.len() {
        lemma_on_file(a, a.current_file + 1);
    }
    if a.current_file > 0 {
        lemma_on_file(a, (a.current_file - 1) as nat);
    }
}

/// In the file list `j` and `k` go one row down or up; on the row of a file, that file is shown.
pub proof fn law_the_list_opens_files(a: AppV, d: Drawn, down: bool)
    requires
        a.composer is None,
        a.focus == Focus::Sidebar,
        a.show_sidebar,
        a.files.len() > 0,
        a.sidebar_sel < a.sidebar_rows.len(),
    ensures
        ({
            let b = move_laws::pressed(
                a,
                if down {
                    'j'
                } else {
                    'k'
                },
                d,
            );
            let next = if down {
                a.sidebar_sel as int + 1
            } else {
                a.sidebar_sel - 1
            };
            &&& b.focus == Focus::Sidebar
            &&& !(0 <= next < a.sidebar_rows.len()) ==> b == a
            &&& 0 <= next < a.sidebar_rows.len() ==> match a.sidebar_rows[next] {
                SbRowV::Dir { .. } => b.sidebar_sel == next && b.current_file == a.current_file
                    && b.selected == a.selected,
                SbRowV::File { idx, .. } => idx < a.files.len() ==> b.current_file == idx && (idx
                    != a.current_file ==> shows_file(a, b, idx)) && (idx == a.current_file
                    ==> b.sidebar_sel == next && b.selected == a.selected),
            }
        }),
{
    reveal(AppV::keyed);
    reveal(AppV::tree_key);
    reveal(AppV::sidebar_moved);
    reveal(AppV::activated);
    reveal(AppV::sidebar_revealed);
    let next = if down {
        a.sidebar_sel as int + 1
    } else {
        a.sidebar_sel - 1
    };
    if 0 <= next < a.sidebar_rows.len() {
        let c = AppV { sidebar_sel: next as nat, ..a };
        match a.sidebar_rows[next] {
            SbRowV::File { idx, .. } => {
                if idx < a.files.len() {
                    lemma_on_file(c, idx);
                    let o = c.on_file(idx);
                    let b = o.sidebar_revealed();
                    assert forall|i: int| #[trigger]
                        move_laws::landing(b, i) && move_laws::in_file(b, i) implies (
                    move_laws::landing(b, b.selected as int) && move_laws::in_file(
                        b,
                        b.selected as int,
                    ) && b.selected <= i) by {
                        assert(move_laws::landing(o, i));
                        assert(move_laws::landing(o, o.selected as int));
                    }
                } else {
                    lemma_focus_kept(c, idx);
                }
            },
            _ => {},
        }
    }
}

proof fn lemma_focus_kept(a: AppV, f: nat)
    ensures
        a.on_file(f).focus == a.focus,
{
    reveal(AppV::on_file);
    reveal(AppV::pointed_at);
    reveal(AppV::with_file);
    reveal(AppV::with_span);
    reveal(AppV::file_revealed);
    reveal(AppV::sidebar_rebuilt);
    reveal(AppV::with_sidebar_cursor);
    reveal(AppV::sidebar_revealed);
    reveal(AppV::at_top);
    reveal(AppV::visible);
}

/// Ctrl-E and Ctrl-Y scroll by one row, within the file, and the cursor stays in view: it stays
/// where it is as long as that is on the screen, and else it goes to a row on the screen, if
/// there is one that it can stand on.
pub proof fn law_scrolling_keeps_the_cursor_in_view(a: AppV, d: Drawn, down: bool, i: int)
    requires
        move_laws::in_diff(a),
        move_laws::in_file(a, a.selected as int),
        move_laws::in_file(a, a.scroll as int),
    ensures
        ({
            let b = move_laws::pressed_ctrl(
                a,
                if down {
                    'e'
                } else {
                    'y'
                },
                d,
            );
            let last = b.last_shown() as int;
            let top = a.max_scroll(
                a.file_span.0,
                a.file_span.1,
                text::at_least_one(a.height),
            );
            &&& move_laws::same_rows(a, b)
            &&& down && a.scroll < top ==> b.scroll == a.scroll + 1
            &&& !down && a.file_span.0 < a.scroll <= top ==> b.scroll == a.scroll - 1
            &&& a.file_span.0 <= b.scroll
            &&& b.scroll <= a.selected <= last ==> b.selected == a.selected
            &&& move_laws::in_file(a, i) && move_laws::landing(a, i) && b.scroll <= i <= last
                ==> b.scroll <= b.selected <= last
        }),
{
    move_laws::lemma_ctrl_key(a, d);
    reveal(AppV::scrolled);
    reveal(AppV::cursor_kept);
    reveal(AppV::unanchored);
    reveal(AppV::seek);
    let s = a.scrolled(
        if down {
            1
        } else {
            -1
        },
    );
    let b = s.cursor_kept();
    let (start, end) = a.file_span;
    lemma_fit_up_range(a, start, end, text::at_least_one(a.height));
    let last = s.last_shown();
    lemma_fit_down(s, b, s.scroll, end, text::at_least_one(s.height));
    lemma_fit_down_range(s, s.scroll, end, text::at_least_one(s.height));
    assert(b.last_shown() == last);
    if s.selected < s.scroll {
        move_laws::lemma_first(s, PredV::Stop, s.scroll, end);
    } else if s.selected > last {
        move_laws::lemma_last(s, PredV::Stop, start, last + 1);
    }
    if move_laws::in_file(a, i) && move_laws::landing(a, i) && s.scroll <= i <= last {
        assert(move_laws::landing(s, i) == move_laws::landing(a, i));
        move_laws::lemma_holds(s, i as nat);
        assert(s.holds(PredV::Stop, i as nat));
    }
}

proof fn lemma_fit_down(a: AppV, b: AppV, t: nat, end: nat, room: nat)
    requires
        b == (AppV { selected: b.selected, sel_anchor: b.sel_anchor, ..a }),
    ensures
        a.fit_down(t, end, room) == b.fit_down(t, end, room),
    decreases end - t,
{
    assert(a.row_h(t) == b.row_h(t));
    if t < end && a.row_h(t) <= room {
        lemma_fit_down(a, b, t + 1, end, (room - a.row_h(t)) as nat);
    }
}

proof fn lemma_fit_up_range(a: AppV, start: nat, t: nat, room: nat)
    requires
        start <= t,
    ensures
        start <= a.fit_up(start, t, room) <= t,
    decreases t,
{
    if t > start && a.row_h((t - 1) as nat) <= room {
        lemma_fit_up_range(a, start, (t - 1) as nat, (room - a.row_h((t - 1) as nat)) as nat);
    }
}

proof fn lemma_fit_down_range(a: AppV, t: nat, end: nat, room: nat)
    requires
        t <= end,
    ensures
        t <= a.fit_down(t, end, room) <= end,
    decreases end - t,
{
    if t < end && a.row_h(t) <= room {
        lemma_fit_down_range(a, t + 1, end, (room - a.row_h(t)) as nat);
    }
}

/// `v` starts a selection at the cursor and ends it again; while it goes on, `j` and `k` leave
/// its start where it is, and otherwise they drop a selection. Esc ends it too.
pub proof fn law_v_selects_lines(a: AppV, d: Drawn)
    requires
        move_laws::in_diff(a),
    ensures
        ({
            let b = move_laws::pressed(a, 'v', d);
            &&& b.visual == !a.visual
            &&& b.selected == a.selected
            &&& b.visual ==> b.sel_anchor == Some(a.selected)
            &&& !b.visual ==> b.sel_anchor is None
        }),
        a.visual ==> move_laws::pressed(a, 'j', d).sel_anchor == a.sel_anchor && move_laws::pressed(
            a,
            'k',
            d,
        ).sel_anchor == a.sel_anchor,
        !a.visual ==> move_laws::pressed(a, 'j', d).sel_anchor is None && move_laws::pressed(
            a,
            'k',
            d,
        ).sel_anchor is None,
        ({
            let b = a.keyed(KeyCode::Esc, laws::bare(), d);
            &&& b.sel_anchor is None && !b.visual && b.selected == a.selected
            &&& b.quit == a.quit && b.threads == a.threads
        }),
{
    reveal(AppV::keyed);
    reveal(AppV::diff_key);
    reveal(AppV::visual_toggled);
    reveal(AppV::moved);
    reveal(AppV::unanchored);
    reveal(AppV::visible);
    reveal(AppV::left);
    reveal(AppV::on_tree);
    let x = a.moved(true);
    let y = a.moved(false);
    assert(x.moved_by(true, 0) == x);
    assert(y.moved_by(false, 0) == y);
    assert(a.moved_by(true, 1) == x);
    assert(a.moved_by(false, 1) == y);
}

/// Shift with an arrow grows the selection: its start stays, or is the cursor's row where there
/// was none, and the cursor goes to the next line of the diff in the file.
pub proof fn law_shift_arrows_grow_the_selection(a: AppV, d: Drawn, down: bool, i: int)
    requires
        move_laws::in_diff(a),
        move_laws::in_file(a, a.selected as int),
        move_laws::in_file(a, i),
        move_laws::diff_line(a, i),
        down ==> i > a.selected,
        !down ==> i < a.selected,
    ensures
        ({
            let shift = Mods { ctrl: false, alt: false, shift: true };
            let b = a.keyed(
                if down {
                    KeyCode::Down
                } else {
                    KeyCode::Up
                },
                shift,
                d,
            );
            &&& b.sel_anchor == (match a.sel_anchor {
                Some(x) => Some(x),
                None => Some(a.selected),
            })
            &&& move_laws::diff_line(a, b.selected as int)
            &&& down ==> a.selected < b.selected <= i
            &&& !down ==> i <= b.selected < a.selected
        }),
{
    reveal(AppV::keyed);
    reveal(AppV::diff_key);
    reveal(AppV::extended);
    reveal(AppV::seek);
    reveal(AppV::visible);
    let (start, end) = a.file_span;
    let from = a.beside(down);
    if down {
        move_laws::lemma_first(a, PredV::Selectable, from as nat, end);
    } else {
        move_laws::lemma_last(a, PredV::Selectable, start, from as nat + 1);
    }
    move_laws::lemma_holds(a, i as nat);
    assert(a.holds(PredV::Selectable, i as nat));
    let to = a.seek(PredV::Selectable, from, down);
    if let Some(k) = to {
        move_laws::lemma_holds(a, k);
    }
}

/// What is marked is what is selected: where the cursor is on a message, all of its lines and no
/// others, and else the rows from one end of the selection to the other.
pub proof fn law_marks_show_the_selection(a: AppV, i: nat)
    requires
        a.selected < a.active_len(),
        i < a.active_len(),
    ensures
        move_laws::message(a, a.selected as int) is None ==> (a.in_selection(i)
            <==> review_laws::first_selected(a) <= i <= review_laws::last_selected(a)),
        move_laws::message(a, a.selected as int) is Some ==> (a.in_selection(i) <==> one_message(
            a,
            a.selected as int,
            i as int,
        )),
{
    reveal(AppV::in_selection);
    reveal(AppV::unit_span);
    move_laws::lemma_place(a, a.selected);
    if move_laws::message(a, a.selected as int) is Some {
        lemma_unit_lo(a, a.selected);
        lemma_unit_hi(a, a.selected);
        let lo = a.unit_lo(a.selected);
        let hi = a.unit_hi(a.selected);
        if lo <= i <= hi {
            assert forall|k: int|
                (i <= k <= a.selected || a.selected <= k <= i) implies #[trigger] move_laws::message(
                a,
                k,
            ) == move_laws::message(a, a.selected as int) by {}
        } else if one_message(a, a.selected as int, i as int) {
            if i < lo {
                assert(move_laws::message(a, lo - 1) == move_laws::message(a, a.selected as int));
            } else {
                assert(move_laws::message(a, hi as int + 1) == move_laws::message(a, a.selected as int));
            }
        }
    }
}

/// Whether all rows from `i` to `j` are lines of one message.
pub open spec fn one_message(a: AppV, i: int, j: int) -> bool {
    forall|k: int|
        (i <= k <= j || j <= k <= i) ==> #[trigger] move_laws::message(a, k) == move_laws::message(
            a,
            i,
        )
}

pub(crate) proof fn lemma_unit_lo(a: AppV, i: nat)
    ensures
        ({
            let lo = a.unit_lo(i);
            &&& lo <= i
            &&& forall|k: int|
                lo <= k <= i ==> #[trigger] move_laws::message(a, k) == move_laws::message(
                    a,
                    i as int,
                )
            &&& lo > 0 ==> move_laws::message(a, lo - 1) != move_laws::message(a, i as int)
        }),
    decreases i,
{
    move_laws::lemma_place(a, i);
    if i > 0 {
        move_laws::lemma_place(a, (i - 1) as nat);
        if a.unit_id((i - 1) as nat) == a.unit_id(i) {
            lemma_unit_lo(a, (i - 1) as nat);
        }
    }
}

proof fn lemma_unit_hi(a: AppV, i: nat)
    requires
        i < a.active_len(),
    ensures
        ({
            let hi = a.unit_hi(i);
            &&& i <= hi < a.active_len()
            &&& forall|k: int|
                i <= k <= hi ==> #[trigger] move_laws::message(a, k) == move_laws::message(
                    a,
                    i as int,
                )
            &&& hi + 1 < a.active_len() ==> move_laws::message(a, hi as int + 1) != move_laws::message(
                a,
                i as int,
            )
        }),
    decreases a.active_len() - i,
{
    move_laws::lemma_place(a, i);
    move_laws::lemma_place(a, i + 1);
    if i + 1 < a.active_len() && a.unit_id(i + 1) == a.unit_id(i) {
        lemma_unit_hi(a, i + 1);
    }
}

/// The code of the diff line in row `i`: without its sign, or that of the new text where there
/// is one.
pub open spec fn code(a: AppV, i: int) -> Seq<char> {
    match a.view {
        ViewMode::Unified => a.rows[i].text.skip(1),
        ViewMode::Split => match a.split_rows[i].kind {
            SplitKindV::Pair { left, right } => match right {
                Some(c) => c.text,
                None => left->0.text,
            },
            _ => Seq::empty(),
        },
    }
}

/// Whether row `i` is a diff line with code.
pub open spec fn has_code(a: AppV, i: int) -> bool {
    match a.view {
        ViewMode::Unified => 0 <= i < a.rows.len() && a.rows[i].kind is Line && a.rows[i].text.len()
            > 0,
        ViewMode::Split => 0 <= i < a.split_rows.len() && (a.split_rows[i].kind matches
            SplitKindV::Pair { left, right } && (left is Some || right is Some)),
    }
}

proof fn lemma_texts_among(a: AppV, lo: nat, n: nat)
    requires
        lo <= n,
        forall|k: int| lo <= k < n ==> #[trigger] has_code(a, k),
    ensures
        a.texts_among(lo, n) == Seq::new((n - lo) as nat, |k: int| code(a, lo + k)),
    decreases n,
{
    let all = Seq::new((n - lo) as nat, |k: int| code(a, lo + k));
    if n > lo {
        reveal(AppV::line_text);
        lemma_texts_among(a, lo, (n - 1) as nat);
        assert(has_code(a, n - 1));
        let before = Seq::new((n - 1 - lo) as nat, |k: int| code(a, lo + k));
        assert(a.line_text((n - 1) as nat) == Some(code(a, n - 1)));
        assert(before.push(code(a, n - 1)) == all);
    } else {
        assert(all == Seq::<Seq<char>>::empty());
    }
}

/// `y` copies what is selected: the code of the selected lines, from the first to the last, with
/// a line break between any two.
pub proof fn law_y_copies_the_selected_lines(a: AppV, d: Drawn)
    requires
        move_laws::in_diff(a),
        move_laws::message(a, a.selected as int) is None,
        forall|k: int|
            review_laws::first_selected(a) <= k <= review_laws::last_selected(a)
                ==> #[trigger] has_code(a, k),
    ensures
        ({
            let b = move_laws::pressed(a, 'y', d);
            let lo = review_laws::first_selected(a);
            let hi = review_laws::last_selected(a);
            b.pending_copy == Some(
                strs::joined(Seq::new((hi + 1 - lo) as nat, |k: int| code(a, lo + k)), '\n'),
            )
        }),
{
    move_laws::lemma_diff_key(a, 'y', d);
    reveal(AppV::copied);
    move_laws::lemma_place(a, a.selected);
    let (lo, hi) = a.bounds();
    lemma_texts_among(a, lo, hi + 1);
}

/// On a message, `y` copies the text of its comment.
pub proof fn law_y_copies_the_comment(a: AppV, d: Drawn, k: int, j: int)
    requires
        move_laws::in_diff(a),
        review_laws::at_comment(a, k, j),
        review_laws::found_first(a, k, j),
    ensures
        move_laws::pressed(a, 'y', d).pending_copy == Some(a.threads[k].comments[j].body),
{
    move_laws::lemma_diff_key(a, 'y', d);
    reveal(AppV::copied);
    reveal(AppV::body_of);
    move_laws::lemma_place(a, a.selected);
    let c = a.threads[k].comments[j].id;
    assert(a.unit_at(a.selected) == Some((a.threads[k].id, c)));
    model::lemma_find(a.threads, a.threads[k].id, a.threads.len());
    model::lemma_find_comment(a.threads[k].comments, c, a.threads[k].comments.len());
    let i = model::find(a.threads, a.threads[k].id);
    if i is None {
        assert(a.threads[k].id != a.threads[k].id);
    }
    assert(i == Some(k));
    let m = model::find_comment(a.threads[k].comments, c);
    if m is None {
        assert(a.threads[k].comments[j].id != c);
    }
    assert(m == Some(j));
}

/// The keys for the whole screen: `q` quits, Tab and `s` change the layout, `w` turns soft-wrap
/// on and off, Ctrl-B shows and hides the file list, and Ctrl-L asks for a full repaint. None of
/// them changes a thread.
pub proof fn law_keys_for_the_screen(a: AppV, d: Drawn)
    requires
        a.composer is None,
    ensures
        move_laws::pressed(a, 'q', d) == (AppV { quit: true, ..a }),
        move_laws::pressed_ctrl(a, 'c', d) == (AppV { quit: true, ..a }),
        move_laws::pressed_ctrl(a, 'l', d) == (AppV { needs_clear: true, ..a }),
        move_laws::pressed(a, 's', d) == a.keyed(KeyCode::Tab, laws::bare(), d),
        ({
            let b = move_laws::pressed(a, 's', d);
            b.view != a.view && b.threads == a.threads && b.files == a.files
        }),
        ({
            let b = move_laws::pressed(a, 'w', d);
            b.wrap == !a.wrap && b.selected == a.selected && b.threads == a.threads
        }),
        ({
            let b = move_laws::pressed_ctrl(a, 'b', d);
            b.show_sidebar == !a.show_sidebar && b.selected == a.selected && (!b.show_sidebar
                ==> b.focus == Focus::Diff)
        }),
{
    reveal(AppV::keyed);
    reveal(AppV::view_toggled);
    reveal(AppV::with_other_view);
    reveal(AppV::view_ensured);
    reveal(AppV::view_built);
    reveal(AppV::resynced);
    reveal(AppV::with_cursor_on);
    reveal(AppV::with_anchor_on);
    reveal(AppV::with_file_of);
    reveal(AppV::with_span);
    reveal(AppV::recentered);
    reveal(AppV::visible);
    reveal(AppV::wrap_toggled);
    reveal(AppV::sidebar_toggled);
}

/// The left arrow goes to the file list where it is shown, and the right arrow and Enter from
/// there to the diff; neither moves a cursor.
pub proof fn law_arrows_change_the_pane(a: AppV, d: Drawn)
    requires
        a.composer is None,
    ensures
        move_laws::in_diff(a) ==> ({
            let b = a.keyed(KeyCode::Left, laws::bare(), d);
            b == (AppV { focus: b.focus, ..a }) && (a.show_sidebar && a.files.len() > 0 ==> b.focus
                == Focus::Sidebar)
        }),
        !move_laws::in_diff(a) ==> a.keyed(KeyCode::Right, laws::bare(), d) == (AppV {
            focus: Focus::Diff,
            ..a
        }) && a.keyed(KeyCode::Enter, laws::bare(), d) == (AppV { focus: Focus::Diff, ..a }),
{
    reveal(AppV::keyed);
    reveal(AppV::diff_key);
    reveal(AppV::tree_key);
    reveal(AppV::on_tree);
    reveal(AppV::on_diff);
}

proof fn lemma_status_kept(a: AppV)
    ensures
        a.rebuilt().status == a.status,
        a.rebuilt().threads == a.threads,
{
    reveal(AppV::rebuilt);
    reveal(AppV::view_built);
    reveal(AppV::other_stale);
    reveal(AppV::resynced);
    reveal(AppV::with_cursor_on);
    reveal(AppV::with_file_of);
    reveal(AppV::with_span);
    reveal(AppV::visible);
}

/// The status tells what became of things: whether the thread is resolved now or open, how many
/// lines were copied, and which layout is shown.
pub proof fn law_the_status_tells_the_outcome(a: AppV, id: Seq<char>, i: int)
    requires
        model::find(a.threads, id) == Some(i),
        0 <= i < a.threads.len(),
    ensures
        ({
            let b = a.resolve_toggled(id);
            b.status == (if b.threads[i].resolved {
                "resolved thread"@
            } else {
                "unresolved thread"@
            })
        }),
        ({
            let b = a.view_toggled();
            b.status == (if b.view == ViewMode::Split {
                "split view"@
            } else {
                "unified view"@
            })
        }),
{
    reveal(AppV::resolve_toggled);
    let t = model::with_resolved(a.threads[i], !a.threads[i].resolved);
    lemma_status_kept(
        AppV {
            threads: a.threads.update(i, t),
            status: if a.threads[i].resolved {
                "unresolved thread"@
            } else {
                "resolved thread"@
            },
            ..a
        },
    );
    reveal(AppV::view_toggled);
    reveal(AppV::with_other_view);
    reveal(AppV::view_ensured);
    reveal(AppV::view_built);
    reveal(AppV::resynced);
    reveal(AppV::with_cursor_on);
    reveal(AppV::with_anchor_on);
    reveal(AppV::with_file_of);
    reveal(AppV::with_span);
    reveal(AppV::recentered);
    reveal(AppV::visible);
}

/// Changing the layout keeps the start of the selection on its line, where the other layout has
/// that line, and drops it where it has not.
pub proof fn law_view_toggle_keeps_the_selection(a: AppV, i: nat, j: int)
    requires
        a.sel_anchor == Some(i),
        move_laws::place(a, i as int) is Some,
    ensures
        ({
            let b = a.view_toggled();
            let p = move_laws::place(a, i as int);
            &&& move_laws::place(b, j) == p ==> b.sel_anchor is Some
            &&& b.sel_anchor matches Some(k) ==> move_laws::place(b, k as int) == p
        }),
{
    reveal(AppV::view_toggled);
    reveal(AppV::with_other_view);
    reveal(AppV::view_ensured);
    reveal(AppV::view_built);
    reveal(AppV::resynced);
    reveal(AppV::with_cursor_on);
    reveal(AppV::with_anchor_on);
    reveal(AppV::with_file_of);
    reveal(AppV::with_span);
    reveal(AppV::recentered);
    reveal(AppV::visible);
    reveal(AppV::anchor_key);
    reveal(AppV::line_key);
    reveal(AppV::find_key);
    reveal(AppV::holds);
    let b = a.view_toggled();
    let c = a.with_other_view().view_ensured().resynced().with_cursor_on(a.sel_key());
    move_laws::lemma_place(a, i);
    let key = a.line_key(i)->0;
    move_laws::lemma_first(c, PredV::Key(key), 0, c.active_len());
    if let Some(k) = c.first(PredV::Key(key), 0, c.active_len()) {
        move_laws::lemma_place(c, k);
        assert(move_laws::place(b, k as int) == move_laws::place(c, k as int));
    }
    if move_laws::place(b, j) is Some {
        assert(0 <= j < c.active_len());
        move_laws::lemma_place(c, j as nat);
        assert(move_laws::place(b, j) == move_laws::place(c, j));
        if move_laws::place(b, j) == move_laws::place(a, i as int) {
            assert(c.holds(PredV::Key(key), j as nat));
        }
    }
}

/// The keys of the keypad do what the letters do: the arrows what `j` and `k` do, the keys for
/// pages what the space bar and `b` do, Home and End what `g` and `G` do; and Ctrl-F goes down a
/// page.
pub proof fn law_keys_have_other_names(a: AppV, d: Drawn)
    requires
        a.composer is None,
    ensures
        a.keyed(KeyCode::Down, laws::bare(), d) == move_laws::pressed(a, 'j', d),
        a.keyed(KeyCode::Up, laws::bare(), d) == move_laws::pressed(a, 'k', d),
        a.keyed(KeyCode::Home, laws::bare(), d) == move_laws::pressed(a, 'g', d),
        a.keyed(KeyCode::End, laws::bare(), d) == move_laws::pressed(a, 'G', d),
        move_laws::in_diff(a) ==> {
            &&& a.keyed(KeyCode::PageDown, laws::bare(), d) == move_laws::pressed(a, ' ', d)
            &&& a.keyed(KeyCode::PageUp, laws::bare(), d) == move_laws::pressed(a, 'b', d)
            &&& move_laws::pressed_ctrl(a, 'f', d) == move_laws::pressed(a, ' ', d)
        },
{
    reveal(AppV::keyed);
    reveal(AppV::diff_key);
    reveal(AppV::tree_key);
}

/// In the file list `g` goes to the first row and `G` to the last; on the row of a file, that
/// file is shown.
pub proof fn law_the_list_has_ends(a: AppV, d: Drawn, last: bool)
    requires
        a.composer is None,
        a.focus == Focus::Sidebar,
        a.show_sidebar,
        a.files.len() > 0,
        a.sidebar_rows.len() > 0,
    ensures
        ({
            let b = move_laws::pressed(
                a,
                if last {
                    'G'
                } else {
                    'g'
                },
                d,
            );
            let at = if last {
                a.sidebar_rows.len() - 1
            } else {
                0
            };
            match a.sidebar_rows[at] {
                SbRowV::Dir { .. } => b.sidebar_sel == at && b.current_file == a.current_file,
                SbRowV::File { idx, .. } => idx < a.files.len() ==> b.current_file == idx && (idx
                    == a.current_file ==> b.sidebar_sel == at),
            }
        }),
{
    reveal(AppV::keyed);
    reveal(AppV::tree_key);
    reveal(AppV::sidebar_at_edge);
    reveal(AppV::activated);
    reveal(AppV::sidebar_revealed);
    let at = if last {
        a.sidebar_rows.len() - 1
    } else {
        0
    };
    let c = AppV { sidebar_sel: at as nat, ..a };
    if let SbRowV::File { idx, .. } = a.sidebar_rows[at] {
        if idx < a.files.len() {
            lemma_on_file(c, idx);
        }
    }
}

} // verus!
