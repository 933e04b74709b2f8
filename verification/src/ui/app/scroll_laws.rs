//! Laws of the viewport: where the cursor goes, and what is on the screen then.
use crate::ui::app::nav;
use crate::ui::app::state::{AppV, PredV};
use crate::ui::app::wrap;
use crate::ui::render_rows::text;
use vstd::prelude::*;

verus! {

/// The display lines of rows `[i, j)` together.
pub open spec fn lines_between(a: AppV, i: nat, j: nat) -> nat
    decreases j,
{
    if j <= i {
        0
    } else {
        lines_between(a, i, (j - 1) as nat) + a.row_h((j - 1) as nat)
    }
}

/// Whether row `i` is on the screen: as a whole, or at its top.
pub open spec fn on_screen(a: AppV, i: nat) -> bool {
    &&& a.scroll <= i
    &&& i == a.scroll || lines_between(a, a.scroll, i + 1) <= text::at_least_one(a.height)
}

/// The row that the viewport follows: the first of the message that the cursor is on, or the
/// cursor's own.
pub open spec fn followed(a: AppV) -> (nat, nat) {
    match a.unit_span(a.selected) {
        Some(s) => s,
        None => (a.selected, a.selected),
    }
}

proof fn lemma_later_start(a: AppV, i: nat, k: nat, j: nat)
    requires
        i <= k,
    ensures
        lines_between(a, k, j) <= lines_between(a, i, j),
    decreases j,
{
    if j > k {
        lemma_later_start(a, i, k, (j - 1) as nat);
    }
}

proof fn lemma_earlier_end(a: AppV, i: nat, k: nat, j: nat)
    requires
        k <= j,
    ensures
        lines_between(a, i, k) <= lines_between(a, i, j),
    decreases j,
{
    if k < j {
        lemma_earlier_end(a, i, k, (j - 1) as nat);
    }
}

proof fn lemma_first_line(a: AppV, i: nat, j: nat)
    requires
        i < j,
    ensures
        lines_between(a, i, j) == a.row_h(i) + lines_between(a, i + 1, j),
    decreases j,
{
    if i + 1 < j {
        lemma_first_line(a, i, (j - 1) as nat);
    } else {
        assert(lines_between(a, i, i) == 0);
        assert(lines_between(a, i + 1, j) == 0);
    }
}

proof fn lemma_fit_up(a: AppV, start: nat, t: nat, room: nat, end: nat, used: nat)
    requires
        t <= end,
        start <= t,
        lines_between(a, t, end) == used,
    ensures
        start <= a.fit_up(start, t, room) <= t,
        lines_between(a, a.fit_up(start, t, room), end) <= used + room,
        t > start && a.row_h((t - 1) as nat) <= room ==> a.fit_up(start, t, room) < t,
    decreases t,
{
    if t > start && a.row_h((t - 1) as nat) <= room {
        lemma_first_line(a, (t - 1) as nat, end);
        lemma_fit_up(
            a,
            start,
            (t - 1) as nat,
            (room - a.row_h((t - 1) as nat)) as nat,
            end,
            used + a.row_h((t - 1) as nat),
        );
    }
}

/// The viewport follows the cursor: afterwards the cursor's line, or the first line of its
/// message, is on the screen, and the viewport lies within the file.
pub proof fn law_cursor_in_view(a: AppV)
    requires
        a.file_span.0 <= followed(a).0 <= followed(a).1 < a.file_span.1,
    ensures
        on_screen(a.visible(), followed(a).0),
        a.file_span.0 <= a.visible().scroll < a.file_span.1,
        a.visible() == (AppV { scroll: a.visible().scroll, ..a }),
{
    reveal(AppV::visible);
    let (start, end) = a.file_span;
    let h = text::at_least_one(a.height);
    let (top, bot) = followed(a);
    let b = a.visible();
    let tf = a.top_for(start, bot, h);
    let s1 = wrap::larger(a.scroll, tf);
    let s2 = nav::smaller(s1, top);
    let m = a.max_scroll(start, end, h);
    lemma_same_lines(a, b, b.scroll, top + 1);
    assert(lines_between(a, bot + 1, bot + 1) == 0);
    lemma_fit_up(a, start, bot + 1, h, bot + 1, 0);
    assert(lines_between(a, end, end) == 0);
    lemma_fit_up(a, start, end, h, end, 0);
    if b.scroll != top {
        if m < s2 {
            // As far as the file can be scrolled: the rest of it is on the screen.
            assert(b.scroll == m || b.scroll == start);
            if a.fit_up(start, end, h) != end {
                lemma_later_start(a, m, b.scroll, end);
                lemma_earlier_end(a, b.scroll, top + 1, end);
            }
        } else if s2 >= start {
            assert(b.scroll == s2);
            assert(s2 < top);
            assert(s1 == s2);
            assert(tf <= s1);
            assert(a.fit_up(start, bot + 1, h) <= bot);
            lemma_later_start(a, tf, s1, bot + 1);
            lemma_earlier_end(a, s1, top + 1, bot + 1);
        } else {
            assert(tf >= start);
            assert(false);
        }
    }
}

proof fn lemma_same_lines(a: AppV, b: AppV, i: nat, j: nat)
    requires
        b == (AppV { scroll: b.scroll, ..a }),
    ensures
        lines_between(a, i, j) == lines_between(b, i, j),
    decreases j,
{
    if j > i {
        lemma_same_lines(a, b, i, (j - 1) as nat);
    }
}

proof fn lemma_first_within(a: AppV, p: PredV, i: nat, end: nat)
    ensures
        a.first(p, i, end) matches Some(k) ==> i <= k < end && a.holds(p, k),
    decreases end - i,
{
    if i < end && !a.holds(p, i) {
        lemma_first_within(a, p, i + 1, end);
    }
}

proof fn lemma_last_within(a: AppV, p: PredV, start: nat, i: nat)
    ensures
        a.last(p, start, i) matches Some(k) ==> start <= k < i && a.holds(p, k),
    decreases i,
{
    if i > start && !a.holds(p, (i - 1) as nat) {
        lemma_last_within(a, p, start, (i - 1) as nat);
    }
}

/// Moving stays within the file: a cursor in the file is in it after any number of steps.
pub proof fn law_moves_stay_in_file(a: AppV, down: bool, n: nat)
    requires
        a.file_span.0 <= a.selected < a.file_span.1,
    ensures
        a.moved_by(down, n).file_span == a.file_span,
        a.file_span.0 <= a.moved_by(down, n).selected < a.file_span.1,
        down ==> a.moved_by(down, n).selected >= a.selected,
        !down ==> a.moved_by(down, n).selected <= a.selected,
    decreases n,
{
    if n > 0 {
        reveal(AppV::moved);
        reveal(AppV::unanchored);
        reveal(AppV::visible);
        reveal(AppV::seek);
        let u = a.unanchored();
        let from = u.beside(down);
        let (start, end) = a.file_span;
        if start <= from < end {
            if down {
                lemma_first_within(u, PredV::Stop, from as nat, end);
            } else {
                lemma_last_within(u, PredV::Stop, start, from as nat + 1);
            }
        }
        let m = a.moved(down);
        if m.selected != a.selected {
            law_moves_stay_in_file(m, down, (n - 1) as nat);
        }
    }
}

} // verus!
