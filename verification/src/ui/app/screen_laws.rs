//! What stands on the screen: the lines of boxes, the file list, and the rows of the diff from
//! the top of the viewport on.
use crate::comments::model::ThreadV;
use crate::diff::model::{DiffFileV, DiffLineV, HunkV, LineKind};
use crate::paths;
use crate::strs;
use crate::ui::app::column_laws;
use crate::ui::app::nav;
use crate::ui::app::paint;
use crate::ui::app::render;
use crate::ui::app::render_boxes;
use crate::ui::app::render_boxes::BtnV;
use crate::ui::app::render_lines;
use crate::ui::app::review_laws;
use crate::ui::app::start;
use crate::ui::app::state::{AppV, ButtonV, Focus, HitV, ViewMode, COMPOSER_CARET};
use crate::ui::app::wrap;
use crate::ui::highlight_cache::SourceV;
use crate::ui::render_rows::rows::{RowKindV, RowV};
use crate::ui::render_rows::split::{SplitKindV, SplitRowV};
use crate::ui::render_rows::text;
use crate::ui::render_rows::threads::{CommentKindV, CommentLineV, ComposerKindV};
use crate::ui::sidebar;
use crate::ui::sidebar::SbRowV;
use crate::ui::style::{Color, Rect, SpanV};
use crate::ui::theme::Theme;
use vstd::prelude::*;

verus! {

/// `n` spaces.
pub open spec fn blanks(n: int) -> Seq<char> {
    Seq::new(n as nat, |i: int| ' ')
}

/// A line of a box: the margin, the frame on either side, and between them the text.
pub open spec fn boxed(s: Seq<char>) -> Seq<char> {
    seq![' ', ' ', '│'] + s + seq!['│']
}

proof fn lemma_framed(border: Color, inner: Seq<SpanV>)
    ensures
        column_laws::spelled(render_boxes::framed(border, inner)) == boxed(
            column_laws::spelled(inner),
        ),
{
    reveal_strlit("│");
    let e = render_boxes::edge(border);
    let front = seq![paint::gap(2), e];
    column_laws::lemma_spelled_one(paint::gap(2));
    column_laws::lemma_spelled_push(seq![paint::gap(2)], e);
    assert(seq![paint::gap(2)].push(e) == front);
    column_laws::lemma_spelled_one(e);
    column_laws::lemma_spelled_add(front, inner);
    column_laws::lemma_spelled_add(front + inner, seq![e]);
    assert("│"@ == seq!['│']);
    assert(text::spaces(2) + seq!['│'] == seq![' ', ' ', '│']);
}

proof fn lemma_fitted(s: Seq<char>, w: nat)
    requires
        text::cells(s) <= w,
    ensures
        paint::fitted(s, w) == s + blanks(w - text::cells(s)),
{
    column_laws::lemma_fit_all(s, w);
    assert(text::spaces((w - text::cells(s)) as nat) == blanks(w - text::cells(s)));
}

/// A line of a thread's box that has room says what it is: a line of the message behind a
/// space, the author behind `@` with the date at the right, and the head whether the thread is
/// open and how many messages it has.
pub proof fn law_boxes_say_their_lines(t: Theme, cl: CommentLineV, focused: bool, width: nat)
    requires
        width > 4,
    ensures
        ({
            let s = column_laws::spelled(render_boxes::comment_line(t, cl, focused, width));
            let room = width - 4;
            match cl.kind {
                CommentKindV::Body(b) => text::cells(seq![' '] + b) <= room ==> s == boxed(
                    seq![' '] + b + blanks(room - text::cells(seq![' '] + b)),
                ),
                CommentKindV::Author { name, date } => {
                    let left = seq![' ', '@'] + name;
                    text::cells(left) + text::cells(date) + 2 <= room ==> s == boxed(
                        left + blanks(room - text::cells(left) - text::cells(date) - 1) + date
                            + blanks(1),
                    )
                },
                CommentKindV::Head { replies } => {
                    let h = (if cl.resolved {
                        " ▾ resolved · "@
                    } else {
                        " ▾ open · "@
                    }) + strs::dec(replies) + (if replies == 1 {
                        " message"@
                    } else {
                        " messages"@
                    });
                    text::cells(h) <= room ==> s == boxed(h + blanks(room - text::cells(h)))
                },
                CommentKindV::Top => s == seq![' ', ' ', '╭'] + Seq::new(
                    room as nat,
                    |i: int| '─',
                ) + seq!['╮'],
                CommentKindV::Bottom => s == seq![' ', ' ', '╰'] + Seq::new(
                    room as nat,
                    |i: int| '─',
                ) + seq!['╯'],
                _ => text::cells(Seq::empty()) == 0 ==> s == boxed(blanks(room)),
            }
        }),
{
    let line = render_boxes::comment_line(t, cl, focused, width);
    let border = render_boxes::box_border(t, cl, focused);
    let room = (width - 4) as nat;
    match cl.kind {
        CommentKindV::Body(b) => {
            if text::cells(seq![' '] + b) <= room {
                lemma_fitted(seq![' '] + b, room);
                let x = line[2];
                lemma_framed(border, seq![x]);
                column_laws::lemma_spelled_one(x);
                assert(line == render_boxes::framed(border, seq![x]));
            }
        },
        CommentKindV::Author { name, date } => {
            reveal_strlit(" @");
            assert(" @"@ == seq![' ', '@']);
            let left = seq![' ', '@'] + name;
            if text::cells(left) + text::cells(date) + 2 <= room {
                let n = (room - text::cells(left) - text::cells(date) - 1) as nat;
                let a = line[2];
                let c = line[4];
                let inner = render_boxes::author_line(t, cl.resolved, name, date, room);
                assert(inner == seq![a, paint::gap(n), c, paint::gap(1)]);
                lemma_framed(border, inner);
                column_laws::lemma_spelled_one(a);
                column_laws::lemma_spelled_push(seq![a], paint::gap(n));
                column_laws::lemma_spelled_push(seq![a].push(paint::gap(n)), c);
                column_laws::lemma_spelled_push(
                    seq![a].push(paint::gap(n)).push(c),
                    paint::gap(1),
                );
                assert(seq![a].push(paint::gap(n)).push(c).push(paint::gap(1)) == inner);
                assert(text::spaces(n) == blanks(n as int));
                assert(text::spaces(1) == blanks(1));
            }
        },
        CommentKindV::Head { replies } => {
            let h = render_boxes::head_text(cl.resolved, replies);
            if text::cells(h) <= room {
                lemma_fitted(h, room);
                let x = line[2];
                lemma_framed(border, seq![x]);
                column_laws::lemma_spelled_one(x);
                assert(line == render_boxes::framed(border, seq![x]));
            }
        },
        CommentKindV::Actions => {
            lemma_framed(border, seq![paint::gap(room)]);
            column_laws::lemma_spelled_one(paint::gap(room));
            assert(text::spaces(room) == blanks(room as int));
        },
        CommentKindV::Gap => {
            if text::cells(Seq::empty()) == 0 {
                lemma_fitted(Seq::empty(), room);
                let x = line[2];
                lemma_framed(border, seq![x]);
                column_laws::lemma_spelled_one(x);
                assert(line == render_boxes::framed(border, seq![x]));
                assert(Seq::<char>::empty() + blanks(room as int) == blanks(room as int));
            }
        },
        _ => {
            let x = line[1];
            column_laws::lemma_spelled_one(paint::gap(2));
            column_laws::lemma_spelled_push(seq![paint::gap(2)], x);
            assert(line == seq![paint::gap(2)].push(x));
            let l = x.text[0];
            let r = x.text[room as int + 1];
            let bar = Seq::new(room, |i: int| '─');
            assert(paint::repeated('─', room) == bar);
            assert(text::spaces(2) + (seq![l] + bar + seq![r]) == seq![' ', ' ', l] + bar + seq![
                r,
            ]);
        },
    }
}

/// A line of the composer that has room says its text behind a space, with the character under
/// the caret in its place.
pub proof fn law_composer_says_its_lines(t: Theme, a: Seq<char>, c: char, b: Seq<char>, width: nat)
    requires
        width > 4,
        !a.contains(COMPOSER_CARET),
        text::cells(seq![' '] + a) + text::cells(seq![c]) + text::cells(b) <= width - 4,
    ensures
        ({
            let room = width - 4;
            let used = text::cells(seq![' '] + a) + text::cells(seq![c]) + text::cells(b);
            column_laws::spelled(
                render_boxes::composer_line(
                    t,
                    ComposerKindV::Body(a + seq![COMPOSER_CARET, c] + b),
                    width,
                ),
            ) == boxed(seq![' '] + a + seq![c] + b + blanks(room - used))
        }),
        column_laws::spelled(render_boxes::composer_line(t, ComposerKindV::Body(a), width))
            == boxed(seq![' '] + a + blanks(width - 4 - text::cells(seq![' '] + a))),
{
    let room = (width - 4) as nat;
    let s = a + seq![COMPOSER_CARET, c] + b;
    assert(s.take(a.len() as int) == a);
    lemma_find_char(s, a, 0);
    lemma_no_char(a, 0);
    let inner = render_boxes::body_line(t, s, room);
    assert(s[a.len() as int] == COMPOSER_CARET);
    assert(s[a.len() as int + 1] == c);
    assert(s.skip(a.len() as int + 2) == b);
    let lead = seq![' '] + a;
    column_laws::lemma_fit_all(lead, (room - text::cells(seq![c])) as nat);
    column_laws::lemma_fit_all(
        b,
        (room - text::cells(lead) - text::cells(seq![c])) as nat,
    );
    lemma_framed(t.accent, inner);
    column_laws::lemma_spelled_one(inner[0]);
    column_laws::lemma_spelled_push(seq![inner[0]], inner[1]);
    column_laws::lemma_spelled_push(seq![inner[0]].push(inner[1]), inner[2]);
    assert(inner == seq![inner[0]].push(inner[1]).push(inner[2]));
    let used = text::cells(lead) + text::cells(seq![c]) + text::cells(b);
    assert(text::spaces((room - used) as nat) == blanks(room - used));
    assert(lead + seq![c] + (b + blanks(room - used)) == lead + seq![c] + b + blanks(
        room - used,
    ));
    let plain = render_boxes::body_line(t, a, room);
    lemma_fitted(lead, room);
    lemma_framed(t.accent, plain);
    column_laws::lemma_spelled_one(plain[0]);
    assert(plain == seq![plain[0]]);
}

proof fn lemma_find_char(s: Seq<char>, a: Seq<char>, i: nat)
    requires
        i <= a.len() < s.len(),
        s.take(a.len() as int) == a,
        s[a.len() as int] == COMPOSER_CARET,
        !a.contains(COMPOSER_CARET),
    ensures
        render_boxes::find_char(s, COMPOSER_CARET, i) == a.len(),
    decreases a.len() - i,
{
    if i < a.len() {
        assert(s.take(a.len() as int)[i as int] == a[i as int]);
        assert(a[i as int] != COMPOSER_CARET);
        lemma_find_char(s, a, i + 1);
    }
}

proof fn lemma_no_char(a: Seq<char>, i: nat)
    requires
        i <= a.len(),
        !a.contains(COMPOSER_CARET),
    ensures
        render_boxes::find_char(a, COMPOSER_CARET, i) == a.len(),
    decreases a.len() - i,
{
    if i < a.len() {
        assert(a[i as int] != COMPOSER_CARET);
        lemma_no_char(a, i + 1);
    }
}

/// The line of the pane that row `i` starts on, where the row at the top is `top`.
pub open spec fn starts_on(a: AppV, h: SourceV, area: Rect, top: nat, i: nat) -> nat
    decreases i,
{
    if i <= top {
        0
    } else {
        let p = (i - 1) as nat;
        let before = starts_on(a, h, area, top, p);
        before + render::row_block(
            a,
            h,
            area,
            p,
            render_boxes::coord(area.y as nat + before),
        ).0.len()
    }
}

/// The lines and buttons of row `i`, where the row at the top is `top`.
pub open spec fn drawn(a: AppV, h: SourceV, area: Rect, top: nat, i: nat) -> (
    Seq<Seq<SpanV>>,
    Seq<HitV>,
) {
    render::row_block(
        a,
        h,
        area,
        i,
        render_boxes::coord(area.y as nat + starts_on(a, h, area, top, i)),
    )
}

/// The row at the top of the pane: that of the viewport, or the first of the file.
pub open spec fn top_row(a: AppV) -> nat {
    if a.scroll >= a.file_span.0 {
        a.scroll
    } else {
        a.file_span.0
    }
}

proof fn lemma_starts_later(a: AppV, h: SourceV, area: Rect, top: nat, i: nat, j: nat)
    requires
        i <= j,
    ensures
        starts_on(a, h, area, top, i) <= starts_on(a, h, area, top, j),
    decreases j,
{
    if i < j {
        lemma_starts_later(a, h, area, top, i, (j - 1) as nat);
    }
}

proof fn lemma_prefix(
    a: AppV,
    h: SourceV,
    area: Rect,
    idx: nat,
    end: nat,
    lines: Seq<Seq<SpanV>>,
    hits: Seq<HitV>,
)
    requires
        lines.len() <= area.height,
    ensures
        ({
            let r = render::rows_below(a, h, area, idx, end, lines, hits);
            &&& lines.len() <= r.0.len() <= area.height
            &&& forall|j: int| 0 <= j < lines.len() ==> r.0[j] == #[trigger] lines[j]
            &&& forall|x: HitV| hits.contains(x) ==> #[trigger] r.1.contains(x)
        }),
    decreases end - idx,
{
    if lines.len() < area.height && idx < end {
        let y = render_boxes::coord(area.y as nat + lines.len());
        let (ls, hs) = render::row_block(a, h, area, idx, y);
        let more = render::at_most(lines + ls, area.height as nat);
        lemma_prefix(a, h, area, idx + 1, end, more, hits + hs);
        let r = render::rows_below(a, h, area, idx, end, lines, hits);
        assert forall|j: int| 0 <= j < lines.len() implies r.0[j] == #[trigger] lines[j] by {
            assert(more[j] == lines[j]);
        }
        assert forall|x: HitV| hits.contains(x) implies #[trigger] r.1.contains(x) by {
            let q = choose|q: int| 0 <= q < hits.len() && hits[q] == x;
            assert((hits + hs)[q] == x);
        }
    }
}

proof fn lemma_below(
    a: AppV,
    h: SourceV,
    area: Rect,
    top: nat,
    idx: nat,
    end: nat,
    lines: Seq<Seq<SpanV>>,
    hits: Seq<HitV>,
    i: nat,
    k: int,
)
    requires
        top <= idx <= i < end,
        lines.len() == starts_on(a, h, area, top, idx),
        0 <= k < drawn(a, h, area, top, i).0.len(),
        starts_on(a, h, area, top, i) + k < area.height,
    ensures
        ({
            let r = render::rows_below(a, h, area, idx, end, lines, hits);
            let d = drawn(a, h, area, top, i);
            let at = starts_on(a, h, area, top, i) + k;
            &&& at < r.0.len() && r.0[at] == d.0[k]
            &&& forall|x: HitV| d.1.contains(x) ==> #[trigger] r.1.contains(x)
        }),
    decreases end - idx,
{
    lemma_starts_later(a, h, area, top, idx, i);
    let y = render_boxes::coord(area.y as nat + lines.len());
    let (ls, hs) = render::row_block(a, h, area, idx, y);
    let more = render::at_most(lines + ls, area.height as nat);
    if idx == i {
        lemma_prefix(a, h, area, idx + 1, end, more, hits + hs);
        let at = lines.len() + k;
        assert(more[at] == ls[k]);
        let r = render::rows_below(a, h, area, idx, end, lines, hits);
        assert forall|x: HitV| hs.contains(x) implies #[trigger] r.1.contains(x) by {
            let q = choose|q: int| 0 <= q < hs.len() && hs[q] == x;
            assert((hits + hs)[hits.len() + q] == x);
            assert((hits + hs).contains(x));
        }
    } else {
        lemma_starts_later(a, h, area, top, idx + 1, i);
        assert(more == lines + ls);
        lemma_below(a, h, area, top, idx + 1, end, more, hits + hs, i, k);
    }
}

/// The pane shows the rows of the file from the top of the viewport on, one under the other,
/// each with all its lines and its buttons, as far as there is room.
pub proof fn law_rows_stand_in_order(a: AppV, h: SourceV, i: nat, k: int)
    requires
        top_row(a) <= i < a.file_span.1,
        i < a.active_len(),
        0 <= k < drawn(a, h, a.diff_area, top_row(a), i).0.len(),
        starts_on(a, h, a.diff_area, top_row(a), i) + k < a.diff_area.height,
    ensures
        ({
            let (lines, hits) = render::diff_lines(a, h);
            let d = drawn(a, h, a.diff_area, top_row(a), i);
            let at = starts_on(a, h, a.diff_area, top_row(a), i) + k;
            &&& at < lines.len() <= a.diff_area.height && lines[at] == d.0[k]
            &&& forall|x: HitV| d.1.contains(x) ==> #[trigger] hits.contains(x)
        }),
{
    let end = nav::smaller(a.file_span.1, a.active_len());
    lemma_prefix(a, h, a.diff_area, top_row(a), end, Seq::empty(), Seq::empty());
    lemma_below(
        a,
        h,
        a.diff_area,
        top_row(a),
        top_row(a),
        end,
        Seq::empty(),
        Seq::empty(),
        i,
        k,
    );
}

/// Each row is drawn as what it is, marked where it is selected: a line of the diff with its
/// code, a line of a box in its box. Only a row of buttons is drawn as such, and on the last
/// selected line the first line makes room for the button.
pub proof fn law_rows_are_drawn_as_they_are(a: AppV, h: SourceV, area: Rect, i: nat, y: u16)
    requires
        i < a.active_len(),
    ensures
        ({
            let lines = render::row_block(a, h, area, i, y).0;
            let w = area.width as nat;
            match a.view {
                ViewMode::Unified => {
                    let row = a.rows[i as int];
                    let own = render_lines::row_lines(a, h, row, a.in_selection(i), w);
                    match row.kind {
                        RowKindV::Comment(cl) => !(cl.kind is Actions) ==> lines == own,
                        RowKindV::Composer(k) => !(k is Hint) ==> lines == own,
                        RowKindV::Line { .. } => lines.len() == own.len() && (
                        !with_button(a, i) ==> lines == own) && forall|k: int|
                            0 < k < own.len() ==> lines[k] == #[trigger] own[k],
                        _ => lines == own,
                    }
                },
                ViewMode::Split => {
                    let row = a.split_rows[i as int];
                    let own = render_lines::split_lines(
                        a,
                        h,
                        row,
                        a.in_selection(i),
                        wrap::side_width(w),
                    );
                    match row.kind {
                        SplitKindV::Comment { line, .. } => !(line.kind is Actions) ==> lines
                            == own,
                        SplitKindV::Composer { line, .. } => !(line is Hint) ==> lines == own,
                        SplitKindV::Pair { .. } => lines.len() == own.len() && (
                        !with_button(a, i) ==> lines == own) && forall|k: int|
                            0 < k < own.len() ==> lines[k] == #[trigger] own[k],
                        _ => lines == own,
                    }
                },
            }
        }),
{
    reveal(render::row_block);
}

/// Whether row `i` carries the button for a new comment: it is the last of the selection, the
/// diff has the focus, and nothing is being written.
pub open spec fn with_button(a: AppV, i: nat) -> bool {
    &&& a.composer is None
    &&& a.focus == Focus::Diff || !a.show_sidebar || a.files.len() == 0
    &&& i == review_laws::last_selected(a)
}

/// The thread that a button is for.
pub open spec fn button_thread(b: ButtonV) -> Option<Seq<char>> {
    match b {
        ButtonV::Reply(t) => Some(t),
        ButtonV::ToggleResolve(t) => Some(t),
        ButtonV::Delete(t, _) => Some(t),
        _ => None,
    }
}

/// The buttons of a thread's box act on that thread: one answers it, one changes whether it is
/// resolved, and where the cursor is on a message of it that did not come with the input, one
/// deletes that message.
pub proof fn law_buttons_act_on_their_thread(a: AppV, cl: CommentLineV, k: int)
    requires
        0 <= k < render_boxes::thread_buttons(a, cl).len(),
    ensures
        ({
            let bs = render_boxes::thread_buttons(a, cl);
            let own = a.unit_at(a.selected) matches Some((t, c)) && t == cl.thread_id
                && !a.base_ids.contains(c);
            &&& button_thread(bs[k].action) == Some(cl.thread_id)
            &&& bs[0].action is Reply && bs[1].action is ToggleResolve
            &&& bs[0].label == "reply(r)"@
            &&& bs[1].label == (if cl.resolved {
                "unresolve(R)"@
            } else {
                "resolve(R)"@
            })
            &&& bs.len() == (if own {
                3int
            } else {
                2
            })
            &&& own ==> bs[2].action == ButtonV::Delete(
                cl.thread_id,
                (a.unit_at(a.selected)->0).1,
            )
        }),
{
}

proof fn lemma_chips(btns: Seq<BtnV>, n: nat, room: nat, x: nat, y: u16, t: Theme)
    requires
        n <= btns.len(),
    ensures
        ({
            let c = render_boxes::chips(btns, n, room, x, y, t);
            &&& c.hits.len() <= n
            &&& !c.full ==> c.hits.len() == n
            &&& forall|k: int|
                0 <= k < c.hits.len() ==> (#[trigger] c.hits[k]).action == btns[k].action
                    && c.hits[k].rect.y == y && c.hits[k].rect.height == 1
        }),
    decreases n,
{
    if n > 0 {
        lemma_chips(btns, (n - 1) as nat, room, x, y, t);
    }
}

/// A row of buttons offers them in order, as many as there is room for, on its own line of the
/// screen.
pub proof fn law_buttons_stand_on_their_line(
    t: Theme,
    btns: Seq<BtnV>,
    border: Color,
    x0: u16,
    y: u16,
    width: nat,
    left: nat,
    box_w: nat,
    k: int,
)
    requires
        0 <= k < render_boxes::action_row(t, btns, border, x0, y, width, left, box_w).1.len(),
    ensures
        ({
            let hits = render_boxes::action_row(t, btns, border, x0, y, width, left, box_w).1;
            &&& hits.len() <= btns.len()
            &&& hits[k].action == btns[k].action
            &&& hits[k].rect.y == y && hits[k].rect.height == 1
        }),
{
    lemma_chips(btns, btns.len(), (box_w - 4) as nat, x0 as nat + left + 3, y, t);
}

/// How many lines of a kind the first `n` lines have.
pub open spec fn lines_of_kind(lines: Seq<DiffLineV>, kind: LineKind, n: nat) -> nat
    decreases n,
{
    if n == 0 {
        0
    } else {
        lines_of_kind(lines, kind, (n - 1) as nat) + if lines[n - 1].kind == kind {
            1nat
        } else {
            0
        }
    }
}

/// How many lines of a kind the first `n` hunks have.
pub open spec fn lines_in_hunks(hunks: Seq<HunkV>, kind: LineKind, n: nat) -> nat
    decreases n,
{
    if n == 0 {
        0
    } else {
        lines_in_hunks(hunks, kind, (n - 1) as nat) + lines_of_kind(
            hunks[n - 1].lines,
            kind,
            hunks[n - 1].lines.len(),
        )
    }
}

proof fn lemma_kind_count(lines: Seq<DiffLineV>, kind: LineKind, n: nat)
    ensures
        start::kind_count(lines, kind, n) == lines_of_kind(lines, kind, n),
    decreases n,
{
    if n > 0 {
        lemma_kind_count(lines, kind, (n - 1) as nat);
    }
}

proof fn lemma_hunk_count(hunks: Seq<HunkV>, kind: LineKind, n: nat)
    requires
        lines_in_hunks(hunks, kind, n) <= usize::MAX,
    ensures
        start::hunk_count(hunks, kind, n) == lines_in_hunks(hunks, kind, n),
    decreases n,
{
    if n > 0 {
        let l = hunks[n - 1].lines;
        lemma_kind_count(l, kind, l.len());
        lemma_hunk_count(hunks, kind, (n - 1) as nat);
    }
}

/// The counts of a file are those of its additions and its deletions.
pub proof fn law_stats_count_the_lines(f: DiffFileV)
    requires
        lines_in_hunks(f.hunks, LineKind::Addition, f.hunks.len()) <= usize::MAX,
        lines_in_hunks(f.hunks, LineKind::Deletion, f.hunks.len()) <= usize::MAX,
    ensures
        start::stats(f).0 == lines_in_hunks(f.hunks, LineKind::Addition, f.hunks.len()),
        start::stats(f).1 == lines_in_hunks(f.hunks, LineKind::Deletion, f.hunks.len()),
{
    lemma_hunk_count(f.hunks, LineKind::Addition, f.hunks.len());
    lemma_hunk_count(f.hunks, LineKind::Deletion, f.hunks.len());
}

/// Whether a thread is on the file shown under `path`.
pub open spec fn is_on(t: ThreadV, path: Seq<char>) -> bool {
    paths::same(t.file, path)
}

/// Whether one of the first `n` threads is on the file, and open where `open` asks for that.
pub open spec fn some_on(t: Seq<ThreadV>, path: Seq<char>, n: nat, open: bool) -> bool {
    exists|k: int| 0 <= k < n && is_on(#[trigger] t[k], path) && (open ==> !t[k].resolved)
}

proof fn lemma_markers(t: Seq<ThreadV>, path: Seq<char>, n: nat)
    ensures
        sidebar::markers_among(t, path, n).0 == some_on(t, path, n, false),
        sidebar::markers_among(t, path, n).1 == some_on(t, path, n, true),
    decreases n,
{
    if n > 0 {
        let p = (n - 1) as nat;
        lemma_markers(t, path, p);
        if some_on(t, path, p, false) {
            let k = choose|k: int| 0 <= k < p && is_on(#[trigger] t[k], path);
            assert(is_on(t[k], path));
            assert(some_on(t, path, n, false));
        }
        if some_on(t, path, p, true) {
            let k = choose|k: int| 0 <= k < p && is_on(#[trigger] t[k], path) && !t[k].resolved;
            assert(is_on(t[k], path));
            assert(some_on(t, path, n, true));
        }
        if is_on(t[n - 1], path) {
            assert(some_on(t, path, n, false));
        }
    }
}

/// The letter of a file: A where it has no old side, D where it has no new one, R where its
/// paths differ, and else M.
pub open spec fn change_letter(f: DiffFileV) -> char {
    let no_old = f.old_path.len() == 0 || f.old_path == "/dev/null"@;
    let no_new = f.new_path.len() == 0 || f.new_path == "/dev/null"@;
    if no_old {
        'A'
    } else if no_new {
        'D'
    } else if f.old_path != f.new_path {
        'R'
    } else {
        'M'
    }
}

/// A file in the list: indented by its depth, with its letter, a full dot where a thread on it
/// is open, a hollow one where all are resolved, its name without its directory, and behind it
/// how many lines it adds and deletes.
pub proof fn law_list_says_of_files(a: AppV, idx: nat, fi: nat, depth: nat, w: nat)
    requires
        a.sidebar_rows[idx as int] == (SbRowV::File { idx: fi, depth }),
        fi < a.files.len(),
        fi < a.file_stats.len(),
        2 * (depth + 1) <= usize::MAX,
        ({
            let name = sidebar::base_part(a.files[fi as int].display_path());
            let counts = seq![' ', '+'] + strs::dec(a.file_stats[fi as int].0 as nat) + seq![
                ' ',
                '-',
            ] + strs::dec(a.file_stats[fi as int].1 as nat);
            2 * (depth + 1) + 4 + text::cells(name) + counts.len() <= w
        }),
    ensures
        ({
            let f = a.files[fi as int];
            let name = sidebar::base_part(f.display_path());
            let counts = seq![' ', '+'] + strs::dec(a.file_stats[fi as int].0 as nat) + seq![
                ' ',
                '-',
            ] + strs::dec(a.file_stats[fi as int].1 as nat);
            let dot = if some_on(a.threads, f.display_path(), a.threads.len(), true) {
                '●'
            } else if some_on(a.threads, f.display_path(), a.threads.len(), false) {
                '○'
            } else {
                ' '
            };
            column_laws::spelled(render::tree_line(a, idx, w)) == blanks(2 * (depth as int + 1))
                + seq![change_letter(f), ' ', dot, ' '] + name + blanks(
                w - 2 * (depth as int + 1) - 4 - text::cells(name) - counts.len(),
            ) + counts
        }),
{
    let f = a.files[fi as int];
    let path = f.display_path();
    let name = sidebar::base_part(path);
    lemma_markers(a.threads, path, a.threads.len());
    reveal_strlit("● ");
    reveal_strlit("○ ");
    reveal_strlit("  ");
    let line = render::tree_line(a, idx, w);
    let ind = blanks(2 * (depth as int + 1));
    assert(render::indent(depth) == ind);
    let plus = render::counted('+', a.file_stats[fi as int].0 as nat);
    let minus = render::counted('-', a.file_stats[fi as int].1 as nat);
    let counts = seq![' ', '+'] + strs::dec(a.file_stats[fi as int].0 as nat) + seq![' ', '-']
        + strs::dec(a.file_stats[fi as int].1 as nat);
    assert(plus + minus == counts);
    let avail = w - ind.len() - 4 - plus.len() - minus.len();
    let label = render::file_label(path, w, ind.len() + 4, plus.len() + minus.len());
    let rest = blanks(avail - text::cells(name));
    assert(text::spaces((avail - text::cells(name)) as nat) == rest);
    assert(label == name + rest);
    let s0 = seq![line[0]];
    let s1 = s0.push(line[1]);
    let s2 = s1.push(line[2]);
    let s3 = s2.push(line[3]);
    let s4 = s3.push(line[4]);
    column_laws::lemma_spelled_one(line[0]);
    column_laws::lemma_spelled_push(s0, line[1]);
    column_laws::lemma_spelled_push(s1, line[2]);
    column_laws::lemma_spelled_push(s2, line[3]);
    column_laws::lemma_spelled_push(s3, line[4]);
    column_laws::lemma_spelled_push(s4, line[5]);
    assert(line == s4.push(line[5]));
    let dot = render::dot_of(a, path).0;
    let letter = render::letter_of(a, fi).0;
    assert(dot == seq![dot[0], ' ']);
    assert(ind + seq![letter, ' '] + dot + (name + rest) + plus + minus == ind + seq![
        letter,
        ' ',
        dot[0],
        ' ',
    ] + name + rest + counts);
}

/// A directory in the list: indented by its depth, with a mark that tells whether it is open,
/// and its name.
pub proof fn law_list_says_of_directories(
    a: AppV,
    idx: nat,
    path: Seq<char>,
    name: Seq<char>,
    depth: nat,
    w: nat,
)
    requires
        a.sidebar_rows[idx as int] == (SbRowV::Dir { path, name, depth }),
        2 * (depth + 1) <= usize::MAX,
        2 * (depth + 1) + 2 + text::cells(name) <= w,
    ensures
        ({
            let mark = if a.collapsed.contains(path) {
                '▶'
            } else {
                '▼'
            };
            column_laws::spelled(render::tree_line(a, idx, w)) == blanks(2 * (depth as int + 1))
                + seq![mark, ' '] + name + blanks(
                w - 2 * (depth as int + 1) - 2 - text::cells(name),
            )
        }),
{
    reveal_strlit("▶ ");
    reveal_strlit("▼ ");
    let line = render::tree_line(a, idx, w);
    let ind = blanks(2 * (depth as int + 1));
    assert(render::indent(depth) == ind);
    let avail = w - ind.len() - 2;
    let rest = blanks(avail - text::cells(name));
    assert(text::spaces((avail - text::cells(name)) as nat) == rest);
    column_laws::lemma_spelled_one(line[0]);
    column_laws::lemma_spelled_push(seq![line[0]], line[1]);
    column_laws::lemma_spelled_push(seq![line[0]].push(line[1]), line[2]);
    assert(line == seq![line[0]].push(line[1]).push(line[2]));
    let m = line[1].text;
    assert(m == seq![m[0], ' ']);
    assert(ind + m + (name + rest) == ind + seq![m[0], ' '] + name + rest);
}

/// The list shows its rows one under the other from where it is scrolled to, and no further
/// down than its last row.
pub proof fn law_list_shows_its_rows(a: AppV, area: Rect, i: int)
    requires
        a.sidebar_scroll + area.height <= a.sidebar_rows.len(),
        0 <= i < area.height,
    ensures
        ({
            let p = render::tree_pane(a, area);
            let bar: int = if a.sidebar_rows.len() > area.height {
                1
            } else {
                0
            };
            &&& p.lines.len() == area.height
            &&& p.lines[i] == render::tree_line(
                a,
                (a.sidebar_scroll + i) as nat,
                (if area.width >= bar {
                    area.width - bar
                } else {
                    0
                }) as nat,
            )
        }),
{
}

/// The footer says the status at the left and the keys at the right, where there is room for
/// both; else the status, where there is one.
pub proof fn law_footer_says_the_status(a: AppV, width: nat)
    ensures
        ({
            let s = column_laws::spelled(render::footer_line(a, width));
            let keys = render::legend(a);
            let used = text::cells(a.status) + text::cells(keys);
            &&& used + 2 <= width ==> s == a.status + blanks(width - used) + keys
            &&& used + 2 > width && text::cells(a.status) > 0 ==> s == a.status
            &&& used + 2 > width && text::cells(a.status) == 0 ==> s == keys
        }),
{
    let line = render::footer_line(a, width);
    let used = text::cells(a.status) + text::cells(render::legend(a));
    if used + 2 <= width {
        column_laws::lemma_spelled_one(line[0]);
        column_laws::lemma_spelled_push(seq![line[0]], line[1]);
        column_laws::lemma_spelled_push(seq![line[0]].push(line[1]), line[2]);
        assert(line == seq![line[0]].push(line[1]).push(line[2]));
        assert(text::spaces((width - used) as nat) == blanks(width - used));
    } else {
        column_laws::lemma_spelled_one(line[0]);
        assert(line == seq![line[0]]);
    }
}

/// Messages are wrapped so that their box has room for them, with and without a scrollbar: a
/// line that is no wider than messages are wrapped to is not cut in the box.
pub proof fn law_messages_fit_their_box(a: AppV, inner: nat, w: nat, b: Seq<char>)
    requires
        inner - 1 <= w <= inner,
        text::cell(' ') == 1,
        text::cells(wrap::divider()) == 3,
        a.body_width(inner) > 0,
        text::cells(b) <= a.body_width(inner),
    ensures
        match a.view {
            ViewMode::Unified => text::cells(seq![' '] + b) <= w - 4,
            ViewMode::Split => text::cells(seq![' '] + b) <= wrap::side_width(w) - 4,
        },
{
    text::lemma_cells_add(seq![' '], b);
    assert(seq![' '].drop_last() == Seq::<char>::empty());
    assert(text::cells(seq![' ']) == text::cells(Seq::<char>::empty()) + text::cell(' '));
}

/// Side by side, the two columns and the divider between them share the width: the columns are
/// equally wide, and no more than one cell is left over.
pub proof fn law_columns_share_the_width(width: nat)
    requires
        text::cells(wrap::divider()) == 3,
        width >= 3,
    ensures
        width - 1 <= 2 * wrap::side_width(width) + 3 <= width,
{
}

/// Headers say what they are for: that of a file its path behind a mark, that of a hunk its
/// ranges; and a line of a box is drawn as one.
pub proof fn law_headers_are_drawn(
    a: AppV,
    h: SourceV,
    row: RowV,
    split_row: SplitRowV,
    selected: bool,
    width: nat,
)
    ensures
        ({
            let lines = render_lines::row_lines(a, h, row, selected, width);
            match row.kind {
                RowKindV::FileHeader => lines.len() == 1 && column_laws::spelled(lines[0]) == seq![
                    '▌',
                    ' ',
                ] + row.text + blanks(
                    if width > text::cells(seq!['▌', ' '] + row.text) {
                        width - text::cells(seq!['▌', ' '] + row.text)
                    } else {
                        0
                    },
                ),
                RowKindV::HunkHeader => lines.len() == 1 && column_laws::spelled(lines[0])
                    == row.text,
                RowKindV::Comment(cl) => lines == seq![
                    render_boxes::comment_line(a.theme, cl, selected, width),
                ],
                RowKindV::Composer(k) => lines == seq![
                    render_boxes::composer_line(a.theme, k, width),
                ],
                _ => true,
            }
        }),
        ({
            let lines = render_lines::split_lines(a, h, split_row, selected, width);
            match split_row.kind {
                SplitKindV::FileHeader => lines.len() == 1 && column_laws::spelled(lines[0])
                    == seq!['▌', ' '] + split_row.text,
                SplitKindV::HunkHeader => lines.len() == 1 && column_laws::spelled(lines[0])
                    == split_row.text,
                _ => true,
            }
        }),
{
    reveal_strlit("▌ ");
    assert("▌ "@ == seq!['▌', ' ']);
    let line = render_lines::row_line(a, h, row, selected, width);
    match row.kind {
        RowKindV::FileHeader => {
            let t = seq!['▌', ' '] + row.text;
            column_laws::lemma_spelled_one(line[0]);
            column_laws::lemma_spelled_push(seq![line[0]], line[1]);
            assert(line == seq![line[0]].push(line[1]));
            let n = wrap::monus(width as int, text::cells(t) as int);
            assert(text::spaces(n) == blanks(n as int));
        },
        RowKindV::HunkHeader => {
            column_laws::lemma_spelled_one(line[0]);
            assert(line == seq![line[0]]);
        },
        _ => {},
    }
    let other = render_lines::split_line(a, h, split_row, selected, width);
    match split_row.kind {
        SplitKindV::FileHeader | SplitKindV::HunkHeader => {
            column_laws::lemma_spelled_one(other[0]);
            assert(other == seq![other[0]]);
        },
        _ => {},
    }
}

/// The button on a line stands at its right end, and can be clicked where it stands.
pub proof fn law_the_button_stands_at_the_right(
    t: Theme,
    spans: Seq<SpanV>,
    width: nat,
    label: Seq<char>,
    color: Color,
    action: ButtonV,
    x0: u16,
    y: u16,
)
    requires
        text::cells(seq![' '] + label + seq![' ']) < width,
        x0 + width <= 65535,
    ensures
        ({
            let chip = seq![' '] + label + seq![' '];
            let (line, hits) = render_boxes::right_button(
                t,
                spans,
                width,
                label,
                color,
                action,
                x0,
                y,
            );
            &&& line.last().text == chip
            &&& hits.len() == 1 && hits[0].action == action
            &&& hits[0].rect.x + text::cells(chip) == x0 + width
            &&& hits[0].rect.width == text::cells(chip)
            &&& hits[0].rect.y == y && hits[0].rect.height == 1
        }),
{
}

proof fn lemma_tail(s: Seq<char>, max: nat, n: nat)
    requires
        n <= s.len(),
        text::cells(s.skip(s.len() - n)) <= max,
    ensures
        ({
            let k = paint::tail_from(s, max, n);
            &&& n <= k <= s.len()
            &&& text::cells(s.skip(s.len() - k)) <= max
            &&& k < s.len() ==> text::cells(s.skip(s.len() - k - 1)) > max
        }),
    decreases s.len() - n,
{
    if n < s.len() && text::cells(s.skip(s.len() - n - 1)) <= max {
        lemma_tail(s, max, n + 1);
    }
}

/// A name that is too wide keeps its end, as much of it as there is room for behind a mark.
pub proof fn law_long_names_keep_their_end(s: Seq<char>, w: nat)
    ensures
        text::cells(s) <= w ==> paint::elided(s, w) == s,
        text::cells(s) > w && w > 1 ==> exists|k: int|
            {
                &&& 0 < k <= s.len()
                &&& paint::elided(s, w) == seq!['…'] + #[trigger] s.skip(k)
                &&& text::cells(s.skip(k)) <= w - 1
                &&& text::cells(s.skip(k - 1)) > w - 1
            },
{
    if text::cells(s) > w && w > 1 {
        let max = (w - 1) as nat;
        assert(s.skip(s.len() as int) == Seq::<char>::empty());
        lemma_tail(s, max, 0);
        let n = paint::tail_from(s, max, 0);
        let k = s.len() - n;
        assert(s.skip(0) == s);
        assert(paint::elided(s, w) == seq!['…'] + s.skip(k));
    }
}

/// A pane has a scrollbar where it holds more than it shows, and only there.
pub proof fn law_bars_show_what_overflows(a: AppV, area: Rect, inner: Rect)
    ensures
        render::tree_pane(a, area).bar is Some <==> a.sidebar_rows.len() > area.height,
        render::diff_bar(a, inner) is Some <==> a.display_lines(a.file_span.0, a.file_span.1)
            > a.height,
        render::diff_bar(a, inner) matches Some(b) ==> b.position <= b.length,
{
}

/// A button as it is drawn: its label between two spaces.
pub open spec fn chip(label: Seq<char>) -> Seq<char> {
    seq![' '] + label + seq![' ']
}

/// Whether every label takes a cell for each of its characters.
pub open spec fn plain_labels(btns: Seq<BtnV>) -> bool {
    forall|k: int|
        0 <= k < btns.len() ==> text::cells(chip((#[trigger] btns[k]).label)) == chip(
            btns[k].label,
        ).len()
}

/// Whether a button stands in a text where it can be clicked, with column `x` at the start.
pub open spec fn clickable_at(s: Seq<char>, b: BtnV, h: HitV, x: int) -> bool {
    let p = h.rect.x - x;
    let w = chip(b.label).len();
    &&& 0 <= p && p + w <= s.len() && s.subrange(p, p + w) == chip(b.label)
    &&& h.rect.width == w
}

proof fn lemma_chips_place(btns: Seq<BtnV>, n: nat, room: nat, x: nat, y: u16, t: Theme)
    requires
        n <= btns.len(),
        plain_labels(btns),
        x + room <= 65535,
    ensures
        ({
            let c = render_boxes::chips(btns, n, room, x, y, t);
            let s = column_laws::spelled(c.spans);
            &&& s.len() == c.col <= room || (n == 0 && c.col == 0 && s.len() == 0)
            &&& c.hits.len() <= n
            &&& forall|k: int|
                0 <= k < c.hits.len() ==> clickable_at(s, btns[k], #[trigger] c.hits[k], x as int)
        }),
    decreases n,
{
    if n > 0 {
        lemma_chips_place(btns, (n - 1) as nat, room, x, y, t);
        lemma_chips(btns, (n - 1) as nat, room, x, y, t);
        let p = render_boxes::chips(btns, (n - 1) as nat, room, x, y, t);
        let c = render_boxes::chips(btns, n, room, x, y, t);
        let b = btns[n - 1];
        let own = chip(b.label);
        assert(render_boxes::chip_text(b.label) == own);
        let s0 = column_laws::spelled(p.spans);
        let s = column_laws::spelled(c.spans);
        if !c.full {
            let gap: nat = if n > 1 {
                1
            } else {
                0
            };
            let mid = if n > 1 {
                p.spans.push(paint::gap(1))
            } else {
                p.spans
            };
            column_laws::lemma_spelled_push(p.spans, paint::gap(1));
            column_laws::lemma_spelled_push(mid, c.spans.last());
            assert(c.spans == mid.push(c.spans.last()));
            let lead = s0 + text::spaces(gap);
            assert(s == lead + own) by {
                if n <= 1 {
                    assert(text::spaces(0) == Seq::<char>::empty());
                    assert(s0 + text::spaces(0) == s0);
                }
            }
            assert forall|k: int| 0 <= k < c.hits.len() implies clickable_at(
                s,
                btns[k],
                #[trigger] c.hits[k],
                x as int,
            ) by {
                if k < p.hits.len() {
                    assert(c.hits[k] == p.hits[k]);
                    let h = p.hits[k];
                    assert(clickable_at(s0, btns[k], h, x as int));
                    let q = h.rect.x - x;
                    let w = chip(btns[k].label).len();
                    assert(s.subrange(q, q + w) == s0.subrange(q, q + w));
                } else {
                    assert(s.subrange(lead.len() as int, lead.len() as int + own.len()) == own);
                }
            }
        }
    }
}

/// A button of a box can be clicked where its label stands: the columns of its rectangle are
/// those that the label is drawn in.
pub proof fn law_buttons_can_be_clicked_where_they_stand(
    t: Theme,
    btns: Seq<BtnV>,
    border: Color,
    x0: u16,
    y: u16,
    width: nat,
    left: nat,
    box_w: nat,
    k: int,
)
    requires
        plain_labels(btns),
        x0 + left + box_w <= 65535,
        0 <= k < render_boxes::action_row(t, btns, border, x0, y, width, left, box_w).1.len(),
    ensures
        ({
            let (line, hits) = render_boxes::action_row(
                t,
                btns,
                border,
                x0,
                y,
                width,
                left,
                box_w,
            );
            clickable_at(column_laws::spelled(line), btns[k], hits[k], x0 as int)
        }),
{
    let room = (box_w - 4) as nat;
    let x = x0 as nat + left + 3;
    let c = render_boxes::chips(btns, btns.len(), room, x, y, t);
    lemma_chips_place(btns, btns.len(), room, x, y, t);
    let (line, hits) = render_boxes::action_row(t, btns, border, x0, y, width, left, box_w);
    let s = column_laws::spelled(c.spans);
    let rest = (room - c.col) as nat;
    let inner = render_boxes::with_gap(c.spans, rest);
    lemma_with_gap(c.spans, rest);
    lemma_framed(border, inner);
    let front = render_boxes::with_gap(Seq::empty(), left);
    lemma_with_gap(Seq::empty(), left);
    assert(column_laws::spelled(Seq::<SpanV>::empty()) == Seq::<char>::empty());
    let boxed_line = render_boxes::framed(border, inner);
    column_laws::lemma_spelled_add(front, boxed_line);
    let tail = wrap::monus(width as int, (left + box_w) as int);
    lemma_with_gap(front + boxed_line, tail);
    let all = column_laws::spelled(line);
    let lead = Seq::<char>::empty() + text::spaces(left) + seq![' ', ' ', '│'];
    let behind = text::spaces(rest) + seq!['│'] + text::spaces(tail);
    assert(all == lead + s + behind);
    let h = hits[k];
    assert(clickable_at(s, btns[k], h, x as int));
    let q = h.rect.x - x;
    let w = chip(btns[k].label).len();
    assert(lead.len() == left + 3);
    assert(all.subrange(q + left + 3, q + left + 3 + w) == s.subrange(q, q + w));
}

proof fn lemma_with_gap(spans: Seq<SpanV>, n: nat)
    ensures
        column_laws::spelled(render_boxes::with_gap(spans, n)) == column_laws::spelled(spans)
            + text::spaces(n),
{
    if n > 0 {
        column_laws::lemma_spelled_push(spans, paint::gap(n));
    } else {
        assert(text::spaces(0) == Seq::<char>::empty());
        assert(column_laws::spelled(spans) + text::spaces(0) == column_laws::spelled(spans));
    }
}

/// Whether a button is one of a box of the diff: of a thread's box for that thread, of the
/// composer to submit or to cancel.
pub open spec fn button_of(a: AppV, i: nat, b: ButtonV) -> bool {
    match a.view {
        ViewMode::Unified => match a.rows[i as int].kind {
            RowKindV::Comment(cl) => cl.kind is Actions && button_thread(b) == Some(cl.thread_id),
            RowKindV::Composer(k) => k is Hint && (b is Submit || b is Cancel),
            RowKindV::Line { .. } => with_button(a, i) && b is AddComment,
            _ => false,
        },
        ViewMode::Split => match a.split_rows[i as int].kind {
            SplitKindV::Comment { line, .. } => line.kind is Actions && button_thread(b) == Some(
                line.thread_id,
            ),
            SplitKindV::Composer { line, .. } => line is Hint && (b is Submit || b is Cancel),
            SplitKindV::Pair { .. } => with_button(a, i) && b is AddComment,
            _ => false,
        },
    }
}

/// The buttons of a row are those that belong there, and stand on its first line.
pub proof fn law_rows_have_their_own_buttons(
    a: AppV,
    h: SourceV,
    area: Rect,
    i: nat,
    y: u16,
    k: int,
)
    requires
        i < a.active_len(),
        0 <= k < render::row_block(a, h, area, i, y).1.len(),
    ensures
        ({
            let hit = render::row_block(a, h, area, i, y).1[k];
            button_of(a, i, hit.action) && hit.rect.y == y && hit.rect.height == 1
        }),
{
    reveal(render::row_block);
    let w = area.width as nat;
    let t = a.theme;
    let own = render_boxes::own_buttons(t);
    match a.view {
        ViewMode::Unified => match a.rows[i as int].kind {
            RowKindV::Comment(cl) => {
                let bs = render_boxes::thread_buttons(a, cl);
                lemma_chips(bs, bs.len(), (w - 4) as nat, area.x as nat + 3, y, t);
                law_buttons_act_on_their_thread(a, cl, k);
            },
            RowKindV::Composer(_) => {
                lemma_chips(own, own.len(), (w - 4) as nat, area.x as nat + 3, y, t);
            },
            _ => {},
        },
        ViewMode::Split => match a.split_rows[i as int].kind {
            SplitKindV::Comment { side, line } => {
                let bs = render_boxes::thread_buttons(a, line);
                let sw = wrap::side_width(w);
                let left = render::column_start(side, sw);
                lemma_chips(bs, bs.len(), (sw - 4) as nat, area.x as nat + left + 3, y, t);
                law_buttons_act_on_their_thread(a, line, k);
            },
            SplitKindV::Composer { side, .. } => {
                let sw = wrap::side_width(w);
                let left = render::column_start(side, sw);
                lemma_chips(own, own.len(), (sw - 4) as nat, area.x as nat + left + 3, y, t);
            },
            _ => {},
        },
    }
}

/// The buttons of the composer: the first submits and the second cancels, and each names its
/// key.
pub proof fn law_the_composer_has_its_buttons(t: Theme)
    ensures
        ({
            let bs = render_boxes::own_buttons(t);
            &&& bs.len() == 2
            &&& bs[0].action is Submit && bs[0].label == "submit(ctrl+s)"@
            &&& bs[1].action is Cancel && bs[1].label == "cancel(esc)"@
        }),
{
}

} // verus!
