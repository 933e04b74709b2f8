//! The lines of boxes fill their rows.
use crate::ui::app::paint;
use crate::ui::app::render_boxes;
use crate::ui::app::render_boxes::BtnV;
use crate::ui::app::wrap;
use crate::ui::render_rows::text;
use crate::ui::render_rows::threads::{CommentKindV, CommentLineV, ComposerKindV};
use crate::ui::style;
use crate::ui::style::{Color, SpanV};
use crate::ui::theme::Theme;
use vstd::prelude::*;

verus! {

proof fn lemma_repeated(c: char, n: nat)
    requires
        text::cell(c) == 1,
    ensures
        text::cells(paint::repeated(c, n)) == n,
    decreases n,
{
    if n > 0 {
        let m = (n - 1) as nat;
        lemma_repeated(c, m);
        assert(paint::repeated(c, n) == paint::repeated(c, m).push(c));
        text::lemma_cells_push(paint::repeated(c, m), c);
    }
}

proof fn lemma_char(c: char)
    ensures
        text::cells(seq![c]) == text::cell(c),
{
    assert(seq![c] == Seq::<char>::empty().push(c));
    text::lemma_cells_push(Seq::empty(), c);
}

proof fn lemma_span(s: SpanV)
    ensures
        wrap::span_cells(seq![s]) == text::cells(s.text),
{
    assert(seq![s] == Seq::<SpanV>::empty().push(s));
    wrap::lemma_span_cells_push(Seq::empty(), s);
}

proof fn lemma_gap(n: nat)
    requires
        render_boxes::narrow_glyphs(),
    ensures
        wrap::span_cells(seq![paint::gap(n)]) == n,
{
    paint::lemma_cells_spaces(n);
    lemma_span(paint::gap(n));
}

proof fn lemma_with_gap(s: Seq<SpanV>, n: nat)
    requires
        render_boxes::narrow_glyphs(),
    ensures
        wrap::span_cells(render_boxes::with_gap(s, n)) == wrap::span_cells(s) + n,
{
    paint::lemma_cells_spaces(n);
    wrap::lemma_span_cells_push(s, paint::gap(n));
}

/// A text in `w` cells takes them all.
pub proof fn law_fitted_fills(s: Seq<char>, w: nat)
    requires
        text::cell(' ') == 1,
    ensures
        text::cells(paint::fitted(s, w)) == w,
{
    let f = text::fit(s, w);
    text::law_fit_is_longest(s, w);
    let n = wrap::monus(w as int, text::cells(f) as int);
    paint::lemma_cells_spaces(n);
    text::lemma_cells_add(f, text::spaces(n));
}

proof fn lemma_rule(l: char, n: nat, r: char)
    requires
        render_boxes::narrow_glyphs(),
        text::cell(l) == 1,
        text::cell(r) == 1,
    ensures
        text::cells(render_boxes::rule(l, n, r)) == n + 2,
{
    let mid = paint::repeated('─', n);
    lemma_repeated('─', n);
    lemma_char(l);
    lemma_char(r);
    text::lemma_cells_add(seq![l], mid);
    text::lemma_cells_add(seq![l] + mid, seq![r]);
}

proof fn lemma_framed(border: Color, inner: Seq<SpanV>)
    requires
        render_boxes::narrow_glyphs(),
    ensures
        wrap::span_cells(render_boxes::framed(border, inner)) == wrap::span_cells(inner) + 4,
{
    let e = render_boxes::edge(border);
    reveal_strlit("│");
    assert("│"@ == seq!['│']);
    lemma_char('│');
    lemma_span(e);
    lemma_gap(2);
    let head = seq![paint::gap(2), e];
    assert(head == seq![paint::gap(2)] + seq![e]);
    wrap::lemma_span_cells_add(seq![paint::gap(2)], seq![e]);
    wrap::lemma_span_cells_add(head, inner);
    wrap::lemma_span_cells_add(head + inner, seq![e]);
}

proof fn lemma_ruled(s: SpanV, n: nat)
    requires
        render_boxes::narrow_glyphs(),
        text::cells(s.text) == n + 2,
    ensures
        wrap::span_cells(seq![paint::gap(2), s]) == n + 4,
{
    lemma_gap(2);
    lemma_span(s);
    assert(seq![paint::gap(2), s] == seq![paint::gap(2)] + seq![s]);
    wrap::lemma_span_cells_add(seq![paint::gap(2)], seq![s]);
}

proof fn lemma_author(
    t: Theme,
    resolved: bool,
    name: Seq<char>,
    date: Seq<char>,
    inner_w: nat,
)
    requires
        render_boxes::narrow_glyphs(),
    ensures
        wrap::span_cells(render_boxes::author_line(t, resolved, name, date, inner_w)) == inner_w,
{
    let left = " @"@ + name;
    let llen = text::cells(left);
    let dlen = text::cells(date);
    let line = render_boxes::author_line(t, resolved, name, date, inner_w);
    lemma_span(line[0]);
    if llen + dlen + 2 <= inner_w {
        let g = (inner_w - llen - dlen - 1) as nat;
        lemma_gap(g);
        lemma_gap(1);
        lemma_span(line[2]);
        assert(line == seq![line[0]] + seq![paint::gap(g)] + seq![line[2]] + seq![paint::gap(1)]);
        wrap::lemma_span_cells_add(seq![line[0]], seq![paint::gap(g)]);
        wrap::lemma_span_cells_add(seq![line[0]] + seq![paint::gap(g)], seq![line[2]]);
        wrap::lemma_span_cells_add(
            seq![line[0]] + seq![paint::gap(g)] + seq![line[2]],
            seq![paint::gap(1)],
        );
    } else {
        let l = text::fit(left, inner_w);
        text::law_fit_is_longest(left, inner_w);
        let g = (inner_w - text::cells(l)) as nat;
        lemma_gap(g);
        assert(line == seq![line[0]] + seq![paint::gap(g)]);
        wrap::lemma_span_cells_add(seq![line[0]], seq![paint::gap(g)]);
    }
}

/// A line of a thread box takes all the cells of its row, whatever it says and however its text
/// is cut.
pub proof fn law_comment_line_fills_width(
    t: Theme,
    cl: CommentLineV,
    focused: bool,
    width: nat,
)
    requires
        render_boxes::narrow_glyphs(),
    ensures
        wrap::span_cells(render_boxes::comment_line(t, cl, focused, width)) == width,
{
    let line = render_boxes::comment_line(t, cl, focused, width);
    if width <= 4 {
        lemma_gap(width);
    } else {
        let inner_w = (width - 4) as nat;
        let border = render_boxes::box_border(t, cl, focused);
        match cl.kind {
            CommentKindV::Top => {
                lemma_rule('╭', inner_w, '╮');
                lemma_ruled(line[1], inner_w);
            },
            CommentKindV::Bottom => {
                lemma_rule('╰', inner_w, '╯');
                lemma_ruled(line[1], inner_w);
            },
            CommentKindV::Actions => {
                lemma_gap(inner_w);
                lemma_framed(border, seq![paint::gap(inner_w)]);
            },
            CommentKindV::Author { name, date } => {
                lemma_author(t, cl.resolved, name, date, inner_w);
                lemma_framed(
                    border,
                    render_boxes::author_line(t, cl.resolved, name, date, inner_w),
                );
            },
            CommentKindV::Head { replies } => {
                law_fitted_fills(render_boxes::head_text(cl.resolved, replies), inner_w);
                lemma_span(line[2]);
                lemma_framed(border, seq![line[2]]);
            },
            CommentKindV::Body(b) => {
                law_fitted_fills(seq![' '] + b, inner_w);
                lemma_span(line[2]);
                lemma_framed(border, seq![line[2]]);
            },
            CommentKindV::Gap => {
                law_fitted_fills(Seq::empty(), inner_w);
                lemma_span(line[2]);
                lemma_framed(border, seq![line[2]]);
            },
        }
    }
}

proof fn lemma_body(t: Theme, b: Seq<char>, inner_w: nat)
    requires
        render_boxes::narrow_glyphs(),
        inner_w >= 1,
    ensures
        wrap::span_cells(render_boxes::body_line(t, b, inner_w)) == inner_w,
{
    let line = render_boxes::body_line(t, b, inner_w);
    let i = render_boxes::find_char(b, crate::ui::app::state::COMPOSER_CARET, 0);
    lemma_span(line[0]);
    if i < b.len() {
        let under = if i + 1 < b.len() {
            seq![b[i as int + 1]]
        } else {
            seq![' ']
        };
        let cell = if text::cells(under) > inner_w {
            seq![' ']
        } else {
            under
        };
        let rest = if i + 1 < b.len() {
            b.skip(i as int + 2)
        } else {
            Seq::empty()
        };
        lemma_char(' ');
        let cw = text::cells(cell);
        let whole = seq![' '] + b.take(i as int);
        let lead = text::fit(whole, (inner_w - cw) as nat);
        text::law_fit_is_longest(whole, (inner_w - cw) as nat);
        let lw = text::cells(lead);
        let tail = text::fit(rest, (inner_w - lw - cw) as nat);
        text::law_fit_is_longest(rest, (inner_w - lw - cw) as nat);
        let pad = (inner_w - lw - cw - text::cells(tail)) as nat;
        paint::lemma_cells_spaces(pad);
        text::lemma_cells_add(tail, text::spaces(pad));
        lemma_span(line[1]);
        lemma_span(line[2]);
        assert(line == seq![line[0]] + seq![line[1]] + seq![line[2]]);
        wrap::lemma_span_cells_add(seq![line[0]], seq![line[1]]);
        wrap::lemma_span_cells_add(seq![line[0]] + seq![line[1]], seq![line[2]]);
    } else {
        law_fitted_fills(seq![' '] + b, inner_w);
        assert(line == seq![line[0]]);
    }
}

/// A line of the composer takes all the cells of its row.
pub proof fn law_composer_line_fills_width(t: Theme, kind: ComposerKindV, width: nat)
    requires
        render_boxes::narrow_glyphs(),
    ensures
        wrap::span_cells(render_boxes::composer_line(t, kind, width)) == width,
{
    let line = render_boxes::composer_line(t, kind, width);
    if width <= 4 {
        lemma_gap(width);
    } else {
        let inner_w = (width - 4) as nat;
        match kind {
            ComposerKindV::Top { title } => {
                let s = text::fit(title, inner_w);
                text::law_fit_is_longest(title, inner_w);
                let n = wrap::monus(inner_w as int, text::cells(s) as int);
                lemma_repeated('─', n);
                reveal_strlit("╭");
                reveal_strlit("╮");
                assert("╭"@ == seq!['╭']);
                assert("╮"@ == seq!['╮']);
                lemma_char('╭');
                lemma_char('╮');
                lemma_gap(2);
                lemma_span(line[1]);
                lemma_span(line[2]);
                lemma_span(line[3]);
                lemma_span(line[4]);
                let a = seq![paint::gap(2)];
                let b = a + seq![line[1]];
                let c = b + seq![line[2]];
                let d = c + seq![line[3]];
                assert(line == d + seq![line[4]]);
                wrap::lemma_span_cells_add(a, seq![line[1]]);
                wrap::lemma_span_cells_add(b, seq![line[2]]);
                wrap::lemma_span_cells_add(c, seq![line[3]]);
                wrap::lemma_span_cells_add(d, seq![line[4]]);
            },
            ComposerKindV::Bottom => {
                lemma_rule('╰', inner_w, '╯');
                lemma_ruled(line[1], inner_w);
            },
            ComposerKindV::Body(b) => {
                lemma_body(t, b, inner_w);
                lemma_framed(t.accent, render_boxes::body_line(t, b, inner_w));
            },
            ComposerKindV::Hint => {
                law_fitted_fills(" ctrl+s: submit · enter: newline · esc: cancel"@, inner_w);
                lemma_span(line[2]);
                lemma_framed(t.accent, seq![line[2]]);
            },
        }
    }
}

proof fn lemma_chips(btns: Seq<BtnV>, n: nat, room: nat, x: nat, y: u16, t: Theme)
    requires
        render_boxes::narrow_glyphs(),
    ensures
        ({
            let c = render_boxes::chips(btns, n, room, x, y, t);
            wrap::span_cells(c.spans) == c.col && c.col <= room
        }),
    decreases n,
{
    if n > 0 {
        let p = render_boxes::chips(btns, (n - 1) as nat, room, x, y, t);
        lemma_chips(btns, (n - 1) as nat, room, x, y, t);
        let b = btns[n - 1];
        let chip = style::span(
            render_boxes::chip_text(b.label),
            render_boxes::chip_style(t, b.color),
        );
        paint::lemma_cells_spaces(1);
        wrap::lemma_span_cells_push(p.spans, paint::gap(1));
        wrap::lemma_span_cells_push(p.spans.push(paint::gap(1)), chip);
        wrap::lemma_span_cells_push(p.spans, chip);
    }
}

/// A row of buttons takes all the cells of its row, where the box lies within the row.
pub proof fn law_action_row_fills_width(
    t: Theme,
    btns: Seq<BtnV>,
    border: Color,
    x0: u16,
    y: u16,
    width: nat,
    left: nat,
    box_w: nat,
)
    requires
        render_boxes::narrow_glyphs(),
        left + box_w <= width,
    ensures
        wrap::span_cells(
            render_boxes::action_row(t, btns, border, x0, y, width, left, box_w).0,
        ) == width,
{
    if box_w <= 4 {
        lemma_gap(width);
    } else {
        let inner_w = (box_w - 4) as nat;
        let x = x0 as nat + left + 3;
        lemma_chips(btns, btns.len(), inner_w, x, y, t);
        let c = render_boxes::chips(btns, btns.len(), inner_w, x, y, t);
        let inner = render_boxes::with_gap(c.spans, (inner_w - c.col) as nat);
        lemma_with_gap(c.spans, (inner_w - c.col) as nat);
        lemma_framed(border, inner);
        let lead = render_boxes::with_gap(Seq::<SpanV>::empty(), left);
        lemma_with_gap(Seq::empty(), left);
        let boxed = render_boxes::framed(border, inner);
        wrap::lemma_span_cells_add(lead, boxed);
        lemma_with_gap(lead + boxed, wrap::monus(width as int, (left + box_w) as int));
    }
}

} // verus!
