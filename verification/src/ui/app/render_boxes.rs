//! Comment/composer box and action-button line builders.
use crate::strs;
use crate::ui::app::paint;
use crate::ui::app::paint::{fit_text, gap_of, repeat_char};
use crate::ui::app::state::{App, AppV, ButtonAction, ButtonV, Hit, HitV, COMPOSER_CARET};
use crate::ui::app::width_laws;
use crate::ui::app::wrap;
use crate::ui::app::wrap::{sat_add, sat_sub};
use crate::ui::render_rows::text;
use crate::ui::render_rows::text::{char_width, str_width, take_width};
use crate::ui::render_rows::threads::{
    has_id, CommentKind, CommentKindV, CommentLine, CommentLineV, ComposerKind, ComposerKindV,
    ComposerLine,
};
use crate::ui::style;
use crate::ui::style::{Color, Line, Rect, Span, SpanV, Style};
use crate::ui::theme::Theme;
use vstd::prelude::*;

verus! {

/// A button of an action row: its label (with the hotkey), its effect, and the color of the
/// label.
#[derive(Debug)]
pub struct Button {
    pub label: String,
    pub action: ButtonAction,
    pub color: Color,
}

/// What a [`Button`] says.
#[verifier::ext_equal]
pub struct BtnV {
    pub label: Seq<char>,
    pub action: ButtonV,
    pub color: Color,
}

impl View for Button {
    type V = BtnV;

    open spec fn view(&self) -> BtnV {
        BtnV { label: self.label@, action: self.action@, color: self.color }
    }
}

/// `n`, as far as a screen coordinate goes.
pub open spec fn coord(n: nat) -> u16 {
    if n > 65535 {
        65535
    } else {
        n as u16
    }
}

/// `n`, as far as a screen coordinate goes.
pub fn to_coord(n: usize) -> (r: u16)
    ensures
        r == coord(n as nat),
{
    if n > 65535 {
        65535
    } else {
        n as u16
    }
}

/// The buttons of a thread box: reply, resolve or unresolve, and delete where the cursor is
/// on a comment of the thread that was added in this session.
pub open spec fn thread_buttons(a: AppV, cl: CommentLineV) -> Seq<BtnV> {
    let t = a.theme;
    let reply = BtnV {
        label: "reply(r)"@,
        action: ButtonV::Reply(cl.thread_id),
        color: t.accent,
    };
    let resolve = if cl.resolved {
        BtnV {
            label: "unresolve(R)"@,
            action: ButtonV::ToggleResolve(cl.thread_id),
            color: t.warn,
        }
    } else {
        BtnV {
            label: "resolve(R)"@,
            action: ButtonV::ToggleResolve(cl.thread_id),
            color: t.added,
        }
    };
    match a.unit_at(a.selected) {
        Some((tid, cid)) => if tid == cl.thread_id && !a.base_ids.contains(cid) {
            seq![
                reply,
                resolve,
                BtnV {
                    label: "delete(D)"@,
                    action: ButtonV::Delete(cl.thread_id, cid),
                    color: t.removed,
                },
            ]
        } else {
            seq![reply, resolve]
        },
        None => seq![reply, resolve],
    }
}

/// The buttons of the composer: submit and cancel.
pub open spec fn own_buttons(t: Theme) -> Seq<BtnV> {
    seq![
        BtnV { label: "submit(ctrl+s)"@, action: ButtonV::Submit, color: t.accent },
        BtnV { label: "cancel(esc)"@, action: ButtonV::Cancel, color: t.muted },
    ]
}

/// A label with a space on either side.
pub open spec fn chip_text(label: Seq<char>) -> Seq<char> {
    seq![' '] + label + seq![' ']
}

/// The style of a chip: a raised surface with the label in the button's color.
pub open spec fn chip_style(t: Theme, color: Color) -> Style {
    Style { fg: Some(color), bg: Some(t.subtle), bold: true, ..style::plain() }
}

/// Chips packed left to right, with where they can be clicked, and the cells that they take.
#[verifier::ext_equal]
pub struct Chips {
    pub spans: Seq<SpanV>,
    pub hits: Seq<HitV>,
    pub col: nat,
    /// One did not fit: none follows.
    pub full: bool,
}

/// The chips of the first `n` buttons that fit into `room` cells, from column `x` on. A space
/// stands between two chips, so that they read as separate buttons.
pub open spec fn chips(btns: Seq<BtnV>, n: nat, room: nat, x: nat, y: u16, t: Theme) -> Chips
    decreases n,
{
    if n == 0 {
        Chips { spans: Seq::empty(), hits: Seq::empty(), col: 0, full: false }
    } else {
        let p = chips(btns, (n - 1) as nat, room, x, y, t);
        let b = btns[n - 1];
        let chip = chip_text(b.label);
        let w = text::cells(chip);
        let gap: nat = if n > 1 {
            1
        } else {
            0
        };
        if p.full || p.col + gap + w > room {
            Chips { full: true, ..p }
        } else {
            let spans = if gap > 0 {
                p.spans.push(paint::gap(1))
            } else {
                p.spans
            };
            Chips {
                spans: spans.push(style::span(chip, chip_style(t, b.color))),
                hits: p.hits.push(
                    HitV {
                        rect: Rect { x: coord(x + p.col + gap), y, width: coord(w), height: 1 },
                        action: b.action,
                    },
                ),
                col: p.col + gap + w,
                full: false,
            }
        }
    }
}

/// The side of a box.
pub open spec fn edge(border: Color) -> SpanV {
    style::span("│"@, style::colored(border))
}

/// One line of a box: a margin, and `inner` between two sides.
pub open spec fn framed(border: Color, inner: Seq<SpanV>) -> Seq<SpanV> {
    seq![paint::gap(2), edge(border)] + inner + seq![edge(border)]
}

/// `spans`, with a gap behind them where it is not empty.
pub open spec fn with_gap(spans: Seq<SpanV>, n: nat) -> Seq<SpanV> {
    if n > 0 {
        spans.push(paint::gap(n))
    } else {
        spans
    }
}

/// A row of buttons in a box of `box_w` cells that starts `left` cells into a row of `width`
/// cells, and where they can be clicked.
pub open spec fn action_row(
    t: Theme,
    btns: Seq<BtnV>,
    border: Color,
    x0: u16,
    y: u16,
    width: nat,
    left: nat,
    box_w: nat,
) -> (Seq<SpanV>, Seq<HitV>) {
    if box_w <= 4 {
        (seq![paint::gap(width)], Seq::empty())
    } else {
        let inner_w = (box_w - 4) as nat;
        let c = chips(btns, btns.len(), inner_w, x0 as nat + left + 3, y, t);
        let inner = with_gap(c.spans, (inner_w - c.col) as nat);
        (
            with_gap(
                with_gap(Seq::empty(), left) + framed(border, inner),
                wrap::monus(width as int, (left + box_w) as int),
            ),
            c.hits,
        )
    }
}

/// The first `n` spans, clipped to `keep` cells: the spans, the cells that they take, and
/// whether one was cut.
pub open spec fn clip_among(spans: Seq<SpanV>, n: nat, keep: nat) -> (Seq<SpanV>, nat, bool)
    decreases n,
{
    if n == 0 {
        (Seq::empty(), 0, false)
    } else {
        let (out, acc, cut) = clip_among(spans, (n - 1) as nat, keep);
        let s = spans[n - 1];
        if cut || acc >= keep {
            (out, acc, cut)
        } else if acc + text::cells(s.text) <= keep {
            (out.push(s), acc + text::cells(s.text), false)
        } else {
            let t = text::fit(s.text, (keep - acc) as nat);
            (out.push(style::span(t, s.style)), acc + text::cells(t), true)
        }
    }
}

/// A line with a chip at its right end, and where that can be clicked. A line with no room
/// for the chip stays as it is.
pub open spec fn right_button(
    t: Theme,
    spans: Seq<SpanV>,
    width: nat,
    label: Seq<char>,
    color: Color,
    action: ButtonV,
    x0: u16,
    y: u16,
) -> (Seq<SpanV>, Seq<HitV>) {
    let chip = chip_text(label);
    let cw = text::cells(chip);
    if width <= cw {
        (spans, Seq::empty())
    } else {
        let keep = (width - cw) as nat;
        let (out, acc, cut) = clip_among(spans, spans.len(), keep);
        (
            with_gap(out, wrap::monus(keep as int, acc as int)).push(
                style::span(chip, chip_style(t, color)),
            ),
            seq![
                HitV {
                    rect: Rect { x: coord(x0 as nat + keep), y, width: coord(cw), height: 1 },
                    action,
                },
            ],
        )
    }
}

/// The border of a thread box: bright around the message that the cursor is on, even of a
/// resolved thread.
pub open spec fn box_border(t: Theme, cl: CommentLineV, focused: bool) -> Color {
    if focused {
        t.border_focus
    } else if cl.resolved {
        t.muted
    } else {
        t.border_unfocus
    }
}

/// A horizontal border between two corners.
pub open spec fn rule(l: char, n: nat, r: char) -> Seq<char> {
    seq![l] + paint::repeated('─', n) + seq![r]
}

/// The head of a thread box.
pub open spec fn head_text(resolved: bool, replies: nat) -> Seq<char> {
    (if resolved {
        " ▾ resolved · "@
    } else {
        " ▾ open · "@
    }) + strs::dec(replies) + (if replies == 1 {
        " message"@
    } else {
        " messages"@
    })
}

/// The author line between the sides of the box: the name at the left, and the date at the
/// right where there is room for it.
pub open spec fn author_line(
    t: Theme,
    resolved: bool,
    name: Seq<char>,
    date: Seq<char>,
    inner_w: nat,
) -> Seq<SpanV> {
    let left = " @"@ + name;
    let st = Style {
        fg: Some(
            if resolved {
                t.muted
            } else {
                t.warn
            },
        ),
        bold: true,
        ..style::plain()
    };
    let llen = text::cells(left);
    let dlen = text::cells(date);
    if llen + dlen + 2 <= inner_w {
        seq![
            style::span(left, st),
            paint::gap((inner_w - llen - dlen - 1) as nat),
            style::span(date, style::colored(t.muted)),
            paint::gap(1),
        ]
    } else {
        let l = text::fit(left, inner_w);
        seq![style::span(l, st), paint::gap((inner_w - text::cells(l)) as nat)]
    }
}

/// One line of a thread box of `width` cells.
pub open spec fn comment_line(t: Theme, cl: CommentLineV, focused: bool, width: nat) -> Seq<SpanV> {
    let border = box_border(t, cl, focused);
    if width <= 4 {
        seq![paint::gap(width)]
    } else {
        let inner_w = (width - 4) as nat;
        let muted_or = |c: Color|
            if cl.resolved {
                t.muted
            } else {
                c
            };
        match cl.kind {
            CommentKindV::Top => seq![
                paint::gap(2),
                style::span(rule('╭', inner_w, '╮'), style::colored(border)),
            ],
            CommentKindV::Bottom => seq![
                paint::gap(2),
                style::span(rule('╰', inner_w, '╯'), style::colored(border)),
            ],
            CommentKindV::Actions => framed(border, seq![paint::gap(inner_w)]),
            CommentKindV::Author { name, date } => framed(
                border,
                author_line(t, cl.resolved, name, date, inner_w),
            ),
            CommentKindV::Head { replies } => framed(
                border,
                seq![
                    style::span(
                        paint::fitted(head_text(cl.resolved, replies), inner_w),
                        Style { bold: true, ..style::colored(muted_or(t.accent)) },
                    ),
                ],
            ),
            CommentKindV::Body(b) => framed(
                border,
                seq![
                    style::span(
                        paint::fitted(seq![' '] + b, inner_w),
                        style::colored(muted_or(t.text)),
                    ),
                ],
            ),
            CommentKindV::Gap => framed(
                border,
                seq![style::span(paint::fitted(Seq::empty(), inner_w), style::colored(t.text))],
            ),
        }
    }
}

/// The first place of `c` in `s`, or the end.
pub open spec fn find_char(s: Seq<char>, c: char, i: nat) -> nat
    decreases s.len() - i,
{
    if i >= s.len() || s[i as int] == c {
        i
    } else {
        find_char(s, c, i + 1)
    }
}

/// A body line of the composer between the sides of the box. The caret is no character: the
/// cell behind it is drawn reversed, so that the text around it never shifts. That cell is
/// never what is cut off; one that is wider than the box is drawn as a space.
pub open spec fn body_line(t: Theme, b: Seq<char>, inner_w: nat) -> Seq<SpanV> {
    let st = style::colored(t.text);
    let i = find_char(b, COMPOSER_CARET, 0);
    if i < b.len() {
        let under = if i + 1 < b.len() {
            seq![b[i as int + 1]]
        } else {
            seq![' ']
        };
        let cell = if text::cells(under) > inner_w {
            seq![' ']
        } else {
            under
        };
        let rest = if i + 1 < b.len() {
            b.skip(i as int + 2)
        } else {
            Seq::empty()
        };
        let cw = text::cells(cell);
        let lead = text::fit(seq![' '] + b.take(i as int), (inner_w - cw) as nat);
        let lw = text::cells(lead);
        let tail = text::fit(rest, (inner_w - lw - cw) as nat);
        let pad = (inner_w - lw - cw - text::cells(tail)) as nat;
        seq![
            style::span(lead, st),
            style::span(cell, Style { reversed: true, ..st }),
            style::span(tail + text::spaces(pad), st),
        ]
    } else {
        seq![style::span(paint::fitted(seq![' '] + b, inner_w), st)]
    }
}

/// One line of the composer box of `width` cells.
pub open spec fn composer_line(t: Theme, kind: ComposerKindV, width: nat) -> Seq<SpanV> {
    let border = t.accent;
    if width <= 4 {
        seq![paint::gap(width)]
    } else {
        let inner_w = (width - 4) as nat;
        let bst = style::colored(border);
        match kind {
            ComposerKindV::Top { title } => {
                let s = text::fit(title, inner_w);
                seq![
                    paint::gap(2),
                    style::span("╭"@, bst),
                    style::span(s, Style { bold: true, ..bst }),
                    style::span(
                        paint::repeated('─', wrap::monus(inner_w as int, text::cells(s) as int)),
                        bst,
                    ),
                    style::span("╮"@, bst),
                ]
            },
            ComposerKindV::Bottom => seq![
                paint::gap(2),
                style::span(rule('╰', inner_w, '╯'), bst),
            ],
            ComposerKindV::Body(b) => framed(border, body_line(t, b, inner_w)),
            ComposerKindV::Hint => framed(
                border,
                seq![
                    style::span(
                        paint::fitted(
                            " ctrl+s: submit · enter: newline · esc: cancel"@,
                            inner_w,
                        ),
                        style::colored(t.muted),
                    ),
                ],
            ),
        }
    }
}

/// A space and every glyph that boxes are drawn with take one cell.
pub open spec fn narrow_glyphs() -> bool {
    &&& text::cell(' ') == 1
    &&& text::cell('─') == 1
    &&& text::cell('│') == 1
    &&& text::cell('╭') == 1
    &&& text::cell('╮') == 1
    &&& text::cell('╰') == 1
    &&& text::cell('╯') == 1
}

/// Measure the glyphs that boxes are drawn with: what a line of a box adds up to rests on them.
fn measure_glyphs()
    ensures
        narrow_glyphs(),
{
    let space: usize = char_width(' ');
    let rule: usize = char_width('─');
    let side: usize = char_width('│');
    let top_left: usize = char_width('╭');
    let top_right: usize = char_width('╮');
    let bottom_left: usize = char_width('╰');
    let bottom_right: usize = char_width('╯');
}

fn edge_of(border: Color) -> (r: Span)
    ensures
        r@ == edge(border),
{
    Span::styled(strs::owned("│"), Style::new().fg(border))
}

fn frame(border: Color, inner: Vec<Span>) -> (r: Vec<Span>)
    ensures
        strs::views(r@) == framed(border, strs::views(inner@)),
{
    broadcast use strs::lemma_views_push;

    let mut inner = inner;
    let ghost iv = inner@;
    let mut r: Vec<Span> = Vec::new();
    r.push(gap_of(2));
    r.push(edge_of(border));
    let ghost head = r@;
    assert(strs::views(head) == seq![paint::gap(2), edge(border)]);
    r.append(&mut inner);
    assert(strs::views(r@) == strs::views(head) + strs::views(iv));
    let ghost before = r@;
    r.push(edge_of(border));
    assert(strs::views(r@) == strs::views(before).push(edge(border)));
    assert(strs::views(r@) == framed(border, strs::views(iv)));
    r
}

fn one_span(s: Span) -> (r: Vec<Span>)
    ensures
        strs::views(r@) == seq![s@],
{
    let mut r: Vec<Span> = Vec::new();
    r.push(s);
    assert(strs::views(r@) == seq![s@]);
    r
}

fn two_spans(a: Span, b: Span) -> (r: Vec<Span>)
    ensures
        strs::views(r@) == seq![a@, b@],
{
    let mut r: Vec<Span> = Vec::new();
    r.push(a);
    r.push(b);
    assert(strs::views(r@) == seq![a@, b@]);
    r
}

fn push_gap(spans: &mut Vec<Span>, n: usize)
    ensures
        strs::views(final(spans)@) == with_gap(strs::views(old(spans)@), n as nat),
{
    broadcast use strs::lemma_views_push;

    if n > 0 {
        spans.push(gap_of(n));
    }
}

fn chip_of(label: &str) -> (r: String)
    ensures
        r@ == chip_text(label@),
{
    let mut r = String::new();
    r.push(' ');
    r.append(label);
    r.push(' ');
    assert(r@ == chip_text(label@));
    r
}

fn rule_of(l: char, n: usize, r: char) -> (s: String)
    ensures
        s@ == rule(l, n as nat, r),
{
    let mut s = String::new();
    s.push(l);
    s.append(repeat_char('─', n).as_str());
    s.push(r);
    assert(s@ == rule(l, n as nat, r));
    s
}

fn find_caret(v: &Vec<char>) -> (r: usize)
    ensures
        r == find_char(v@, COMPOSER_CARET, 0),
        r <= v.len(),
{
    let mut i: usize = 0;
    while i < v.len() && v[i] != COMPOSER_CARET
        invariant
            0 <= i <= v.len(),
            find_char(v@, COMPOSER_CARET, i as nat) == find_char(v@, COMPOSER_CARET, 0),
        decreases v.len() - i,
    {
        i += 1;
    }
    i
}

/// `" "` and the text behind it.
fn indented(s: &str) -> (r: String)
    ensures
        r@ == seq![' '] + s@,
{
    let mut r = String::new();
    r.push(' ');
    r.append(s);
    assert(r@ == seq![' '] + s@);
    r
}

impl App {
    /// Buttons for a thread box's action row: reply, resolve/unresolve, and (only when the
    /// focused comment is a session-added one in this thread) delete.
    pub fn comment_buttons(&self, cl: &CommentLine) -> (r: Vec<Button>)
        ensures
            strs::views(r@) == thread_buttons(self@, cl@),
    {
        let tid = &cl.thread_id;
        let mut v: Vec<Button> = Vec::new();
        v.push(
            Button {
                label: strs::owned("reply(r)"),
                action: ButtonAction::Reply(tid.clone()),
                color: self.theme.accent,
            },
        );
        if cl.resolved {
            v.push(
                Button {
                    label: strs::owned("unresolve(R)"),
                    action: ButtonAction::ToggleResolve(tid.clone()),
                    color: self.theme.warn,
                },
            );
        } else {
            v.push(
                Button {
                    label: strs::owned("resolve(R)"),
                    action: ButtonAction::ToggleResolve(tid.clone()),
                    color: self.theme.added,
                },
            );
        }
        if let Some((ftid, fcid)) = self.focused_comment() {
            if ftid == *tid && !has_id(&self.base_comment_ids, fcid.as_str()) {
                v.push(
                    Button {
                        label: strs::owned("delete(D)"),
                        action: ButtonAction::Delete(tid.clone(), fcid),
                        color: self.theme.removed,
                    },
                );
            }
        }
        assert(strs::views(v@) == thread_buttons(self@, cl@));
        v
    }

    /// Buttons for the open composer's action row: submit and cancel.
    pub fn composer_buttons(&self) -> (r: Vec<Button>)
        ensures
            strs::views(r@) == own_buttons(self@.theme),
    {
        let mut v: Vec<Button> = Vec::new();
        v.push(
            Button {
                label: strs::owned("submit(ctrl+s)"),
                action: ButtonAction::Submit,
                color: self.theme.accent,
            },
        );
        v.push(
            Button {
                label: strs::owned("cancel(esc)"),
                action: ButtonAction::Cancel,
                color: self.theme.muted,
            },
        );
        assert(strs::views(v@) == own_buttons(self@.theme));
        v
    }

    fn chip_style(&self, color: Color) -> (r: Style)
        ensures
            r == chip_style(self@.theme, color),
    {
        Style::new().bg(self.theme.subtle).fg(color).bold()
    }

    fn pack_chips(&self, btns: &Vec<Button>, room: usize, x: usize, y: u16) -> (r: (
        Vec<Span>,
        Vec<Hit>,
        usize,
    ))
        ensures
            ({
                let c = chips(
                    strs::views(btns@),
                    btns@.len(),
                    room as nat,
                    x as nat,
                    y,
                    self@.theme,
                );
                &&& strs::views(r.0@) == c.spans
                &&& strs::views(r.1@) == c.hits
                &&& r.2 == c.col
            }),
            r.2 <= room,
    {
        broadcast use strs::lemma_views_push;

        let ghost bv = strs::views(btns@);
        let ghost t = self@.theme;
        let mut spans: Vec<Span> = Vec::new();
        let mut hits: Vec<Hit> = Vec::new();
        let mut col: usize = 0;
        let mut full = false;
        let mut i: usize = 0;
        assert(strs::views(spans@) == Seq::<SpanV>::empty());
        assert(strs::views(hits@) == Seq::<HitV>::empty());
        while i < btns.len()
            invariant
                bv == strs::views(btns@),
                t == self@.theme,
                0 <= i <= btns.len(),
                col <= room,
                ({
                    let c = chips(bv, i as nat, room as nat, x as nat, y, t);
                    &&& strs::views(spans@) == c.spans
                    &&& strs::views(hits@) == c.hits
                    &&& col == c.col
                    &&& full == c.full
                }),
            decreases btns.len() - i,
        {
            let b = &btns[i];
            assert(b@ == bv[i as int]);
            let chip = chip_of(b.label.as_str());
            let w: usize = str_width(chip.as_str());
            let gap: usize = if i > 0 {
                1
            } else {
                0
            };
            if full || gap > room - col || w > room - col - gap {
                full = true;
            } else {
                if gap > 0 {
                    spans.push(gap_of(1));
                }
                col += gap;
                let rect = Rect { x: to_coord(sat_add(x, col)), y, width: to_coord(w), height: 1 };
                let ghost h0 = hits@;
                hits.push(Hit { rect, action: b.action.clone() });
                assert(strs::views(hits@) == strs::views(h0).push(
                    HitV { rect, action: bv[i as int].action },
                ));
                spans.push(Span::styled(chip, self.chip_style(b.color)));
                col += w;
            }
            i += 1;
        }
        (spans, hits, col)
    }

    /// Build one full-width action-button row inside a box. The box (margin + `│ … │` +
    /// button chips) is `box_w` cells wide and starts `left_pad` cells into the row (for
    /// split-view side placement); the rest is padded to `width`. Each chip is a subtle
    /// raised surface with the action's color as its label text; its on-screen rect (at `x0`
    /// + offset, row `y`) comes back for click hit-testing.
    pub fn action_row_line(
        &self,
        btns: &Vec<Button>,
        border: Color,
        x0: u16,
        y: u16,
        width: usize,
        left_pad: usize,
        box_w: usize,
    ) -> (r: (Line, Vec<Hit>))
        requires
            x0 + left_pad + 3 <= usize::MAX,
        ensures
            (r.0@, strs::views(r.1@)) == action_row(
                self@.theme,
                strs::views(btns@),
                border,
                x0,
                y,
                width as nat,
                left_pad as nat,
                box_w as nat,
            ),
            left_pad + box_w <= width ==> wrap::span_cells(r.0@) == width,
    {
        broadcast use strs::lemma_views_push;

        measure_glyphs();
        proof {
            if left_pad + box_w <= width {
                width_laws::law_action_row_fills_width(
                    self@.theme,
                    strs::views(btns@),
                    border,
                    x0,
                    y,
                    width as nat,
                    left_pad as nat,
                    box_w as nat,
                );
            }
        }
        if box_w <= 4 {
            let hits: Vec<Hit> = Vec::new();
            assert(strs::views(hits@) == Seq::<HitV>::empty());
            return (Line { spans: one_span(gap_of(width)) }, hits);
        }
        let inner_w: usize = box_w - 4;
        let (inner, hits, col) = self.pack_chips(btns, inner_w, x0 as usize + left_pad + 3, y);
        let mut inner = inner;
        push_gap(&mut inner, inner_w - col);
        let mut boxed = frame(border, inner);
        let mut spans: Vec<Span> = Vec::new();
        assert(strs::views(spans@) == Seq::<SpanV>::empty());
        push_gap(&mut spans, left_pad);
        let ghost s0 = spans@;
        let ghost b0 = boxed@;
        spans.append(&mut boxed);
        assert(strs::views(spans@) == strs::views(s0) + strs::views(b0));
        push_gap(&mut spans, sat_sub(width, sat_add(left_pad, box_w)));
        (Line { spans }, hits)
    }

    /// Overlay a right-aligned button chip on an already-built diff line: clip the line's
    /// content to leave room, then append ` label `. Used to float a `comment(i)` button at
    /// the end of the focused diff line (GitHub-style).
    pub fn append_right_button(
        &self,
        spans: Vec<Span>,
        width: usize,
        label: &str,
        color: Color,
        action: ButtonAction,
        x0: u16,
        y: u16,
    ) -> (r: (Line, Vec<Hit>))
        ensures
            (r.0@, strs::views(r.1@)) == right_button(
                self@.theme,
                strs::views(spans@),
                width as nat,
                label@,
                color,
                action@,
                x0,
                y,
            ),
    {
        broadcast use strs::lemma_views_push;

        let mut hits: Vec<Hit> = Vec::new();
        let chip = chip_of(label);
        let cw: usize = str_width(chip.as_str());
        if width <= cw {
            assert(strs::views(hits@) == Seq::<HitV>::empty());
            return (Line { spans }, hits);
        }
        let keep: usize = width - cw;
        let ghost sv = strs::views(spans@);
        // Clip the existing spans to `keep` display cells (preserving styles, so the line's
        // selection tint carries up to the button).
        let mut out: Vec<Span> = Vec::new();
        let mut acc: usize = 0;
        let mut cut = false;
        let mut i: usize = 0;
        assert(strs::views(out@) == Seq::<SpanV>::empty());
        while i < spans.len()
            invariant
                sv == strs::views(spans@),
                0 <= i <= spans.len(),
                acc <= keep,
                (strs::views(out@), acc as nat, cut) == clip_among(sv, i as nat, keep as nat),
            decreases spans.len() - i,
        {
            assert(spans@[i as int]@ == sv[i as int]);
            if !cut && acc < keep {
                let s = &spans[i];
                let sw: usize = str_width(s.text.as_str());
                if sw <= keep - acc {
                    acc += sw;
                    out.push(s.clone());
                } else {
                    let (t, tw) = take_width(s.text.as_str(), keep - acc);
                    out.push(Span::styled(t, s.style));
                    acc += tw;
                    cut = true;
                }
            }
            i += 1;
        }
        push_gap(&mut out, sat_sub(keep, acc));
        let rect = Rect {
            x: to_coord(sat_add(x0 as usize, keep)),
            y,
            width: to_coord(cw),
            height: 1,
        };
        let ghost av = action@;
        hits.push(Hit { rect, action });
        assert(strs::views(hits@) == seq![HitV { rect, action: av }]);
        out.push(Span::styled(chip, self.chip_style(color)));
        (Line { spans: out }, hits)
    }

    /// The color of a box's border.
    pub fn box_border(&self, cl: &CommentLine, focused: bool) -> (r: Color)
        ensures
            r == box_border(self@.theme, cl@, focused),
    {
        if focused {
            self.theme.border_focus
        } else if cl.resolved {
            self.theme.muted
        } else {
            self.theme.border_unfocus
        }
    }

    fn author_spans(&self, resolved: bool, name: &str, date: &str, inner_w: usize) -> (r: Vec<Span>)
        ensures
            strs::views(r@) == author_line(self@.theme, resolved, name@, date@, inner_w as nat),
    {
        let mut left = strs::owned(" @");
        left.append(name);
        let llen: usize = str_width(left.as_str());
        let dlen: usize = str_width(date);
        let st = Style::new().fg(
            if resolved {
                self.theme.muted
            } else {
                self.theme.warn
            },
        ).bold();
        let mut v: Vec<Span> = Vec::new();
        if llen <= inner_w && dlen <= inner_w - llen && 2 <= inner_w - llen - dlen {
            v.push(Span::styled(left, st));
            v.push(gap_of(inner_w - llen - dlen - 1));
            v.push(Span::styled(strs::owned(date), Style::new().fg(self.theme.muted)));
            v.push(gap_of(1));
        } else {
            let (l, lw) = take_width(left.as_str(), inner_w);
            v.push(Span::styled(l, st));
            v.push(gap_of(inner_w - lw));
        }
        assert(strs::views(v@) == author_line(
            self@.theme,
            resolved,
            name@,
            date@,
            inner_w as nat,
        ));
        v
    }

    fn muted_or(&self, resolved: bool, c: Color) -> (r: Color)
        ensures
            r == (if resolved {
                self@.theme.muted
            } else {
                c
            }),
    {
        if resolved {
            self.theme.muted
        } else {
            c
        }
    }

    /// Render one inline comment line as part of a rounded box spanning `width` (2-column
    /// left margin + `╭─╮`/`│ │`/`╰─╯` frame). `focused` is set for the rows of the message
    /// the cursor is on.
    pub fn comment_line_to_line(&self, cl: &CommentLine, focused: bool, width: usize) -> (r: Line)
        ensures
            r@ == comment_line(self@.theme, cl@, focused, width as nat),
            wrap::span_cells(r@) == width,
    {
        measure_glyphs();
        proof {
            width_laws::law_comment_line_fills_width(self@.theme, cl@, focused, width as nat);
        }
        let border = self.box_border(cl, focused);
        if width <= 4 {
            return Line { spans: one_span(gap_of(width)) };
        }
        let inner_w: usize = width - 4;
        let spans = match &cl.kind {
            CommentKind::Top => two_spans(
                gap_of(2),
                Span::styled(rule_of('╭', inner_w, '╮'), Style::new().fg(border)),
            ),
            CommentKind::Bottom => two_spans(
                gap_of(2),
                Span::styled(rule_of('╰', inner_w, '╯'), Style::new().fg(border)),
            ),
            // The action row is drawn by `action_row_line`, which knows the screen position;
            // this is a blank box.
            CommentKind::Actions => frame(border, one_span(gap_of(inner_w))),
            CommentKind::Author { name, date } => frame(
                border,
                self.author_spans(cl.resolved, name.as_str(), date.as_str(), inner_w),
            ),
            CommentKind::Head { replies } => {
                let mut s = if cl.resolved {
                    strs::owned(" ▾ resolved · ")
                } else {
                    strs::owned(" ▾ open · ")
                };
                strs::push_dec(&mut s, *replies as u64);
                s.append(
                    if *replies == 1 {
                        " message"
                    } else {
                        " messages"
                    },
                );
                assert(s@ == head_text(cl.resolved, *replies as nat));
                let color = self.muted_or(cl.resolved, self.theme.accent);
                frame(
                    border,
                    one_span(
                        Span::styled(
                            fit_text(s.as_str(), inner_w),
                            Style::new().fg(color).bold(),
                        ),
                    ),
                )
            },
            CommentKind::Body(b) => {
                let color = self.muted_or(cl.resolved, self.theme.text);
                frame(
                    border,
                    one_span(
                        Span::styled(
                            fit_text(indented(b.as_str()).as_str(), inner_w),
                            Style::new().fg(color),
                        ),
                    ),
                )
            },
            CommentKind::Gap => {
                let empty = String::new();
                frame(
                    border,
                    one_span(
                        Span::styled(
                            fit_text(empty.as_str(), inner_w),
                            Style::new().fg(self.theme.text),
                        ),
                    ),
                )
            },
        };
        Line { spans }
    }

    /// A body line of the composer between the sides of the box.
    fn body_spans(&self, b: &str, inner_w: usize) -> (r: Vec<Span>)
        requires
            inner_w >= 1,
        ensures
            strs::views(r@) == body_line(self@.theme, b@, inner_w as nat),
    {
        let st = Style::new().fg(self.theme.text);
        let v = strs::chars_of(b);
        let n: usize = v.len();
        let i: usize = find_caret(&v);
        let one: usize = char_width(' ');
        if i >= n {
            return one_span(Span::styled(fit_text(indented(b).as_str(), inner_w), st));
        }
        let pre = strs::string_of(&v, 0, i);
        assert(pre@ == b@.take(i as int));
        let mut cell = String::new();
        let mut rest = String::new();
        if i + 1 < n {
            cell.push(v[i + 1]);
            rest = strs::string_of(&v, i + 2, n);
            assert(rest@ == b@.skip(i + 2));
            assert(cell@ == seq![b@[i + 1]]);
        } else {
            cell.push(' ');
            assert(cell@ == seq![' ']);
        }
        // Reserve the cursor cell first (so the caret is never the thing that gets clipped),
        // then fit the lead text and tail around it.
        if str_width(cell.as_str()) > inner_w {
            cell = String::new();
            cell.push(' ');
            assert(cell@ == seq![' ']);
        }
        proof {
            assert(seq![' '] == Seq::<char>::empty().push(' '));
            text::lemma_cells_push(Seq::empty(), ' ');
        }
        let cw: usize = str_width(cell.as_str());
        let (lead, lw) = take_width(indented(pre.as_str()).as_str(), inner_w - cw);
        let (tail, tw) = take_width(rest.as_str(), inner_w - lw - cw);
        let pad: usize = inner_w - lw - cw - tw;
        let mut tail = tail;
        text::push_spaces(&mut tail, pad);
        let mut r: Vec<Span> = Vec::new();
        r.push(Span::styled(lead, st));
        r.push(Span::styled(cell, st.reversed()));
        r.push(Span::styled(tail, st));
        assert(strs::views(r@) == body_line(self@.theme, b@, inner_w as nat));
        r
    }

    /// Render one inline composer line as part of a rounded accent box spanning `width`
    /// (2-col left margin + framed title / live body / key hint).
    pub fn composer_line_to_line(&self, cl: &ComposerLine, width: usize) -> (r: Line)
        ensures
            r@ == composer_line(self@.theme, cl@, width as nat),
            wrap::span_cells(r@) == width,
    {
        measure_glyphs();
        proof {
            width_laws::law_composer_line_fills_width(self@.theme, cl@, width as nat);
        }
        let border = self.theme.accent;
        let bst = Style::new().fg(border);
        if width <= 4 {
            return Line { spans: one_span(gap_of(width)) };
        }
        let inner_w: usize = width - 4;
        let spans = match &cl.kind {
            ComposerKind::Top { title } => {
                let (t, tw) = take_width(title.as_str(), inner_w);
                let mut v: Vec<Span> = Vec::new();
                v.push(gap_of(2));
                v.push(Span::styled(strs::owned("╭"), bst));
                v.push(Span::styled(t, bst.bold()));
                v.push(Span::styled(repeat_char('─', sat_sub(inner_w, tw)), bst));
                v.push(Span::styled(strs::owned("╮"), bst));
                assert(strs::views(v@) == composer_line(self@.theme, cl@, width as nat));
                v
            },
            ComposerKind::Bottom => two_spans(
                gap_of(2),
                Span::styled(rule_of('╰', inner_w, '╯'), bst),
            ),
            ComposerKind::Body(b) => frame(border, self.body_spans(b.as_str(), inner_w)),
            ComposerKind::Hint => frame(
                border,
                one_span(
                    Span::styled(
                        fit_text(" ctrl+s: submit · enter: newline · esc: cancel", inner_w),
                        Style::new().fg(self.theme.muted),
                    ),
                ),
            ),
        };
        Line { spans }
    }
}

} // verus!
