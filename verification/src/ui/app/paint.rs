//! Text laid out in cells: padding, clipping, and numbers in columns.
use crate::diff::model::LineKind;
use crate::strs;
use crate::ui::app::nav;
use crate::ui::app::state::{App, AppV};
use crate::ui::app::wrap;
use crate::ui::app::wrap::sat_sub;
use crate::ui::highlight::{Run, RunV};
use crate::ui::render_rows::text;
use crate::ui::render_rows::text::{char_width, push_spaces, str_width, take_width};
use crate::ui::style;
use crate::ui::style::{Color, Span, SpanV, Style};
use crate::ui::theme::Theme;
use vstd::prelude::*;

verus! {

/// `n` times the character `c`.
pub open spec fn repeated(c: char, n: nat) -> Seq<char> {
    Seq::new(n, |i: int| c)
}

/// `n` times the character `c`.
pub fn repeat_char(c: char, n: usize) -> (r: String)
    ensures
        r@ == repeated(c, n as nat),
{
    let mut out = String::new();
    let mut i: usize = 0;
    assert(out@ == repeated(c, 0));
    while i < n
        invariant
            i <= n,
            out@ == repeated(c, i as nat),
        decreases n - i,
    {
        out.push(c);
        i += 1;
        assert(out@ == repeated(c, i as nat));
    }
    out
}

/// `n` spaces.
pub fn blanks(n: usize) -> (r: String)
    ensures
        r@ == text::spaces(n as nat),
{
    let mut out = String::new();
    push_spaces(&mut out, n);
    assert(Seq::<char>::empty() + text::spaces(n as nat) == text::spaces(n as nat));
    out
}

/// A piece of `n` spaces in no style.
pub open spec fn gap(n: nat) -> SpanV {
    style::span(text::spaces(n), style::plain())
}

/// A piece of `n` spaces in no style.
pub fn gap_of(n: usize) -> (r: Span)
    ensures
        r@ == gap(n as nat),
{
    Span::raw(blanks(n))
}

/// `s` at the right end of `w` columns.
pub open spec fn right(s: Seq<char>, w: nat) -> Seq<char> {
    text::spaces(wrap::monus(w as int, s.len() as int)) + s
}

/// A line number at the right end of `w` columns.
pub open spec fn number(n: Option<u32>, w: nat) -> Seq<char> {
    match n {
        Some(n) => right(strs::dec(n as nat), w),
        None => right(Seq::empty(), w),
    }
}

/// A line number at the right end of `w` columns.
pub fn number_text(n: Option<u32>, w: usize) -> (r: String)
    ensures
        r@ == number(n, w as nat),
{
    let digits = match n {
        Some(n) => strs::dec_text(n as u64),
        None => String::new(),
    };
    let len: usize = digits.as_str().unicode_len();
    let mut out = blanks(sat_sub(w, len));
    out.append(digits.as_str());
    out
}

/// `s` with spaces behind it, so that it takes at least `w` cells.
pub open spec fn padded(s: Seq<char>, w: nat) -> Seq<char> {
    s + text::spaces(wrap::monus(w as int, text::cells(s) as int))
}

/// Right-pad `s` with spaces so its display width is exactly `w` (no-op when it already
/// meets/exceeds `w`). Use after `elide_left`/`take_width` so a wide glyph can't push the
/// column past `w`.
pub fn pad_width(s: &str, w: usize) -> (r: String)
    ensures
        r@ == padded(s@, w as nat),
        text::cells(r@) == wrap::larger(text::cells(s@), w as nat),
{
    let sw: usize = str_width(s);
    let one: usize = char_width(' ');
    let n: usize = sat_sub(w, sw);
    let mut out = strs::owned(s);
    push_spaces(&mut out, n);
    proof {
        lemma_cells_spaces(n as nat);
        text::lemma_cells_add(s@, text::spaces(n as nat));
    }
    out
}

/// Spaces take one cell each.
pub proof fn lemma_cells_spaces(n: nat)
    requires
        text::cell(' ') == 1,
    ensures
        text::cells(text::spaces(n)) == n,
    decreases n,
{
    if n > 0 {
        lemma_cells_spaces((n - 1) as nat);
        assert(text::spaces(n) == text::spaces((n - 1) as nat).push(' '));
        text::lemma_cells_push(text::spaces((n - 1) as nat), ' ');
    }
}

/// How many characters of `s`, from the last, fit into `max` cells together: counted up from
/// `n`, which are known to fit.
pub open spec fn tail_from(s: Seq<char>, max: nat, n: nat) -> nat
    decreases s.len() - n,
{
    if n < s.len() && text::cells(s.skip(s.len() - n - 1)) <= max {
        tail_from(s, max, n + 1)
    } else {
        n
    }
}

/// The longest suffix of `s` that takes at most `max` cells.
pub open spec fn tail_fit(s: Seq<char>, max: nat) -> Seq<char> {
    s.skip(s.len() - tail_from(s, max, 0))
}

/// `s` cut off at its left, with an ellipsis in place of what is gone, so that it takes at
/// most `w` cells.
pub open spec fn elided(s: Seq<char>, w: nat) -> Seq<char> {
    if text::cells(s) <= w {
        s
    } else if w <= 1 {
        repeated('…', w)
    } else {
        seq!['…'] + tail_fit(s, (w - 1) as nat)
    }
}

/// Truncate `s` from the left (keeping the tail) to fit `w` display columns, prefixing an
/// ellipsis when it doesn't fit.
pub fn elide_left(s: &str, w: usize) -> (r: String)
    ensures
        r@ == elided(s@, w as nat),
{
    if str_width(s) <= w {
        return strs::owned(s);
    }
    if w <= 1 {
        return repeat_char('…', w);
    }
    // Keep the widest tail that fits in `w - 1` cells (room for the ellipsis).

    let budget: usize = w - 1;
    let v = strs::chars_of(s);
    let len: usize = v.len();
    let mut n: usize = 0;
    let mut used: usize = 0;
    assert(s@.skip(len as int) == Seq::<char>::empty());
    while n < len
        invariant_except_break
            v@ == s@,
            len == v.len(),
            n <= len,
            used == text::cells(s@.skip(len - n)),
            used <= budget,
            tail_from(s@, budget as nat, n as nat) == tail_from(s@, budget as nat, 0),
        ensures
            n <= len,
            n == tail_from(s@, budget as nat, 0),
        decreases len - n,
    {
        let c = v[len - n - 1];
        let cw: usize = char_width(c);
        proof {
            assert(s@.skip(len - n - 1) == seq![c] + s@.skip(len - n));
            text::lemma_cells_add(seq![c], s@.skip(len - n));
            assert(seq![c] == Seq::<char>::empty().push(c));
            text::lemma_cells_push(Seq::empty(), c);
        }
        if cw > budget - used {
            break;
        }
        used += cw;
        n += 1;
    }
    let mut out = String::new();
    out.push('…');
    let tail = strs::string_of(&v, len - n, len);
    out.append(tail.as_str());
    assert(tail@ == s@.skip(len - n));
    assert(out@ == seq!['…'] + tail@);
    out
}

/// The tail that an elided text keeps is a suffix that fits, and no longer one does.
pub proof fn law_tail_fit_is_longest(s: Seq<char>, max: nat)
    ensures
        tail_fit(s, max).len() <= s.len(),
        tail_fit(s, max) == s.skip(s.len() - tail_fit(s, max).len()),
        text::cells(tail_fit(s, max)) <= max,
        tail_fit(s, max).len() < s.len() ==> text::cells(
            s.skip(s.len() - tail_fit(s, max).len() - 1),
        ) > max,
{
    assert(s.skip(s.len() as int) == Seq::<char>::empty());
    lemma_tail_from(s, max, 0);
}

proof fn lemma_tail_from(s: Seq<char>, max: nat, n: nat)
    requires
        n <= s.len(),
        text::cells(s.skip(s.len() - n)) <= max,
    ensures
        n <= tail_from(s, max, n) <= s.len(),
        text::cells(s.skip(s.len() - tail_from(s, max, n))) <= max,
        tail_from(s, max, n) < s.len() ==> text::cells(s.skip(s.len() - tail_from(s, max, n) - 1))
            > max,
    decreases s.len() - n,
{
    if n < s.len() && text::cells(s.skip(s.len() - n - 1)) <= max {
        lemma_tail_from(s, max, n + 1);
    }
}

/// `s` in `w` cells: cut off where it is longer, and with spaces behind it.
pub open spec fn fitted(s: Seq<char>, w: nat) -> Seq<char> {
    padded(text::fit(s, w), w)
}

/// Truncate `s` to `w` display cells, and pad it to them.
pub fn fit_text(s: &str, w: usize) -> (r: String)
    ensures
        r@ == fitted(s@, w as nat),
        text::cells(r@) == w,
{
    pad_width(take_width(s, w).0.as_str(), w)
}

/// The background of a line: that of the cursor where it is selected, or else the tint of
/// its kind.
pub open spec fn tint(a: AppV, kind: LineKind, selected: bool) -> Option<Color> {
    if selected {
        Some(nav::cursor_bg(a))
    } else {
        match kind {
            LineKind::Addition => Some(a.theme.add_bg),
            LineKind::Deletion => Some(a.theme.del_bg),
            LineKind::Context => None,
        }
    }
}

/// The color of a line's sign.
pub open spec fn sign_color(t: Theme, kind: LineKind) -> Color {
    match kind {
        LineKind::Addition => t.added,
        LineKind::Deletion => t.removed,
        LineKind::Context => t.muted,
    }
}

impl App {
    /// The background of a line.
    pub fn line_bg(&self, kind: LineKind, selected: bool) -> (r: Option<Color>)
        ensures
            r == tint(self@, kind, selected),
    {
        if selected {
            Some(self.diff_cursor_bg())
        } else {
            match kind {
                LineKind::Addition => Some(self.theme.add_bg),
                LineKind::Deletion => Some(self.theme.del_bg),
                LineKind::Context => None,
            }
        }
    }

    /// The color of a line's sign.
    pub fn sign_color(&self, kind: LineKind) -> (r: Color)
        ensures
            r == sign_color(self@.theme, kind),
    {
        match kind {
            LineKind::Addition => self.theme.added,
            LineKind::Deletion => self.theme.removed,
            LineKind::Context => self.theme.muted,
        }
    }
}

/// The first `n` runs, clipped to `width` cells, and the cells that they take.
pub open spec fn clipped_runs(runs: Seq<RunV>, n: nat, width: nat, bg: Option<Color>) -> (
    Seq<SpanV>,
    nat,
)
    decreases n,
{
    if n == 0 {
        (Seq::empty(), 0)
    } else {
        let (spans, used) = clipped_runs(runs, (n - 1) as nat, width, bg);
        if used >= width {
            (spans, used)
        } else {
            let r = runs[n - 1];
            let take = text::fit(r.text, (width - used) as nat);
            if take.len() == 0 {
                (spans, used)
            } else {
                (
                    spans.push(style::span(take, wrap::run_style(r.color, bg))),
                    used + text::cells(take),
                )
            }
        }
    }
}

/// Spaces on a background.
pub open spec fn fill(n: nat, bg: Option<Color>) -> SpanV {
    style::span(text::spaces(n), style::on(style::plain(), bg))
}

/// `spans`, which take `used` cells, filled up to `width` cells.
pub open spec fn filled(spans: Seq<SpanV>, used: nat, width: nat, bg: Option<Color>) -> Seq<SpanV> {
    if used < width {
        spans.push(fill((width - used) as nat, bg))
    } else {
        spans
    }
}

/// Runs as spans of `width` cells together: clipped, or filled up.
pub open spec fn fitted_runs(runs: Seq<RunV>, width: nat, bg: Option<Color>) -> Seq<SpanV> {
    let (spans, used) = clipped_runs(runs, runs.len(), width, bg);
    filled(spans, used, width, bg)
}

/// Fill `spans`, which take `used` cells, up to `width` cells.
pub fn fill_up(spans: &mut Vec<Span>, used: usize, width: usize, bg: Option<Color>)
    ensures
        strs::views(final(spans)@) == filled(
            strs::views(old(spans)@),
            used as nat,
            width as nat,
            bg,
        ),
{
    broadcast use strs::lemma_views_push;

    if used < width {
        spans.push(Span::styled(blanks(width - used), Style::new().on(bg)));
    }
}

/// Runs as spans, truncated/padded to exactly `width` cells, with an optional background
/// applied to every run (and the padding).
pub fn fit_runs(runs: &Vec<Run>, width: usize, bg: Option<Color>) -> (r: Vec<Span>)
    ensures
        strs::views(r@) == fitted_runs(strs::views(runs@), width as nat, bg),
        wrap::span_cells(strs::views(r@)) == width,
{
    broadcast use strs::lemma_views_push;

    let ghost rv = strs::views(runs@);
    let mut out: Vec<Span> = Vec::new();
    let mut used: usize = 0;
    let mut i: usize = 0;
    assert(strs::views(out@) == Seq::<SpanV>::empty());
    while i < runs.len()
        invariant
            rv == strs::views(runs@),
            0 <= i <= runs.len(),
            used <= width,
            (strs::views(out@), used as nat) == clipped_runs(rv, i as nat, width as nat, bg),
            wrap::span_cells(strs::views(out@)) == used,
        decreases runs.len() - i,
    {
        let run = &runs[i];
        assert(run@ == rv[i as int]);
        if used < width {
            let (take, tw) = take_width(run.text.as_str(), width - used);
            if !take.as_str().is_empty() {
                used += tw;
                let ghost before = out@;
                out.push(Span::styled(take, Style::new().fg(run.color).on(bg)));
                assert(strs::views(out@) == strs::views(before).push(
                    style::span(take@, wrap::run_style(run.color, bg)),
                ));
                proof {
                    wrap::lemma_span_cells_push(
                        strs::views(before),
                        style::span(take@, wrap::run_style(run.color, bg)),
                    );
                }
            }
        }
        i += 1;
    }
    let one: usize = char_width(' ');
    let ghost before = strs::views(out@);
    fill_up(&mut out, used, width, bg);
    proof {
        if used < width {
            lemma_cells_spaces((width - used) as nat);
            wrap::lemma_span_cells_push(before, fill((width - used) as nat, bg));
        }
    }
    out
}

} // verus!
