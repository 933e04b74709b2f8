//! Soft-wrap: how highlighted code breaks into visual lines, and the display heights and
//! display-line arithmetic that follow from it.
use crate::strs;
use crate::strs::{chars_of, string_of};
use crate::ui::app::state::{App, AppV, GeomV, ViewMode};
use crate::ui::highlight;
use crate::ui::highlight::{Run, RunV};
use crate::ui::render_rows::rows::{Row, RowKind, RowKindV, RowV};
use crate::ui::render_rows::split::{SideCell, SplitKindV, SplitRow, SplitRowKind, SplitRowV};
use crate::ui::render_rows::text;
use crate::ui::render_rows::text::{char_width, str_width};
use crate::ui::style;
use crate::ui::style::{Color, Line, Span, SpanV, Style};
use vstd::prelude::*;

verus! {

/// The column separator drawn between the two halves of the split view.
pub open spec fn divider() -> Seq<char> {
    " │ "@
}

/// The column separator drawn between the two halves of the split view.
pub fn split_divider() -> (r: &'static str)
    ensures
        r@ == divider(),
{
    " │ "
}

/// Columns reserved before the code on a unified diff line: two 5-wide line-number columns
/// and a space each, and the 1-column sign.
pub const UNI_PREFIX: usize = 13;

/// Columns reserved before the code on one side of a split row.
pub const SPLIT_PREFIX: usize = 5;

/// `a - b`, or 0.
pub open spec fn monus(a: int, b: int) -> nat {
    if a >= b {
        (a - b) as nat
    } else {
        0
    }
}

/// `a - b`, or 0.
pub fn sat_sub(a: usize, b: usize) -> (r: usize)
    ensures
        r == monus(a as int, b as int),
{
    if a >= b {
        a - b
    } else {
        0
    }
}

/// `x`, or the largest `usize`.
pub open spec fn saturated(x: int) -> usize {
    if x > usize::MAX {
        usize::MAX
    } else {
        x as usize
    }
}

/// `a + b`, or the largest `usize`.
pub fn sat_add(a: usize, b: usize) -> (r: usize)
    ensures
        r == saturated(a + b),
{
    if b > usize::MAX - a {
        usize::MAX
    } else {
        a + b
    }
}

/// Lines that are complete, the spans of the open line, and its width.
#[verifier::ext_equal]
pub struct Wrapping {
    pub lines: Seq<(Seq<SpanV>, nat)>,
    pub cur: Seq<SpanV>,
    pub w: nat,
}

/// `cur`, and the text `buf` behind it where there is any.
pub open spec fn flushed(cur: Seq<SpanV>, buf: Seq<char>, st: Style) -> Seq<SpanV> {
    if buf.len() > 0 {
        cur.push(style::span(buf, st))
    } else {
        cur
    }
}

/// `o` after the first `n` characters of a run, and what of the run is not yet a span.
pub open spec fn run_among(o: Wrapping, s: Seq<char>, n: nat, budget: nat, st: Style) -> (
    Wrapping,
    Seq<char>,
)
    decreases n,
{
    if n == 0 {
        (o, Seq::empty())
    } else {
        let (p, buf) = run_among(o, s, (n - 1) as nat, budget, st);
        let c = s[n - 1];
        if p.w + text::cell(c) > budget && p.w > 0 {
            (
                Wrapping {
                    lines: p.lines.push((flushed(p.cur, buf, st), p.w)),
                    cur: Seq::empty(),
                    w: text::cell(c),
                },
                seq![c],
            )
        } else {
            (Wrapping { w: p.w + text::cell(c), ..p }, buf.push(c))
        }
    }
}

/// The style of a run.
pub open spec fn run_style(c: Color, bg: Option<Color>) -> Style {
    style::on(style::colored(c), bg)
}

/// The first `n` runs, wrapped.
pub open spec fn runs_among(runs: Seq<RunV>, n: nat, budget: nat, bg: Option<Color>) -> Wrapping
    decreases n,
{
    if n == 0 {
        Wrapping { lines: Seq::empty(), cur: Seq::empty(), w: 0 }
    } else {
        let r = runs[n - 1];
        let st = run_style(r.color, bg);
        let (p, buf) = run_among(
            runs_among(runs, (n - 1) as nat, budget, bg),
            r.text,
            r.text.len(),
            budget,
            st,
        );
        Wrapping { cur: flushed(p.cur, buf, st), ..p }
    }
}

/// The visual lines of runs, each with its width: broken before each glyph that does not fit
/// the budget on a line that is not empty.
pub open spec fn wrapped_runs(runs: Seq<RunV>, budget: nat, bg: Option<Color>) -> Seq<
    (Seq<SpanV>, nat),
> {
    let p = runs_among(runs, runs.len(), text::at_least_one(budget), bg);
    p.lines.push((p.cur, p.w))
}

/// How many lines a text has so far when wrapped, and the width of the last one.
pub open spec fn count_among(s: Seq<char>, budget: nat) -> (nat, nat)
    decreases s.len(),
{
    if s.len() == 0 {
        (1, 0)
    } else {
        let (n, w) = count_among(s.drop_last(), budget);
        let c = text::cell(s.last());
        if w + c > budget && w > 0 {
            (n + 1, c)
        } else {
            (n, w + c)
        }
    }
}

/// The number of visual lines of a text.
pub open spec fn line_count(s: Seq<char>, budget: nat) -> nat {
    count_among(s, text::at_least_one(budget)).0
}

proof fn lemma_run_count(
    o: Wrapping,
    before: Seq<char>,
    s: Seq<char>,
    n: nat,
    budget: nat,
    st: Style,
)
    requires
        n <= s.len(),
        (o.lines.len() + 1, o.w) == count_among(before, budget),
    ensures
        ({
            let p = run_among(o, s, n, budget, st).0;
            (p.lines.len() + 1, p.w) == count_among(before + s.take(n as int), budget)
        }),
    decreases n,
{
    if n == 0 {
        assert(before + s.take(0) == before);
    } else {
        lemma_run_count(o, before, s, (n - 1) as nat, budget, st);
        let t = before + s.take(n as int);
        assert(t.drop_last() == before + s.take(n - 1));
        assert(t.last() == s[n - 1]);
    }
}

proof fn lemma_runs_count(runs: Seq<RunV>, n: nat, budget: nat, bg: Option<Color>)
    requires
        n <= runs.len(),
    ensures
        ({
            let p = runs_among(runs, n, budget, bg);
            (p.lines.len() + 1, p.w) == count_among(
                strs::concat(highlight::run_texts(runs).take(n as int)),
                budget,
            )
        }),
    decreases n,
{
    let texts = highlight::run_texts(runs);
    if n == 0 {
        assert(texts.take(0) == Seq::<Seq<char>>::empty());
    } else {
        lemma_runs_count(runs, (n - 1) as nat, budget, bg);
        let r = runs[n - 1];
        let before = strs::concat(texts.take(n - 1));
        assert(texts.take(n as int) == texts.take(n - 1).push(r.text));
        strs::lemma_concat_push(texts.take(n - 1), r.text);
        lemma_run_count(
            runs_among(runs, (n - 1) as nat, budget, bg),
            before,
            r.text,
            r.text.len(),
            budget,
            run_style(r.color, bg),
        );
        assert(r.text.take(r.text.len() as int) == r.text);
    }
}

/// Wrapping is a matter of width alone: however a text is split into runs, it has as many
/// visual lines as [`wrap_count`] says.
pub proof fn law_line_count_ignores_runs(runs: Seq<RunV>, budget: nat, bg: Option<Color>)
    ensures
        wrapped_runs(runs, budget, bg).len() == line_count(
            strs::concat(highlight::run_texts(runs)),
            budget,
        ),
{
    lemma_runs_count(runs, runs.len(), text::at_least_one(budget), bg);
    let texts = highlight::run_texts(runs);
    assert(texts.take(texts.len() as int) == texts);
}

/// The cells of spans.
pub open spec fn span_cells(spans: Seq<SpanV>) -> nat
    decreases spans.len(),
{
    if spans.len() == 0 {
        0
    } else {
        span_cells(spans.drop_last()) + text::cells(spans.last().text)
    }
}

/// One more span adds its cells.
pub broadcast proof fn lemma_span_cells_push(spans: Seq<SpanV>, s: SpanV)
    ensures
        #[trigger] span_cells(spans.push(s)) == span_cells(spans) + text::cells(s.text),
{
    assert(spans.push(s).drop_last() == spans);
}

/// The cells of two lists of spans.
pub proof fn lemma_span_cells_add(a: Seq<SpanV>, b: Seq<SpanV>)
    ensures
        span_cells(a + b) == span_cells(a) + span_cells(b),
    decreases b.len(),
{
    if b.len() == 0 {
        assert(a + b == a);
    } else {
        lemma_span_cells_add(a, b.drop_last());
        assert((a + b).drop_last() == a + b.drop_last());
        assert((a + b).last() == b.last());
    }
}

spec fn widths_ok(o: Wrapping, buf: Seq<char>) -> bool {
    &&& o.w == span_cells(o.cur) + text::cells(buf)
    &&& forall|i: int| 0 <= i < o.lines.len() ==> (#[trigger] o.lines[i]).1 == span_cells(
        o.lines[i].0,
    )
}

proof fn lemma_run_widths(o: Wrapping, s: Seq<char>, n: nat, budget: nat, st: Style)
    requires
        n <= s.len(),
        widths_ok(o, Seq::empty()),
    ensures
        widths_ok(
            run_among(o, s, n, budget, st).0,
            run_among(o, s, n, budget, st).1,
        ),
    decreases n,
{
    broadcast use {text::lemma_cells_push, lemma_span_cells_push};

    if n > 0 {
        lemma_run_widths(o, s, (n - 1) as nat, budget, st);
        let c = s[n - 1];
        assert(Seq::<char>::empty().push(c) == seq![c]);
    }
}

proof fn lemma_runs_widths(runs: Seq<RunV>, n: nat, budget: nat, bg: Option<Color>)
    requires
        n <= runs.len(),
    ensures
        widths_ok(runs_among(runs, n, budget, bg), Seq::empty()),
    decreases n,
{
    broadcast use {text::lemma_cells_push, lemma_span_cells_push};

    if n > 0 {
        lemma_runs_widths(runs, (n - 1) as nat, budget, bg);
        let r = runs[n - 1];
        lemma_run_widths(
            runs_among(runs, (n - 1) as nat, budget, bg),
            r.text,
            r.text.len(),
            budget,
            run_style(r.color, bg),
        );
    }
}

/// The width that comes with a visual line is the width of its spans.
pub proof fn law_wrapped_widths(runs: Seq<RunV>, budget: nat, bg: Option<Color>)
    ensures
        forall|i: int|
            0 <= i < wrapped_runs(runs, budget, bg).len() ==> (#[trigger] wrapped_runs(
                runs,
                budget,
                bg,
            )[i]).1 == span_cells(wrapped_runs(runs, budget, bg)[i].0),
{
    lemma_runs_widths(runs, runs.len(), text::at_least_one(budget), bg);
}

/// A visual line and its width.
#[derive(Debug)]
pub struct CodeLine {
    pub spans: Vec<Span>,
    pub width: usize,
}

impl View for CodeLine {
    type V = (Seq<SpanV>, nat);

    open spec fn view(&self) -> (Seq<SpanV>, nat) {
        (strs::views(self.spans@), self.width as nat)
    }
}

fn push_run(
    s: &str,
    st: Style,
    budget: usize,
    lines: &mut Vec<CodeLine>,
    cur: &mut Vec<Span>,
    w: &mut usize,
)
    requires
        budget >= 1,
        *old(w) <= budget || *old(w) <= 3,
    ensures
        ({
            let o = Wrapping {
                lines: strs::views(old(lines)@),
                cur: strs::views(old(cur)@),
                w: *old(w) as nat,
            };
            let (p, buf) = run_among(o, s@, s@.len(), budget as nat, st);
            &&& strs::views(final(lines)@) == p.lines
            &&& strs::views(final(cur)@) == flushed(p.cur, buf, st)
            &&& *final(w) == p.w
        }),
        *final(w) <= budget || *final(w) <= 3,
{
    broadcast use strs::lemma_views_push;

    let ghost o = Wrapping {
        lines: strs::views(lines@),
        cur: strs::views(cur@),
        w: *w as nat,
    };
    let v = chars_of(s);
    let mut buf = String::new();
    let mut i: usize = 0;
    while i < v.len()
        invariant
            v@ == s@,
            0 <= i <= v.len(),
            budget >= 1,
            *w <= budget || *w <= 3,
            ({
                let (p, b) = run_among(o, s@, i as nat, budget as nat, st);
                &&& strs::views(lines@) == p.lines
                &&& strs::views(cur@) == p.cur
                &&& *w == p.w
                &&& buf@ == b
            }),
        decreases v.len() - i,
    {
        let ch = v[i];
        let cw: usize = char_width(ch);
        if *w > 0 && (*w > budget || cw > budget - *w) {
            let ghost cur0 = strs::views(cur@);
            let ghost buf0 = buf@;
            if !buf.as_str().is_empty() {
                cur.push(Span::styled(buf, st));
                buf = String::new();
            }
            let mut done: Vec<Span> = Vec::new();
            done.append(cur);
            assert(strs::views(done@) == flushed(cur0, buf0, st));
            lines.push(CodeLine { spans: done, width: *w });
            assert(strs::views(cur@) == Seq::<SpanV>::empty());
            *w = 0;
            assert(Seq::<char>::empty().push(ch) == seq![ch]);
        }
        buf.push(ch);
        *w = *w + cw;
        i += 1;
    }
    if !buf.as_str().is_empty() {
        cur.push(Span::styled(buf, st));
    }
}

/// Greedy width-wrap of highlighted runs into visual lines, each at most `budget` display
/// cells wide, with its width. Run (color) boundaries never force a break. A glyph wider
/// than `budget` lands alone on its own line rather than being dropped. `bg` is applied to
/// every emitted span. Lines are not padded; the caller adds the prefix and trailing fill.
pub fn wrap_runs(runs: &Vec<Run>, budget: usize, bg: Option<Color>) -> (r: Vec<CodeLine>)
    ensures
        strs::views(r@) == wrapped_runs(strs::views(runs@), budget as nat, bg),
{
    broadcast use strs::lemma_views_push;

    let budget: usize = if budget == 0 {
        1
    } else {
        budget
    };
    let mut lines: Vec<CodeLine> = Vec::new();
    let mut cur: Vec<Span> = Vec::new();
    let mut w: usize = 0;
    let mut i: usize = 0;
    assert(strs::views(lines@) == Seq::<(Seq<SpanV>, nat)>::empty());
    assert(strs::views(cur@) == Seq::<SpanV>::empty());
    while i < runs.len()
        invariant
            0 <= i <= runs.len(),
            budget >= 1,
            w <= budget || w <= 3,
            (Wrapping { lines: strs::views(lines@), cur: strs::views(cur@), w: w as nat })
                == runs_among(strs::views(runs@), i as nat, budget as nat, bg),
        decreases runs.len() - i,
    {
        let run = &runs[i];
        assert(run@ == strs::views(runs@)[i as int]);
        let st = Style::new().fg(run.color).on(bg);
        let ghost o = Wrapping {
            lines: strs::views(lines@),
            cur: strs::views(cur@),
            w: w as nat,
        };
        assert(o =~= runs_among(strs::views(runs@), i as nat, budget as nat, bg));
        push_run(run.text.as_str(), st, budget, &mut lines, &mut cur, &mut w);
        i += 1;
    }
    lines.push(CodeLine { spans: cur, width: w });
    lines
}

/// Number of visual lines `text` occupies when wrapped to `budget` columns: the height
/// oracle for the wrap layout. Always at least 1.
pub fn wrap_count(s: &str, budget: usize) -> (r: usize)
    ensures
        r == line_count(s@, budget as nat),
        r >= 1,
{
    let budget: usize = if budget == 0 {
        1
    } else {
        budget
    };
    let v = chars_of(s);
    let mut lines: usize = 1;
    let mut w: usize = 0;
    let mut i: usize = 0;
    assert(v@.take(0) == Seq::<char>::empty());
    while i < v.len()
        invariant
            v@ == s@,
            0 <= i <= v.len(),
            budget >= 1,
            w <= budget || w <= 3,
            i == 0 ==> lines == 1 && w == 0,
            i > 0 ==> lines <= i,
            lines >= 1,
            (lines as nat, w as nat) == count_among(v@.take(i as int), budget as nat),
        decreases v.len() - i,
    {
        let cw: usize = char_width(v[i]);
        assert(v@.take(i + 1).drop_last() == v@.take(i as int));
        if w > 0 && (w > budget || cw > budget - w) {
            lines += 1;
            w = 0;
        }
        w = w + cw;
        i += 1;
    }
    assert(v@.take(v.len() as int) == s@);
    lines
}

/// The width of one split column for a content area of `width` cells.
pub open spec fn side_width(width: nat) -> nat {
    monus(width as int, text::cells(divider()) as int) / 2
}

/// The code of a unified row: its text without the sign.
pub open spec fn code_of(t: Seq<char>) -> Seq<char> {
    if t.len() > 0 {
        t.skip(1)
    } else {
        t
    }
}

/// A number of lines as a height.
pub open spec fn as_height(n: nat) -> u16 {
    if n > 65535 {
        65535
    } else {
        n as u16
    }
}

/// The height of a unified row: a diff line is wrapped, any other row is one line.
pub open spec fn row_height(r: RowV, budget: nat) -> u16 {
    match r.kind {
        RowKindV::Line { .. } => as_height(line_count(code_of(r.text), budget)),
        _ => 1,
    }
}

/// The larger number.
pub open spec fn larger(a: nat, b: nat) -> nat {
    if a < b {
        b
    } else {
        a
    }
}

/// The height of a split row: the taller of a pair's columns, or one line.
pub open spec fn split_height(r: SplitRowV, budget: nat) -> u16 {
    match r.kind {
        SplitKindV::Pair { left, right } => {
            let l = match left {
                Some(c) => line_count(c.text, budget),
                None => 1,
            };
            let rr = match right {
                Some(c) => line_count(c.text, budget),
                None => 1,
            };
            as_height(larger(l, rr))
        },
        _ => 1,
    }
}

/// The heights of the rows of the active view at a content width.
pub open spec fn heights_of(a: AppV, width: nat) -> Seq<u16> {
    match a.view {
        ViewMode::Unified => Seq::new(
            a.rows.len(),
            |i: int| row_height(a.rows[i], monus(width as int, UNI_PREFIX as int)),
        ),
        ViewMode::Split => Seq::new(
            a.split_rows.len(),
            |i: int|
                split_height(
                    a.split_rows[i],
                    monus(side_width(width) as int, SPLIT_PREFIX as int),
                ),
        ),
    }
}

/// The sum of the first `n` heights, as far as it can be counted.
pub open spec fn offset(heights: Seq<u16>, n: nat) -> usize
    decreases n,
{
    if n == 0 {
        0
    } else {
        saturated(offset(heights, (n - 1) as nat) + heights[n - 1])
    }
}

/// The sums of the heights in front of every row, and of all of them.
pub open spec fn offsets_of(heights: Seq<u16>) -> Seq<usize> {
    Seq::new(heights.len() + 1, |i: int| offset(heights, i as nat))
}

/// The sums are those of the heights, or there are neither.
pub open spec fn geom_ok(g: GeomV) -> bool {
    (g.heights.len() == 0 && g.offsets.len() == 0) || g.offsets == offsets_of(g.heights)
}

/// Sums do not decrease.
pub proof fn lemma_offset_monotonic(heights: Seq<u16>, i: nat, j: nat)
    requires
        i <= j,
    ensures
        offset(heights, i) <= offset(heights, j),
    decreases j - i,
{
    if i < j {
        lemma_offset_monotonic(heights, i, (j - 1) as nat);
    }
}

impl AppV {
    /// The height of row `i`.
    pub open spec fn row_h(self, i: nat) -> nat {
        if !self.wrap {
            1
        } else if i < self.geom.heights.len() {
            self.geom.heights[i as int] as nat
        } else {
            1
        }
    }

    /// The heights of rows `[i, end)` together, as far as they can be counted.
    pub open spec fn walk(self, i: nat, end: nat) -> usize
        decreases end - i,
    {
        if i >= end {
            0
        } else {
            saturated(self.row_h((end - 1) as nat) + self.walk(i, (end - 1) as nat))
        }
    }

    /// The display lines of rows `[start, end)`.
    pub open spec fn display_lines(self, start: nat, end: nat) -> usize {
        if !self.wrap {
            monus(end as int, start as int) as usize
        } else if end < self.geom.offsets.len() && start <= end {
            (self.geom.offsets[end as int] - self.geom.offsets[start as int]) as usize
        } else {
            self.walk(start, end)
        }
    }

    /// The topmost row down to `start` from which the rows up to `t` fit into `room` lines.
    pub open spec fn fit_up(self, start: nat, t: nat, room: nat) -> nat
        decreases t,
    {
        if t > start && self.row_h((t - 1) as nat) <= room {
            self.fit_up(start, (t - 1) as nat, (room - self.row_h((t - 1) as nat)) as nat)
        } else {
            t
        }
    }

    /// The furthest that rows `[start, end)` can be scrolled without showing empty space.
    pub open spec fn max_scroll(self, start: nat, end: nat, height: nat) -> nat {
        if end <= start {
            start
        } else {
            let t = self.fit_up(start, end, height);
            if t == end {
                (end - 1) as nat
            } else {
                t
            }
        }
    }

    /// The topmost row that keeps row `bottom` within `height` lines.
    pub open spec fn top_for(self, start: nat, bottom: nat, height: nat) -> nat {
        if bottom < start {
            start
        } else {
            let t = self.fit_up(start, bottom + 1, height);
            if t > bottom {
                bottom
            } else {
                t
            }
        }
    }

    /// With the heights of the active view at a content width.
    #[verifier::opaque]
    pub open spec fn with_heights(self, width: usize) -> AppV {
        if !self.wrap {
            AppV {
                geom: GeomV {
                    heights: Seq::empty(),
                    offsets: Seq::empty(),
                    width,
                    dirty: false,
                },
                ..self
            }
        } else if !self.geom.dirty && self.geom.width == width && self.geom.heights.len()
            == self.active_len() {
            self
        } else {
            let h = heights_of(self, width as nat);
            AppV {
                geom: GeomV { heights: h, offsets: offsets_of(h), width, dirty: false },
                ..self
            }
        }
    }
}

proof fn lemma_fit_up(a: AppV, start: nat, t: nat, room: nat)
    ensures
        a.fit_up(start, t, room) <= t,
        start <= t ==> start <= a.fit_up(start, t, room),
    decreases t,
{
    if t > start && a.row_h((t - 1) as nat) <= room {
        lemma_fit_up(a, start, (t - 1) as nat, (room - a.row_h((t - 1) as nat)) as nat);
    }
}

/// The code of a unified row: its text without the sign.
pub(crate) fn code_text(t: &str) -> (r: String)
    ensures
        r@ == code_of(t@),
{
    let v = chars_of(t);
    if v.len() > 0 {
        let r = string_of(&v, 1, v.len());
        assert(v@.subrange(1, v@.len() as int) == t@.skip(1));
        r
    } else {
        strs::owned(t)
    }
}

fn to_height(n: usize) -> (r: u16)
    ensures
        r == as_height(n as nat),
{
    if n > 65535 {
        65535
    } else {
        n as u16
    }
}

fn unified_height(r: &Row, budget: usize) -> (h: u16)
    ensures
        h == row_height(r@, budget as nat),
{
    match &r.kind {
        RowKind::Line { .. } => to_height(wrap_count(code_text(r.text.as_str()).as_str(), budget)),
        _ => 1,
    }
}

fn cell_height(c: &Option<SideCell>, budget: usize) -> (h: usize)
    ensures
        h == (match crate::ui::render_rows::split::cell_view(*c) {
            Some(c) => line_count(c.text, budget as nat),
            None => 1,
        }),
{
    match c {
        Some(c) => wrap_count(c.text.as_str(), budget),
        None => 1,
    }
}

fn pair_height(r: &SplitRow, budget: usize) -> (h: u16)
    ensures
        h == split_height(r@, budget as nat),
{
    match &r.kind {
        SplitRowKind::Pair { left, right } => {
            let l: usize = cell_height(left, budget);
            let rr: usize = cell_height(right, budget);
            to_height(if l < rr {
                rr
            } else {
                l
            })
        },
        _ => 1,
    }
}

/// Width of one split column for content area `width`. Single source of truth for the
/// rendered columns and the wrap-height budget.
pub fn split_side_w(width: usize) -> (r: usize)
    ensures
        r == side_width(width as nat),
{
    sat_sub(width, str_width(split_divider())) / 2
}

impl App {
    /// Display height (terminal lines) of row `idx` in the active view. Always 1 unless
    /// `wrap` is on and the row is a code line wide enough to wrap.
    pub fn row_h(&self, idx: usize) -> (r: usize)
        ensures
            r == self@.row_h(idx as nat),
    {
        if !self.wrap {
            return 1;
        }
        if idx < self.geom.heights.len() {
            self.geom.heights[idx] as usize
        } else {
            1
        }
    }

    /// Total display lines spanned by rows `[start, end)` in the active view: a difference
    /// of the prefix sums (or a plain row count when wrap is off). Falls back to a direct
    /// walk only if the prefix sums are missing for the requested range.
    pub fn display_lines(&self, start: usize, end: usize) -> (r: usize)
        requires
            geom_ok(self@.geom),
        ensures
            r == self@.display_lines(start as nat, end as nat),
    {
        if !self.wrap {
            return sat_sub(end, start);
        }
        if end < self.geom.offsets.len() && start <= end {
            proof {
                lemma_offset_monotonic(self@.geom.heights, start as nat, end as nat);
            }
            return self.geom.offsets[end] - self.geom.offsets[start];
        }
        let mut acc: usize = 0;
        let mut i: usize = start;
        while i < end
            invariant
                start <= i,
                i <= end || i == start,
                acc == self@.walk(start as nat, i as nat),
            decreases end - i,
        {
            acc = sat_add(self.row_h(i), acc);
            i += 1;
        }
        acc
    }

    fn fit_up(&self, start: usize, end: usize, height: usize) -> (r: usize)
        ensures
            r == self@.fit_up(start as nat, end as nat, height as nat),
            r <= end,
            start <= end ==> start <= r,
    {
        let mut room: usize = height;
        let mut t: usize = end;
        while t > start
            invariant
                t <= end,
                start <= end ==> start <= t,
                self@.fit_up(start as nat, t as nat, room as nat) == self@.fit_up(
                    start as nat,
                    end as nat,
                    height as nat,
                ),
            decreases t,
        {
            let h: usize = self.row_h(t - 1);
            if h > room {
                return t;
            }
            room -= h;
            t -= 1;
        }
        t
    }

    /// The largest top row (>= `start`) such that the rows from it to `end` fit within
    /// `height` display lines: the furthest the viewport can scroll without revealing empty
    /// space past the last line.
    pub fn max_scroll_row(&self, start: usize, end: usize, height: usize) -> (r: usize)
        ensures
            r == self@.max_scroll(start as nat, end as nat, height as nat),
            r >= start,
    {
        if end <= start {
            return start;
        }
        let t: usize = self.fit_up(start, end, height);
        if t == end {
            end - 1
        } else {
            t
        }
    }

    /// The topmost row that keeps `bottom` (and everything down to it that fits) within
    /// `height` display lines.
    pub fn top_to_show(&self, start: usize, bottom: usize, height: usize) -> (r: usize)
        ensures
            r == self@.top_for(start as nat, bottom as nat, height as nat),
    {
        if bottom < start {
            return start;
        }
        let h: usize = self.row_h(bottom);
        if h > height {
            return bottom;
        }
        self.fit_up(start, bottom, height - h)
    }

    /// Recompute the per-row display heights for the active view at content `width`. A cheap
    /// no-op when the width is unchanged and the heights are fresh.
    pub fn update_heights(&mut self, width: usize)
        ensures
            final(self)@ == old(self)@.with_heights(width),
            geom_ok(old(self)@.geom) ==> geom_ok(final(self)@.geom),
    {
        reveal(AppV::with_heights);

        if !self.wrap {
            self.geom.heights.clear();
            self.geom.offsets.clear();
            self.geom.width = width;
            self.geom.dirty = false;
            return ;
        }
        if !self.geom.dirty && self.geom.width == width && self.geom.heights.len()
            == self.active_len() {
            return ;
        }
        let ghost hv = heights_of(self@, width as nat);
        let heights = self.heights_at(width);
        let mut offsets: Vec<usize> = Vec::new();
        let mut acc: usize = 0;
        offsets.push(0);
        let mut i: usize = 0;
        while i < heights.len()
            invariant
                0 <= i <= heights.len(),
                offsets.len() == i + 1,
                acc == offset(heights@, i as nat),
                forall|k: int| 0 <= k <= i ==> #[trigger] offsets@[k] == offset(heights@, k as nat),
            decreases heights.len() - i,
        {
            acc = sat_add(acc, heights[i] as usize);
            offsets.push(acc);
            i += 1;
        }
        assert(offsets@ =~= offsets_of(heights@));
        self.geom.heights = heights;
        self.geom.offsets = offsets;
        self.geom.width = width;
        self.geom.dirty = false;
    }

    fn heights_at(&self, width: usize) -> (r: Vec<u16>)
        ensures
            r@ == heights_of(self@, width as nat),
    {
        let mut heights: Vec<u16> = Vec::new();
        let mut i: usize = 0;
        match self.view {
            ViewMode::Unified => {
                let budget: usize = sat_sub(width, UNI_PREFIX);
                while i < self.rows.len()
                    invariant
                        0 <= i <= self.rows.len(),
                        heights.len() == i,
                        budget == monus(width as int, UNI_PREFIX as int),
                        forall|k: int|
                            0 <= k < i ==> #[trigger] heights@[k] == row_height(
                                self@.rows[k],
                                budget as nat,
                            ),
                    decreases self.rows.len() - i,
                {
                    assert(self@.rows[i as int] == self.rows@[i as int]@);
                    heights.push(unified_height(&self.rows[i], budget));
                    i += 1;
                }
            },
            ViewMode::Split => {
                let budget: usize = sat_sub(split_side_w(width), SPLIT_PREFIX);
                while i < self.split_rows.len()
                    invariant
                        0 <= i <= self.split_rows.len(),
                        heights.len() == i,
                        budget == monus(side_width(width as nat) as int, SPLIT_PREFIX as int),
                        forall|k: int|
                            0 <= k < i ==> #[trigger] heights@[k] == split_height(
                                self@.split_rows[k],
                                budget as nat,
                            ),
                    decreases self.split_rows.len() - i,
                {
                    assert(self@.split_rows[i as int] == self.split_rows@[i as int]@);
                    heights.push(pair_height(&self.split_rows[i], budget));
                    i += 1;
                }
            },
        }
        assert(heights@ =~= heights_of(self@, width as nat));
        heights
    }
}

/// The prefix sums give what a direct walk gives, as long as the sum of all heights can be
/// counted.
pub proof fn law_display_lines_is_walk(a: AppV, start: nat, end: nat)
    requires
        a.wrap,
        a.geom.offsets == offsets_of(a.geom.heights),
        offset(a.geom.heights, a.geom.heights.len()) < usize::MAX,
        start <= end <= a.geom.heights.len(),
    ensures
        a.display_lines(start, end) == a.walk(start, end),
    decreases end - start,
{
    let h = a.geom.heights;
    lemma_offset_monotonic(h, start, end);
    lemma_offset_monotonic(h, end, h.len());
    if start < end {
        lemma_offset_monotonic(h, start, (end - 1) as nat);
        lemma_offset_monotonic(h, (end - 1) as nat, end);
        law_display_lines_is_walk(a, start, (end - 1) as nat);
    }
}

} // verus!
