//! Per-row line builders (diff lines, comment/composer boxes).
use crate::diff::model::{LineKind, Side};
use crate::strs;
use crate::ui::app::paint;
use crate::ui::app::paint::{blanks, fill_up, fit_runs, number_text};
use crate::ui::app::render_boxes;
use crate::ui::app::state::{App, AppV};
use crate::ui::app::wrap;
use crate::ui::app::wrap::{sat_add, sat_sub, split_divider, wrap_runs, SPLIT_PREFIX, UNI_PREFIX};
use crate::ui::highlight::{Run, RunV};
use crate::ui::highlight_cache::{HighlightCache, SourceV};
use crate::ui::render_rows::rows::{Row, RowKind, RowKindV, RowV};
use crate::ui::render_rows::split;
use crate::ui::render_rows::split::{
    CellV, SideCell, SplitKindV, SplitRow, SplitRowKind, SplitRowV,
};
use crate::ui::render_rows::text;
use crate::ui::render_rows::text::str_width;
use crate::ui::style;
use crate::ui::style::{Color, Line, Span, SpanV, Style};
use crate::ui::theme::Theme;
use vstd::prelude::*;

verus! {

/// The line numbers of a unified line.
pub open spec fn gutter(old_line: Option<u32>, new_line: Option<u32>) -> Seq<char> {
    (paint::number(old_line, 5).push(' ') + paint::number(new_line, 5)).push(' ')
}

/// The sign of a unified row: the first character of its text.
pub open spec fn sign_of(t: Seq<char>) -> Seq<char> {
    if t.len() > 0 {
        t.take(1)
    } else {
        t
    }
}

/// What stands in front of the code on the first line of a unified row.
pub open spec fn line_prefix(
    a: AppV,
    kind: LineKind,
    old_line: Option<u32>,
    new_line: Option<u32>,
    t: Seq<char>,
    bg: Option<Color>,
) -> Seq<SpanV> {
    seq![
        style::span(gutter(old_line, new_line), style::on(style::colored(a.theme.muted), bg)),
        style::span(
            sign_of(t),
            style::on(style::colored(paint::sign_color(a.theme, kind)), bg),
        ),
    ]
}

/// Runs as spans on a background.
pub open spec fn run_spans(runs: Seq<RunV>, bg: Option<Color>) -> Seq<SpanV> {
    Seq::new(
        runs.len(),
        |i: int| style::span(runs[i].text, wrap::run_style(runs[i].color, bg)),
    )
}

/// `spans`, filled up to `width` cells where there is a background to extend.
pub open spec fn tinted(spans: Seq<SpanV>, used: nat, width: nat, bg: Option<Color>) -> Seq<SpanV> {
    if bg is Some {
        paint::filled(spans, used, width, bg)
    } else {
        spans
    }
}

/// Visual line `i` of a wrapped unified row.
pub open spec fn wrapped_line(
    prefix: Seq<SpanV>,
    code: (Seq<SpanV>, nat),
    i: int,
    width: nat,
    bg: Option<Color>,
) -> Seq<SpanV> {
    let front = if i == 0 {
        prefix
    } else {
        seq![paint::fill(UNI_PREFIX as nat, bg)]
    };
    tinted(front + code.0, UNI_PREFIX as nat + code.1, width, bg)
}

/// The visual lines of a wrapped unified row.
pub open spec fn wrapped_code(
    prefix: Seq<SpanV>,
    code: Seq<(Seq<SpanV>, nat)>,
    width: nat,
    bg: Option<Color>,
) -> Seq<Seq<SpanV>> {
    Seq::new(code.len(), |i: int| wrapped_line(prefix, code[i], i, width, bg))
}

/// The style of a file header.
pub open spec fn header_style(t: Theme) -> Style {
    Style {
        fg: Some(t.text_strong),
        bg: Some(t.file_header_bg),
        bold: true,
        ..style::plain()
    }
}

/// The style of a hunk header.
pub open spec fn hunk_style(t: Theme) -> Style {
    Style { fg: Some(t.faint), italic: true, ..style::plain() }
}

/// A unified row as one line.
pub open spec fn row_line(a: AppV, h: SourceV, row: RowV, selected: bool, width: nat) -> Seq<SpanV> {
    match row.kind {
        RowKindV::FileHeader => {
            let t = "▌ "@ + row.text;
            seq![
                style::span(t, header_style(a.theme)),
                style::span(
                    text::spaces(wrap::monus(width as int, text::cells(t) as int)),
                    header_style(a.theme),
                ),
            ]
        },
        RowKindV::HunkHeader => seq![style::span(row.text, hunk_style(a.theme))],
        RowKindV::Line { kind, old_line, new_line } => {
            let bg = paint::tint(a, kind, selected);
            let code = run_spans(h.runs(row.file_idx, wrap::code_of(row.text)), bg);
            tinted(
                line_prefix(a, kind, old_line, new_line, row.text, bg) + code,
                text::cells(gutter(old_line, new_line)) + 1 + wrap::span_cells(code),
                width,
                bg,
            )
        },
        RowKindV::Comment(cl) => render_boxes::comment_line(a.theme, cl, selected, width),
        RowKindV::Composer(k) => render_boxes::composer_line(a.theme, k, width),
    }
}

/// A unified row as its visual lines.
pub open spec fn row_lines(a: AppV, h: SourceV, row: RowV, selected: bool, width: nat) -> Seq<
    Seq<SpanV>,
> {
    match row.kind {
        RowKindV::Line { kind, old_line, new_line } => if a.wrap {
            let bg = paint::tint(a, kind, selected);
            wrapped_code(
                line_prefix(a, kind, old_line, new_line, row.text, bg),
                wrap::wrapped_runs(
                    h.runs(row.file_idx, wrap::code_of(row.text)),
                    wrap::monus(width as int, UNI_PREFIX as int),
                    bg,
                ),
                width,
                bg,
            )
        } else {
            seq![row_line(a, h, row, selected, width)]
        },
        _ => seq![row_line(a, h, row, selected, width)],
    }
}

/// A column of spaces on one background.
pub open spec fn blank_column(a: AppV, cell: Option<CellV>, width: nat, selected: bool) -> Seq<
    SpanV,
> {
    seq![
        paint::fill(
            width,
            match cell {
                None => Some(a.theme.comment_bg),
                Some(c) => paint::tint(a, c.kind, selected),
            },
        ),
    ]
}

/// The line number in front of one side of a split row.
pub open spec fn side_number(a: AppV, c: CellV) -> SpanV {
    style::span(paint::number(c.line, 4).push(' '), style::colored(a.theme.muted))
}

/// One side of a split row as one line.
pub open spec fn side_line(
    a: AppV,
    h: SourceV,
    cell: Option<CellV>,
    fi: nat,
    width: nat,
    selected: bool,
) -> Seq<SpanV> {
    match cell {
        None => blank_column(a, cell, width, selected),
        Some(c) => seq![side_number(a, c)] + paint::fitted_runs(
            h.runs(fi, c.text),
            wrap::monus(width as int, SPLIT_PREFIX as int),
            paint::tint(a, c.kind, selected),
        ),
    }
}

/// Visual line `i` of one side of a wrapped split row.
pub open spec fn side_row(
    a: AppV,
    c: CellV,
    code: (Seq<SpanV>, nat),
    i: int,
    width: nat,
    bg: Option<Color>,
) -> Seq<SpanV> {
    let front = if i == 0 {
        side_number(a, c)
    } else {
        style::span(text::spaces(SPLIT_PREFIX as nat), style::colored(a.theme.muted))
    };
    paint::filled(seq![front] + code.0, SPLIT_PREFIX as nat + code.1, width, bg)
}

/// The visual lines of one side of a wrapped split row.
pub open spec fn side_rows(
    a: AppV,
    h: SourceV,
    cell: Option<CellV>,
    fi: nat,
    width: nat,
    selected: bool,
) -> Seq<Seq<SpanV>> {
    match cell {
        None => seq![blank_column(a, cell, width, selected)],
        Some(c) => {
            let bg = paint::tint(a, c.kind, selected);
            let code = wrap::wrapped_runs(
                h.runs(fi, c.text),
                wrap::monus(width as int, SPLIT_PREFIX as int),
                bg,
            );
            Seq::new(code.len(), |i: int| side_row(a, c, code[i], i, width, bg))
        },
    }
}

/// The divider between the columns.
pub open spec fn divider_span(t: Theme) -> SpanV {
    style::span(wrap::divider(), style::colored(t.subtle))
}

/// Line `i` of a column, or else blanks.
pub open spec fn column_at(
    a: AppV,
    rows: Seq<Seq<SpanV>>,
    i: int,
    cell: Option<CellV>,
    width: nat,
    selected: bool,
) -> Seq<SpanV> {
    if i < rows.len() {
        rows[i]
    } else {
        blank_column(a, cell, width, selected)
    }
}

/// Two columns side by side.
pub open spec fn columns(t: Theme, l: Seq<SpanV>, r: Seq<SpanV>) -> Seq<SpanV> {
    l.push(divider_span(t)) + r
}

/// A box under the column of its side: the other column is blank.
pub open spec fn beside(side: Side, body: Seq<SpanV>, side_w: nat) -> Seq<SpanV> {
    let blank = paint::gap(side_w + wrap::divider().len());
    match side {
        Side::Old => body.push(blank),
        Side::New => seq![blank] + body,
    }
}

/// A split row as one line.
pub open spec fn split_line(
    a: AppV,
    h: SourceV,
    row: SplitRowV,
    selected: bool,
    side_w: nat,
) -> Seq<SpanV> {
    match row.kind {
        SplitKindV::FileHeader => seq![style::span("▌ "@ + row.text, header_style(a.theme))],
        SplitKindV::HunkHeader => seq![style::span(row.text, hunk_style(a.theme))],
        SplitKindV::Pair { left, right } => columns(
            a.theme,
            side_line(a, h, left, row.file_idx, side_w, selected),
            side_line(a, h, right, row.file_idx, side_w, selected),
        ),
        SplitKindV::Comment { side, line } => beside(
            side,
            render_boxes::comment_line(a.theme, line, selected, side_w),
            side_w,
        ),
        SplitKindV::Composer { side, line } => beside(
            side,
            render_boxes::composer_line(a.theme, line, side_w),
            side_w,
        ),
    }
}

/// A split row as its visual lines: as many as the taller column has.
pub open spec fn split_lines(
    a: AppV,
    h: SourceV,
    row: SplitRowV,
    selected: bool,
    side_w: nat,
) -> Seq<Seq<SpanV>> {
    match row.kind {
        SplitKindV::Pair { left, right } => if a.wrap {
            let l = side_rows(a, h, left, row.file_idx, side_w, selected);
            let r = side_rows(a, h, right, row.file_idx, side_w, selected);
            Seq::new(
                wrap::larger(l.len(), r.len()),
                |i: int|
                    columns(
                        a.theme,
                        column_at(a, l, i, left, side_w, selected),
                        column_at(a, r, i, right, side_w, selected),
                    ),
            )
        } else {
            seq![split_line(a, h, row, selected, side_w)]
        },
        _ => seq![split_line(a, h, row, selected, side_w)],
    }
}

fn gutter_text(old_line: Option<u32>, new_line: Option<u32>) -> (r: String)
    ensures
        r@ == gutter(old_line, new_line),
{
    let mut r = number_text(old_line, 5);
    r.push(' ');
    r.append(number_text(new_line, 5).as_str());
    r.push(' ');
    r
}

fn sign_text(t: &str) -> (r: String)
    ensures
        r@ == sign_of(t@),
{
    let v = strs::chars_of(t);
    if v.len() > 0 {
        let r = strs::string_of(&v, 0, 1);
        assert(r@ == t@.take(1));
        r
    } else {
        strs::owned(t)
    }
}

/// One element.
fn one_line(l: Line) -> (r: Vec<Line>)
    ensures
        strs::views(r@) == seq![l@],
{
    let mut r: Vec<Line> = Vec::new();
    r.push(l);
    assert(strs::views(r@) == seq![l@]);
    r
}

fn one_span(s: Span) -> (r: Vec<Span>)
    ensures
        strs::views(r@) == seq![s@],
{
    let mut r: Vec<Span> = Vec::new();
    r.push(s);
    assert(strs::views(r@) == seq![s@]);
    r
}

/// All the spans of `b` behind those of `a`.
fn join_spans(a: Vec<Span>, b: Vec<Span>) -> (r: Vec<Span>)
    ensures
        strs::views(r@) == strs::views(a@) + strs::views(b@),
{
    let mut a = a;
    let mut b = b;
    let ghost av = a@;
    let ghost bv = b@;
    a.append(&mut b);
    assert(strs::views(a@) == strs::views(av) + strs::views(bv));
    a
}

fn clone_spans(v: &Vec<Span>) -> (r: Vec<Span>)
    ensures
        strs::views(r@) == strs::views(v@),
{
    broadcast use strs::lemma_views_push;

    let mut r: Vec<Span> = Vec::new();
    let mut i: usize = 0;
    while i < v.len()
        invariant
            0 <= i <= v.len(),
            strs::views(r@) == strs::views(v@).take(i as int),
        decreases v.len() - i,
    {
        r.push(v[i].clone());
        assert(strs::views(v@).take(i + 1) == strs::views(v@).take(i as int).push(v@[i as int]@));
        i += 1;
    }
    r
}

/// Runs as spans on a background, and the cells that they take, as far as they can be
/// counted.
fn spans_of_runs(runs: &Vec<Run>, bg: Option<Color>) -> (r: (Vec<Span>, usize))
    ensures
        strs::views(r.0@) == run_spans(strs::views(runs@), bg),
        r.1 == wrap::saturated(wrap::span_cells(run_spans(strs::views(runs@), bg)) as int),
{
    broadcast use strs::lemma_views_push;

    let ghost all = run_spans(strs::views(runs@), bg);
    let mut out: Vec<Span> = Vec::new();
    let mut used: usize = 0;
    let mut i: usize = 0;
    assert(all.take(0) == Seq::<SpanV>::empty());
    while i < runs.len()
        invariant
            all == run_spans(strs::views(runs@), bg),
            0 <= i <= runs.len(),
            strs::views(out@) == all.take(i as int),
            used == wrap::saturated(wrap::span_cells(all.take(i as int)) as int),
        decreases runs.len() - i,
    {
        let run = &runs[i];
        assert(run@ == strs::views(runs@)[i as int]);
        used = sat_add(used, str_width(run.text.as_str()));
        out.push(Span::styled(run.text.clone(), Style::new().fg(run.color).on(bg)));
        assert(all.take(i + 1) == all.take(i as int).push(all[i as int]));
        proof {
            wrap::lemma_span_cells_push(all.take(i as int), all[i as int]);
        }
        i += 1;
    }
    assert(all.take(all.len() as int) == all);
    (out, used)
}

impl App {
    fn header_style(&self) -> (r: Style)
        ensures
            r == header_style(self@.theme),
    {
        Style::new().fg(self.theme.text_strong).bg(self.theme.file_header_bg).bold()
    }

    fn hunk_style(&self) -> (r: Style)
        ensures
            r == hunk_style(self@.theme),
    {
        Style::new().fg(self.theme.faint).italic()
    }

    fn prefix_spans(
        &self,
        kind: LineKind,
        old_line: Option<u32>,
        new_line: Option<u32>,
        t: &str,
        bg: Option<Color>,
    ) -> (r: Vec<Span>)
        ensures
            strs::views(r@) == line_prefix(self@, kind, old_line, new_line, t@, bg),
    {
        let mut v: Vec<Span> = Vec::new();
        v.push(
            Span::styled(
                gutter_text(old_line, new_line),
                Style::new().fg(self.theme.muted).on(bg),
            ),
        );
        v.push(Span::styled(sign_text(t), Style::new().fg(self.sign_color(kind)).on(bg)));
        assert(strs::views(v@) == line_prefix(self@, kind, old_line, new_line, t@, bg));
        v
    }

    fn code_line(
        &self,
        hl: &mut HighlightCache,
        row: &Row,
        kind: LineKind,
        old_line: Option<u32>,
        new_line: Option<u32>,
        selected: bool,
        width: usize,
    ) -> (r: Line)
        requires
            old(hl).wf(),
            row@.kind == (RowKindV::Line { kind, old_line, new_line }),
        ensures
            r@ == row_line(self@, old(hl).source(), row@, selected, width as nat),
            final(hl).wf(),
            final(hl).source() == old(hl).source(),
            final(hl).warmed() == old(hl).warmed(),
    {
        let bg = self.line_bg(kind, selected);
        let ghost h = hl.source();
        let prefix = self.prefix_spans(kind, old_line, new_line, row.text.as_str(), bg);
        let code = wrap::code_text(row.text.as_str());
        let runs = hl.runs(row.file_idx, code.as_str());
        let (spans, cw) = spans_of_runs(&runs, bg);
        let gw: usize = str_width(gutter_text(old_line, new_line).as_str());
        let used: usize = sat_add(sat_add(gw, 1), cw);
        let mut all = join_spans(prefix, spans);
        // Fill the rest so the tint / selection spans the whole line.
        if bg.is_some() {
            fill_up(&mut all, used, width, bg);
        }
        Line { spans: all }
    }

    /// Soft-wrap a unified code line. The first display line carries the line numbers + sign;
    /// continuation lines pad that 13-col prefix so the code stays aligned, and the diff
    /// background tint spans every line.
    fn wrapped_code_lines(
        &self,
        hl: &mut HighlightCache,
        row: &Row,
        kind: LineKind,
        old_line: Option<u32>,
        new_line: Option<u32>,
        selected: bool,
        width: usize,
    ) -> (r: Vec<Line>)
        requires
            old(hl).wf(),
            self@.wrap,
            row@.kind == (RowKindV::Line { kind, old_line, new_line }),
        ensures
            strs::views(r@) == row_lines(self@, old(hl).source(), row@, selected, width as nat),
            r@.len() == wrap::line_count(
                wrap::code_of(row@.text),
                wrap::monus(width as int, UNI_PREFIX as int),
            ),
            final(hl).wf(),
            final(hl).source() == old(hl).source(),
            final(hl).warmed() == old(hl).warmed(),
    {
        let bg = self.line_bg(kind, selected);
        let ghost h = hl.source();
        let prefix = self.prefix_spans(kind, old_line, new_line, row.text.as_str(), bg);
        let code = wrap::code_text(row.text.as_str());
        let runs = hl.runs(row.file_idx, code.as_str());
        let budget: usize = sat_sub(width, UNI_PREFIX);
        let wrapped = wrap_runs(&runs, budget, bg);
        proof {
            wrap::law_line_count_ignores_runs(strs::views(runs@), budget as nat, bg);
        }
        let ghost pv = strs::views(prefix@);
        let ghost cv = strs::views(wrapped@);
        let ghost all = wrapped_code(pv, cv, width as nat, bg);
        let mut out: Vec<Line> = Vec::new();
        let mut i: usize = 0;
        let n: usize = wrapped.len();
        while i < n
            invariant
                pv == strs::views(prefix@),
                cv == strs::views(wrapped@),
                all == wrapped_code(pv, cv, width as nat, bg),
                n == wrapped.len(),
                0 <= i <= n,
                strs::views(out@) == all.take(i as int),
            decreases n - i,
        {
            assert(wrapped@[i as int]@ == cv[i as int]);
            let front = if i == 0 {
                clone_spans(&prefix)
            } else {
                one_span(Span::styled(blanks(UNI_PREFIX), Style::new().on(bg)))
            };
            let mut spans = join_spans(front, clone_spans(&wrapped[i].spans));
            if bg.is_some() {
                fill_up(&mut spans, sat_add(UNI_PREFIX, wrapped[i].width), width, bg);
            }
            assert(strs::views(spans@) == all[i as int]);
            let ghost before = out@;
            out.push(Line { spans });
            assert(strs::views(out@) == strs::views(before).push(all[i as int]));
            assert(all.take(i + 1) == all.take(i as int).push(all[i as int]));
            i += 1;
        }
        assert(all.take(n as int) == all);
        out
    }

    /// One logical unified row as a single line.
    pub fn row_to_line(
        &self,
        hl: &mut HighlightCache,
        row: &Row,
        selected: bool,
        width: usize,
    ) -> (r: Line)
        requires
            old(hl).wf(),
        ensures
            r@ == row_line(self@, old(hl).source(), row@, selected, width as nat),
            final(hl).wf(),
            final(hl).source() == old(hl).source(),
            final(hl).warmed() == old(hl).warmed(),
    {
        match &row.kind {
            RowKind::FileHeader => {
                let mut t = strs::owned("▌ ");
                t.append(row.text.as_str());
                let pad: usize = sat_sub(width, str_width(t.as_str()));
                let mut v: Vec<Span> = Vec::new();
                v.push(Span::styled(t, self.header_style()));
                v.push(Span::styled(blanks(pad), self.header_style()));
                assert(strs::views(v@) == row_line(
                    self@,
                    hl.source(),
                    row@,
                    selected,
                    width as nat,
                ));
                Line { spans: v }
            },
            RowKind::HunkHeader => Line {
                spans: one_span(Span::styled(row.text.clone(), self.hunk_style())),
            },
            RowKind::Line { kind, old_line, new_line } => self.code_line(
                hl,
                row,
                *kind,
                *old_line,
                *new_line,
                selected,
                width,
            ),
            RowKind::Comment(cl) => self.comment_line_to_line(cl, selected, width),
            RowKind::Composer(cl) => self.composer_line_to_line(cl, width),
        }
    }

    /// One logical unified row expanded into its display lines. A single line unless `wrap`
    /// is on and the row is a long code line, in which case the code is soft-wrapped with
    /// continuation lines indented under it. As many lines come as the row's height says.
    pub fn row_to_lines(
        &self,
        hl: &mut HighlightCache,
        row: &Row,
        selected: bool,
        width: usize,
    ) -> (r: Vec<Line>)
        requires
            old(hl).wf(),
        ensures
            strs::views(r@) == row_lines(self@, old(hl).source(), row@, selected, width as nat),
            self@.wrap ==> wrap::as_height(r@.len()) == wrap::row_height(
                row@,
                wrap::monus(width as int, UNI_PREFIX as int),
            ),
            !self@.wrap ==> r@.len() == 1,
            final(hl).wf(),
            final(hl).source() == old(hl).source(),
            final(hl).warmed() == old(hl).warmed(),
    {
        match &row.kind {
            RowKind::Line { kind, old_line, new_line } if self.wrap => self.wrapped_code_lines(
                hl,
                row,
                *kind,
                *old_line,
                *new_line,
                selected,
                width,
            ),
            _ => {
                let r = one_line(self.row_to_line(hl, row, selected, width));
                assert(strs::views(r@).len() == r@.len());
                r
            },
        }
    }

    /// A blank `width`-wide column for continuation rows of the shorter side of a wrapped
    /// pair, tinted with that side's background so it reads as part of the same cell.
    fn blank_side(&self, cell: &Option<SideCell>, width: usize, selected: bool) -> (r: Vec<Span>)
        ensures
            strs::views(r@) == blank_column(
                self@,
                split::cell_view(*cell),
                width as nat,
                selected,
            ),
    {
        let bg = match cell {
            None => Some(self.theme.comment_bg),
            Some(c) => self.line_bg(c.kind, selected),
        };
        one_span(Span::styled(blanks(width), Style::new().on(bg)))
    }

    fn side_number(&self, c: &SideCell) -> (r: Span)
        ensures
            r@ == side_number(self@, c@),
    {
        let mut num = number_text(c.line, 4);
        num.push(' ');
        Span::styled(num, Style::new().fg(self.theme.muted))
    }

    /// Highlighted spans for `text`, truncated/padded to exactly `width` cells, with an
    /// optional background applied to every run (and the padding).
    pub fn styled_fit(
        &self,
        hl: &mut HighlightCache,
        file_idx: usize,
        text: &str,
        width: usize,
        bg: Option<Color>,
    ) -> (r: Vec<Span>)
        requires
            old(hl).wf(),
        ensures
            strs::views(r@) == paint::fitted_runs(
                old(hl).source().runs(file_idx as nat, text@),
                width as nat,
                bg,
            ),
            wrap::span_cells(strs::views(r@)) == width,
            final(hl).wf(),
            final(hl).source() == old(hl).source(),
            final(hl).warmed() == old(hl).warmed(),
    {
        let runs = hl.runs(file_idx, text);
        fit_runs(&runs, width, bg)
    }

    /// Render one side (old/new) of a split pair into spans of width `width`.
    fn side_spans(
        &self,
        hl: &mut HighlightCache,
        cell: &Option<SideCell>,
        file_idx: usize,
        width: usize,
        selected: bool,
    ) -> (r: Vec<Span>)
        requires
            old(hl).wf(),
        ensures
            strs::views(r@) == side_line(
                self@,
                old(hl).source(),
                split::cell_view(*cell),
                file_idx as nat,
                width as nat,
                selected,
            ),
            final(hl).wf(),
            final(hl).source() == old(hl).source(),
            final(hl).warmed() == old(hl).warmed(),
    {
        match cell {
            None => self.blank_side(cell, width, selected),
            Some(c) => {
                let bg = self.line_bg(c.kind, selected);
                let code = self.styled_fit(
                    hl,
                    file_idx,
                    c.text.as_str(),
                    sat_sub(width, SPLIT_PREFIX),
                    bg,
                );
                join_spans(one_span(self.side_number(c)), code)
            },
        }
    }

    /// Soft-wrap one side of a split pair into `>= 1` rows, each of `width` cells (prefix +
    /// code + tint fill). The first row carries the line number; continuation rows pad the
    /// 5-col prefix.
    fn side_line_rows(
        &self,
        hl: &mut HighlightCache,
        cell: &Option<SideCell>,
        file_idx: usize,
        width: usize,
        selected: bool,
    ) -> (r: Vec<Line>)
        requires
            old(hl).wf(),
        ensures
            strs::views(r@) == side_rows(
                self@,
                old(hl).source(),
                split::cell_view(*cell),
                file_idx as nat,
                width as nat,
                selected,
            ),
            r@.len() == (match split::cell_view(*cell) {
                Some(c) => wrap::line_count(
                    c.text,
                    wrap::monus(width as int, SPLIT_PREFIX as int),
                ),
                None => 1,
            }),
            final(hl).wf(),
            final(hl).source() == old(hl).source(),
            final(hl).warmed() == old(hl).warmed(),
    {
        match cell {
            None => {
                let r = one_line(Line { spans: self.blank_side(cell, width, selected) });
                assert(strs::views(r@).len() == r@.len());
                r
            },
            Some(c) => {
                let bg = self.line_bg(c.kind, selected);
                let budget: usize = sat_sub(width, SPLIT_PREFIX);
                let ghost h = hl.source();
                let runs = hl.runs(file_idx, c.text.as_str());
                let wrapped = wrap_runs(&runs, budget, bg);
                proof {
                    wrap::law_line_count_ignores_runs(strs::views(runs@), budget as nat, bg);
                }
                let ghost cv = strs::views(wrapped@);
                let ghost all = side_rows(
                    self@,
                    h,
                    split::cell_view(*cell),
                    file_idx as nat,
                    width as nat,
                    selected,
                );
                let mut out: Vec<Line> = Vec::new();
                let mut i: usize = 0;
                let n: usize = wrapped.len();
                assert(all.len() == n);
                while i < n
                    invariant
                        cv == strs::views(wrapped@),
                        n == wrapped.len(),
                        all.len() == n,
                        forall|k: int|
                            0 <= k < n ==> #[trigger] all[k] == side_row(
                                self@,
                                c@,
                                cv[k],
                                k,
                                width as nat,
                                bg,
                            ),
                        0 <= i <= n,
                        strs::views(out@) == all.take(i as int),
                    decreases n - i,
                {
                    assert(wrapped@[i as int]@ == cv[i as int]);
                    let front = if i == 0 {
                        self.side_number(c)
                    } else {
                        Span::styled(blanks(SPLIT_PREFIX), Style::new().fg(self.theme.muted))
                    };
                    let mut spans = join_spans(one_span(front), clone_spans(&wrapped[i].spans));
                    // Pad to the full column width so the divider/right side align.
                    fill_up(&mut spans, sat_add(SPLIT_PREFIX, wrapped[i].width), width, bg);
                    assert(strs::views(spans@) == all[i as int]);
                    let ghost before = out@;
                    out.push(Line { spans });
                    assert(strs::views(out@) == strs::views(before).push(all[i as int]));
                    assert(all.take(i + 1) == all.take(i as int).push(all[i as int]));
                    i += 1;
                }
                assert(all.take(n as int) == all);
                out
            },
        }
    }

    fn side_by_side(&self, l: Vec<Span>, r: Vec<Span>) -> (s: Line)
        ensures
            s@ == columns(self@.theme, strs::views(l@), strs::views(r@)),
    {
        broadcast use strs::lemma_views_push;

        let mut l = l;
        l.push(Span::styled(strs::owned(split_divider()), Style::new().fg(self.theme.subtle)));
        Line { spans: join_spans(l, r) }
    }

    fn under_side(&self, side: Side, body: Line, side_w: usize) -> (r: Line)
        requires
            side_w <= usize::MAX - 3,
        ensures
            r@ == beside(side, body@, side_w as nat),
    {
        broadcast use strs::lemma_views_push;

        let n: usize = split_divider().unicode_len();
        proof {
            reveal_strlit(" │ ");
        }
        let blank = paint::gap_of(side_w + n);
        match side {
            Side::Old => {
                let mut spans = body.spans;
                spans.push(blank);
                Line { spans }
            },
            Side::New => Line { spans: join_spans(one_span(blank), body.spans) },
        }
    }

    /// One split row as a single line.
    pub fn split_row_to_line(
        &self,
        hl: &mut HighlightCache,
        row: &SplitRow,
        selected: bool,
        side_w: usize,
    ) -> (r: Line)
        requires
            old(hl).wf(),
            side_w <= usize::MAX - 3,
        ensures
            r@ == split_line(self@, old(hl).source(), row@, selected, side_w as nat),
            final(hl).wf(),
            final(hl).source() == old(hl).source(),
            final(hl).warmed() == old(hl).warmed(),
    {
        match &row.kind {
            SplitRowKind::FileHeader => {
                let mut t = strs::owned("▌ ");
                t.append(row.text.as_str());
                Line { spans: one_span(Span::styled(t, self.header_style())) }
            },
            SplitRowKind::HunkHeader => Line {
                spans: one_span(Span::styled(row.text.clone(), self.hunk_style())),
            },
            SplitRowKind::Pair { left, right } => {
                let l = self.side_spans(hl, left, row.file_idx, side_w, selected);
                let r = self.side_spans(hl, right, row.file_idx, side_w, selected);
                self.side_by_side(l, r)
            },
            // The thread is under the column it is anchored to: old (deletion) comments on
            // the left, new (addition) comments on the right.
            SplitRowKind::Comment { side, line } => self.under_side(
                *side,
                self.comment_line_to_line(line, selected, side_w),
                side_w,
            ),
            SplitRowKind::Composer { side, line } => self.under_side(
                *side,
                self.composer_line_to_line(line, side_w),
                side_w,
            ),
        }
    }

    fn column_at(
        &self,
        rows: &Vec<Line>,
        i: usize,
        cell: &Option<SideCell>,
        width: usize,
        selected: bool,
    ) -> (r: Vec<Span>)
        ensures
            strs::views(r@) == column_at(
                self@,
                strs::views(rows@),
                i as int,
                split::cell_view(*cell),
                width as nat,
                selected,
            ),
    {
        if i < rows.len() {
            assert(strs::views(rows@)[i as int] == rows@[i as int]@);
            clone_spans(&rows[i].spans)
        } else {
            self.blank_side(cell, width, selected)
        }
    }

    fn pair_lines(
        &self,
        hl: &mut HighlightCache,
        left: &Option<SideCell>,
        right: &Option<SideCell>,
        file_idx: usize,
        selected: bool,
        side_w: usize,
        Ghost(row): Ghost<SplitRowV>,
    ) -> (r: Vec<Line>)
        requires
            old(hl).wf(),
            self@.wrap,
            row.file_idx == file_idx,
            row.kind == (SplitKindV::Pair {
                left: split::cell_view(*left),
                right: split::cell_view(*right),
            }),
        ensures
            strs::views(r@) == split_lines(
                self@,
                old(hl).source(),
                row,
                selected,
                side_w as nat,
            ),
            wrap::as_height(r@.len()) == wrap::split_height(
                row,
                wrap::monus(side_w as int, SPLIT_PREFIX as int),
            ),
            final(hl).wf(),
            final(hl).source() == old(hl).source(),
            final(hl).warmed() == old(hl).warmed(),
    {
        let ghost h = hl.source();
        let l = self.side_line_rows(hl, left, file_idx, side_w, selected);
        let r = self.side_line_rows(hl, right, file_idx, side_w, selected);
        let n: usize = if l.len() < r.len() {
            r.len()
        } else {
            l.len()
        };
        let ghost all = split_lines(self@, h, row, selected, side_w as nat);
        assert(strs::views(l@).len() == l.len());
        assert(strs::views(r@).len() == r.len());
        assert(all.len() == n);
        let mut out: Vec<Line> = Vec::new();
        let mut i: usize = 0;
        while i < n
            invariant
                all.len() == n,
                forall|k: int|
                    0 <= k < n ==> #[trigger] all[k] == columns(
                        self@.theme,
                        column_at(
                            self@,
                            strs::views(l@),
                            k,
                            split::cell_view(*left),
                            side_w as nat,
                            selected,
                        ),
                        column_at(
                            self@,
                            strs::views(r@),
                            k,
                            split::cell_view(*right),
                            side_w as nat,
                            selected,
                        ),
                    ),
                0 <= i <= n,
                strs::views(out@) == all.take(i as int),
            decreases n - i,
        {
            let a = self.column_at(&l, i, left, side_w, selected);
            let b = self.column_at(&r, i, right, side_w, selected);
            let line = self.side_by_side(a, b);
            assert(line@ == all[i as int]);
            let ghost before = out@;
            out.push(line);
            assert(strs::views(out@) == strs::views(before).push(all[i as int]));
            assert(all.take(i + 1) == all.take(i as int).push(all[i as int]));
            i += 1;
        }
        assert(all.take(n as int) == all);
        out
    }

    /// One logical split row expanded into its display lines. A single line unless `wrap` is
    /// on and a pair has code wide enough to wrap on either side; the pair's height is the
    /// taller of the two columns, with the shorter column blank-padded so the divider stays
    /// aligned. As many lines come as the row's height says.
    pub fn split_row_to_lines(
        &self,
        hl: &mut HighlightCache,
        row: &SplitRow,
        selected: bool,
        side_w: usize,
    ) -> (r: Vec<Line>)
        requires
            old(hl).wf(),
            side_w <= usize::MAX - 3,
        ensures
            strs::views(r@) == split_lines(
                self@,
                old(hl).source(),
                row@,
                selected,
                side_w as nat,
            ),
            self@.wrap ==> wrap::as_height(r@.len()) == wrap::split_height(
                row@,
                wrap::monus(side_w as int, SPLIT_PREFIX as int),
            ),
            !self@.wrap ==> r@.len() == 1,
            final(hl).wf(),
            final(hl).source() == old(hl).source(),
            final(hl).warmed() == old(hl).warmed(),
    {
        match &row.kind {
            SplitRowKind::Pair { left, right } if self.wrap => self.pair_lines(
                hl,
                left,
                right,
                row.file_idx,
                selected,
                side_w,
                Ghost(row@),
            ),
            _ => {
                let r = one_line(self.split_row_to_line(hl, row, selected, side_w));
                assert(strs::views(r@).len() == r@.len());
                r
            },
        }
    }
}

} // verus!
