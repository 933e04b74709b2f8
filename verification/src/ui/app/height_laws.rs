//! How tall rows are: as tall as they are drawn, and drawn as full as they can be.
use crate::ui::app::column_laws;
use crate::ui::app::paint;
use crate::ui::app::render;
use crate::ui::app::render_lines;
use crate::ui::app::scroll_laws;
use crate::ui::app::state::{AppV, ViewMode};
use crate::ui::app::wrap;
use crate::ui::app::wrap::{Wrapping, SPLIT_PREFIX, UNI_PREFIX};
use crate::ui::highlight::RunV;
use crate::ui::highlight_cache::SourceV;
use crate::ui::render_rows::rows::RowKindV;
use crate::ui::render_rows::split::{CellV, SplitKindV};
use crate::ui::render_rows::text;
use crate::ui::style::{Color, Rect, Style};
use vstd::prelude::*;

verus! {

/// Whether the colored pieces of a cell spell its code.
pub open spec fn cell_spelled(h: SourceV, f: nat, c: Option<CellV>) -> bool {
    c matches Some(x) ==> column_laws::runs_spell(h, f, x.text)
}

/// Whether the colored pieces of the code in row `i` spell it.
pub open spec fn row_spelled(a: AppV, h: SourceV, i: int) -> bool {
    match a.view {
        ViewMode::Unified => a.rows[i].kind is Line ==> a.rows[i].text.len() > 0
            && column_laws::runs_spell(h, a.rows[i].file_idx, a.rows[i].text.skip(1)),
        ViewMode::Split => match a.split_rows[i].kind {
            SplitKindV::Pair { left, right } => cell_spelled(h, a.split_rows[i].file_idx, left)
                && cell_spelled(h, a.split_rows[i].file_idx, right),
            _ => true,
        },
    }
}

/// A row is as tall as it is drawn, where the heights are those of the width that it is drawn
/// at: one line without soft-wrap, and else as many as its code takes.
pub proof fn law_rows_are_as_tall_as_drawn(a: AppV, h: SourceV, area: Rect, i: nat, y: u16)
    requires
        i < a.active_len(),
        a.wrap ==> a.geom.heights == wrap::heights_of(a, area.width as nat),
        row_spelled(a, h, i as int),
        render::row_block(a, h, area, i, y).0.len() <= 65535,
    ensures
        a.row_h(i) == render::row_block(a, h, area, i, y).0.len(),
        !a.wrap ==> a.row_h(i) == 1,
{
    reveal(render::row_block);
    let w = area.width as nat;
    let sel = a.in_selection(i);
    match a.view {
        ViewMode::Unified => {
            let row = a.rows[i as int];
            if let RowKindV::Line { kind, .. } = row.kind {
                let code = wrap::code_of(row.text);
                wrap::law_line_count_ignores_runs(
                    h.runs(row.file_idx, code),
                    wrap::monus(w as int, UNI_PREFIX as int),
                    paint::tint(a, kind, sel),
                );
                assert(code == row.text.skip(1));
                let lines = render_lines::row_lines(a, h, row, sel, w);
                assert(a.wrap ==> lines.len() == wrap::line_count(
                    code,
                    wrap::monus(w as int, UNI_PREFIX as int),
                ));
                assert(render::row_block(a, h, area, i, y).0.len() == lines.len());
            } else {
                assert(render::row_block(a, h, area, i, y).0.len() == 1);
            }
            if a.wrap {
                assert(a.geom.heights[i as int] == wrap::row_height(
                    row,
                    wrap::monus(w as int, UNI_PREFIX as int),
                ));
            }
        },
        ViewMode::Split => {
            let row = a.split_rows[i as int];
            let side_w = wrap::side_width(w);
            if let SplitKindV::Pair { left, right } = row.kind {
                lemma_side_rows(a, h, left, row.file_idx, side_w, sel);
                lemma_side_rows(a, h, right, row.file_idx, side_w, sel);
            }
        },
    }
}

proof fn lemma_side_rows(
    a: AppV,
    h: SourceV,
    cell: Option<CellV>,
    fi: nat,
    width: nat,
    selected: bool,
)
    requires
        cell_spelled(h, fi, cell),
    ensures
        render_lines::side_rows(a, h, cell, fi, width, selected).len() == (match cell {
            Some(c) => wrap::line_count(
                c.text,
                wrap::monus(width as int, SPLIT_PREFIX as int),
            ),
            None => 1,
        }),
{
    if let Some(c) = cell {
        wrap::law_line_count_ignores_runs(
            h.runs(fi, c.text),
            wrap::monus(width as int, SPLIT_PREFIX as int),
            paint::tint(a, c.kind, selected),
        );
    }
}

/// Whether every character of a text takes one cell.
pub open spec fn narrow(s: Seq<char>) -> bool {
    forall|i: int| 0 <= i < s.len() ==> text::cell(#[trigger] s[i]) == 1
}

spec fn full(o: Wrapping, budget: nat) -> bool {
    &&& o.w <= budget
    &&& forall|i: int| 0 <= i < o.lines.len() ==> (#[trigger] o.lines[i]).1 == budget
}

proof fn lemma_run_full(o: Wrapping, s: Seq<char>, n: nat, budget: nat, st: Style)
    requires
        n <= s.len(),
        narrow(s),
        budget > 0,
        full(o, budget),
    ensures
        full(wrap::run_among(o, s, n, budget, st).0, budget),
    decreases n,
{
    if n > 0 {
        lemma_run_full(o, s, (n - 1) as nat, budget, st);
        assert(text::cell(s[n - 1]) == 1);
    }
}

proof fn lemma_runs_full(runs: Seq<RunV>, n: nat, budget: nat, bg: Option<Color>)
    requires
        n <= runs.len(),
        forall|i: int| 0 <= i < runs.len() ==> narrow((#[trigger] runs[i]).text),
        budget > 0,
    ensures
        full(wrap::runs_among(runs, n, budget, bg), budget),
    decreases n,
{
    if n > 0 {
        lemma_runs_full(runs, (n - 1) as nat, budget, bg);
        let r = runs[n - 1];
        lemma_run_full(
            wrap::runs_among(runs, (n - 1) as nat, budget, bg),
            r.text,
            r.text.len(),
            budget,
            wrap::run_style(r.color, bg),
        );
    }
}

/// Where every character takes one cell, each visual line of code but the last is full, and the
/// last takes no more.
pub proof fn law_lines_of_code_are_full(runs: Seq<RunV>, budget: nat, bg: Option<Color>, i: int)
    requires
        budget > 0,
        forall|k: int| 0 <= k < runs.len() ==> narrow((#[trigger] runs[k]).text),
        0 <= i < wrap::wrapped_runs(runs, budget, bg).len(),
    ensures
        ({
            let lines = wrap::wrapped_runs(runs, budget, bg);
            &&& i < lines.len() - 1 ==> lines[i].1 == budget
            &&& lines[i].1 <= budget
        }),
{
    lemma_runs_full(runs, runs.len(), budget, bg);
}

proof fn lemma_fit_up_least(a: AppV, start: nat, t: nat, room: nat, end: nat, h: nat)
    requires
        start <= t <= end,
        scroll_laws::lines_between(a, t, end) + room == h,
    ensures
        ({
            let r = a.fit_up(start, t, room);
            &&& start <= r <= t
            &&& scroll_laws::lines_between(a, r, end) <= h
            &&& r > start ==> scroll_laws::lines_between(a, (r - 1) as nat, end) > h
        }),
    decreases t,
{
    if t > start {
        let p = (t - 1) as nat;
        lemma_front(a, p, end);
        if a.row_h(p) <= room {
            lemma_fit_up_least(a, start, p, (room - a.row_h(p)) as nat, end, h);
        }
    }
}

proof fn lemma_front(a: AppV, i: nat, j: nat)
    requires
        i < j,
    ensures
        scroll_laws::lines_between(a, i, j) == a.row_h(i) + scroll_laws::lines_between(
            a,
            i + 1,
            j,
        ),
    decreases j,
{
    if i + 1 < j {
        lemma_front(a, i, (j - 1) as nat);
    } else {
        assert(scroll_laws::lines_between(a, i, i) == 0);
        assert(scroll_laws::lines_between(a, i + 1, j) == 0);
    }
}

/// A file can be scrolled until its last row is at the bottom, and no further: what is left from
/// there on fits on the screen, or is a single row that does not, and from one row further up it
/// would not fit.
pub proof fn law_scrolling_ends_at_the_last_row(a: AppV, start: nat, end: nat, h: nat)
    requires
        start < end,
    ensures
        ({
            let t = a.max_scroll(start, end, h);
            &&& start <= t < end
            &&& scroll_laws::lines_between(a, t, end) <= h || t == end - 1
            &&& t > start ==> scroll_laws::lines_between(a, (t - 1) as nat, end) > h
        }),
{
    assert(scroll_laws::lines_between(a, end, end) == 0);
    lemma_fit_up_least(a, start, end, h, end, h);
    let t = a.fit_up(start, end, h);
    if t == end && end - 1 > start {
        let p = (end - 2) as nat;
        lemma_front(a, p, end);
    }
}

} // verus!
