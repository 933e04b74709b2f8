//! What the drawn lines of a diff spell: numbers, signs and code, the old text on the left and
//! the new one on the right.
use crate::diff::model::{LineKind, Side};
use crate::strs;
use crate::ui::app::paint;
use crate::ui::app::render_boxes;
use crate::ui::app::render_lines;
use crate::ui::app::state::AppV;
use crate::ui::app::wrap;
use crate::ui::app::wrap::Wrapping;
use crate::ui::highlight;
use crate::ui::highlight::RunV;
use crate::ui::highlight_cache::SourceV;
use crate::ui::render_rows::rows::{RowKindV, RowV};
use crate::ui::render_rows::split::{CellV, SplitKindV, SplitRowV};
use crate::ui::render_rows::text;
use crate::ui::style;
use crate::ui::style::{Color, SpanV, Style};
use vstd::prelude::*;

verus! {

/// The text of a line on the screen.
pub open spec fn spelled(spans: Seq<SpanV>) -> Seq<char>
    decreases spans.len(),
{
    if spans.len() == 0 {
        Seq::empty()
    } else {
        spelled(spans.drop_last()) + spans.last().text
    }
}

pub(crate) proof fn lemma_spelled_push(a: Seq<SpanV>, s: SpanV)
    ensures
        spelled(a.push(s)) == spelled(a) + s.text,
{
    assert(a.push(s).drop_last() == a);
}

pub(crate) proof fn lemma_spelled_one(s: SpanV)
    ensures
        spelled(seq![s]) == s.text,
{
    assert(seq![s] == Seq::<SpanV>::empty().push(s));
    lemma_spelled_push(Seq::empty(), s);
    assert(Seq::<char>::empty() + s.text == s.text);
}

pub(crate) proof fn lemma_spelled_add(a: Seq<SpanV>, b: Seq<SpanV>)
    ensures
        spelled(a + b) == spelled(a) + spelled(b),
    decreases b.len(),
{
    if b.len() == 0 {
        assert(a + b == a);
        assert(spelled(a) + spelled(b) == spelled(a));
    } else {
        lemma_spelled_add(a, b.drop_last());
        assert((a + b).drop_last() == a + b.drop_last());
        assert((a + b).last() == b.last());
        assert(spelled(a) + spelled(b.drop_last()) + b.last().text == spelled(a) + (spelled(
            b.drop_last(),
        ) + b.last().text));
    }
}

proof fn lemma_concat_prefix(ts: Seq<Seq<char>>, n: int)
    requires
        0 <= n < ts.len(),
    ensures
        strs::concat(ts.take(n + 1)) == strs::concat(ts.take(n)) + ts[n],
{
    assert(ts.take(n + 1).drop_last() == ts.take(n));
}

proof fn lemma_concat_fits(ts: Seq<Seq<char>>, n: int)
    requires
        0 <= n <= ts.len(),
    ensures
        text::cells(strs::concat(ts.take(n))) <= text::cells(strs::concat(ts)),
    decreases ts.len() - n,
{
    if n < ts.len() {
        lemma_concat_prefix(ts, n);
        text::lemma_cells_add(strs::concat(ts.take(n)), ts[n]);
        lemma_concat_fits(ts, n + 1);
    } else {
        assert(ts.take(n) == ts);
    }
}

pub(crate) proof fn lemma_fit_all(s: Seq<char>, max: nat)
    requires
        text::cells(s) <= max,
    ensures
        text::fit(s, max) == s,
{
    text::law_fit_is_longest(s, max);
    let f = text::fit(s, max);
    if f.len() < s.len() {
        assert(s.take(f.len() as int + 1) + s.skip(f.len() as int + 1) == s);
        text::lemma_cells_add(s.take(f.len() as int + 1), s.skip(f.len() as int + 1));
    }
    assert(s.take(s.len() as int) == s);
}

proof fn lemma_clipped_whole(runs: Seq<RunV>, n: nat, width: nat, bg: Option<Color>)
    requires
        n <= runs.len(),
        text::cells(strs::concat(highlight::run_texts(runs))) <= width,
    ensures
        ({
            let done = strs::concat(highlight::run_texts(runs).take(n as int));
            let (spans, used) = paint::clipped_runs(runs, n, width, bg);
            used == text::cells(done) && (used < width || text::cells(done) == width) && (spelled(
                spans,
            ) == done || hidden_tail(done, spelled(spans)))
        }),
    decreases n,
{
    let ts = highlight::run_texts(runs);
    if n == 0 {
        assert(ts.take(0) == Seq::<Seq<char>>::empty());
        assert(spelled(Seq::<SpanV>::empty()) == Seq::<char>::empty());
    } else {
        lemma_clipped_whole(runs, (n - 1) as nat, width, bg);
        lemma_concat_prefix(ts, n - 1);
        let r = runs[n - 1];
        let before = strs::concat(ts.take(n - 1));
        let done = strs::concat(ts.take(n as int));
        let (spans, used) = paint::clipped_runs(runs, (n - 1) as nat, width, bg);
        lemma_concat_fits(ts, n as int);
        text::lemma_cells_add(before, r.text);
        if used >= width {
            assert(text::cells(r.text) == 0);
            if spelled(spans) == before {
                assert(done == spelled(spans) + r.text);
            } else {
                let t = choose|t: Seq<char>|
                    text::cells(t) == 0 && before == #[trigger] (spelled(spans) + t);
                assert(done == spelled(spans) + (t + r.text));
                text::lemma_cells_add(t, r.text);
            }
            assert(hidden_tail(done, spelled(spans)));
        } else {
            assert(spelled(spans) == before || hidden_tail(before, spelled(spans)));
            lemma_clipped_exact(runs, (n - 1) as nat, width, bg);
            lemma_fit_all(r.text, (width - used) as nat);
            if r.text.len() > 0 {
                lemma_spelled_push(spans, style::span(r.text, wrap::run_style(r.color, bg)));
            } else {
                assert(before + r.text == before);
            }
        }
    }
}

proof fn lemma_clipped_exact(runs: Seq<RunV>, n: nat, width: nat, bg: Option<Color>)
    requires
        n <= runs.len(),
        text::cells(strs::concat(highlight::run_texts(runs))) <= width,
        paint::clipped_runs(runs, n, width, bg).1 < width,
    ensures
        spelled(paint::clipped_runs(runs, n, width, bg).0) == strs::concat(
            highlight::run_texts(runs).take(n as int),
        ),
        paint::clipped_runs(runs, n, width, bg).1 == text::cells(
            strs::concat(highlight::run_texts(runs).take(n as int)),
        ),
    decreases n,
{
    let ts = highlight::run_texts(runs);
    if n == 0 {
        assert(ts.take(0) == Seq::<Seq<char>>::empty());
        assert(spelled(Seq::<SpanV>::empty()) == Seq::<char>::empty());
    } else {
        let (spans, used) = paint::clipped_runs(runs, (n - 1) as nat, width, bg);
        assert(used < width);
        lemma_clipped_exact(runs, (n - 1) as nat, width, bg);
        lemma_concat_prefix(ts, n - 1);
        let r = runs[n - 1];
        let before = strs::concat(ts.take(n - 1));
        lemma_concat_fits(ts, n as int);
        text::lemma_cells_add(before, r.text);
        lemma_fit_all(r.text, (width - used) as nat);
        if r.text.len() > 0 {
            lemma_spelled_push(spans, style::span(r.text, wrap::run_style(r.color, bg)));
        } else {
            assert(before + r.text == before);
        }
    }
}

/// Whether `shown` is `s` without characters at its end that take no cells.
pub open spec fn hidden_tail(s: Seq<char>, shown: Seq<char>) -> bool {
    exists|t: Seq<char>| text::cells(t) == 0 && s == #[trigger] (shown + t)
}

/// Whether the runs of a line spell the line, as `HighlightCache::runs` says they do.
pub open spec fn runs_spell(h: SourceV, fi: nat, s: Seq<char>) -> bool {
    strs::concat(highlight::run_texts(h.runs(fi, s))) == s
}

/// Whether a text is spaces alone.
pub open spec fn blank(s: Seq<char>) -> bool {
    forall|i: int| 0 <= i < s.len() ==> #[trigger] s[i] == ' '
}

/// Whether a text is a line number at the right end of `w` columns, or blank without a number.
pub open spec fn shows_number(s: Seq<char>, n: Option<u32>, w: nat) -> bool {
    match n {
        Some(n) => {
            let d = strs::dec(n as nat);
            &&& s.len() == (if d.len() < w {
                w
            } else {
                d.len()
            })
            &&& s.skip(s.len() - d.len()) == d
            &&& blank(s.take(s.len() - d.len()))
        },
        None => s.len() == w && blank(s),
    }
}

proof fn lemma_number(n: Option<u32>, w: nat)
    ensures
        shows_number(paint::number(n, w), n, w),
{
    let s = paint::number(n, w);
    match n {
        Some(n) => {
            let d = strs::dec(n as nat);
            assert(s.skip(s.len() - d.len()) == d);
        },
        None => {},
    }
}

// ---- wrapped code ----

/// The texts of wrapped lines, in order.
pub open spec fn line_texts(lines: Seq<(Seq<SpanV>, nat)>) -> Seq<Seq<char>> {
    Seq::new(lines.len(), |i: int| spelled(lines[i].0))
}

proof fn lemma_flushed(cur: Seq<SpanV>, buf: Seq<char>, st: Style)
    ensures
        spelled(wrap::flushed(cur, buf, st)) == spelled(cur) + buf,
{
    if buf.len() > 0 {
        lemma_spelled_push(cur, style::span(buf, st));
    } else {
        assert(spelled(cur) + buf == spelled(cur));
    }
}

proof fn lemma_run_among(o: Wrapping, s: Seq<char>, n: nat, budget: nat, st: Style)
    requires
        n <= s.len(),
    ensures
        ({
            let (p, buf) = wrap::run_among(o, s, n, budget, st);
            strs::concat(line_texts(p.lines)) + spelled(p.cur) + buf == strs::concat(
                line_texts(o.lines),
            ) + spelled(o.cur) + s.take(n as int)
        }),
    decreases n,
{
    let all = strs::concat(line_texts(o.lines)) + spelled(o.cur);
    if n == 0 {
        assert(all + s.take(0) == all + Seq::<char>::empty());
    } else {
        lemma_run_among(o, s, (n - 1) as nat, budget, st);
        let (p, buf) = wrap::run_among(o, s, (n - 1) as nat, budget, st);
        let c = s[n - 1];
        assert(s.take(n as int) == s.take(n - 1).push(c));
        let before = strs::concat(line_texts(p.lines)) + spelled(p.cur) + buf;
        assert(all + s.take(n as int) == (all + s.take(n - 1)).push(c));
        if p.w + text::cell(c) > budget && p.w > 0 {
            let line = wrap::flushed(p.cur, buf, st);
            lemma_flushed(p.cur, buf, st);
            let ls = p.lines.push((line, p.w));
            assert(line_texts(ls) == line_texts(p.lines).push(spelled(line)));
            strs::lemma_concat_push(line_texts(p.lines), spelled(line));
            assert(strs::concat(line_texts(ls)) == before);
            assert(spelled(Seq::<SpanV>::empty()) == Seq::<char>::empty());
            assert(before + Seq::<char>::empty() + seq![c] == before.push(c));
        } else {
            assert(strs::concat(line_texts(p.lines)) + spelled(p.cur) + buf.push(c) == before.push(
                c,
            ));
        }
    }
}

proof fn lemma_runs_among(runs: Seq<RunV>, n: nat, budget: nat, bg: Option<Color>)
    requires
        n <= runs.len(),
    ensures
        ({
            let p = wrap::runs_among(runs, n, budget, bg);
            strs::concat(line_texts(p.lines)) + spelled(p.cur) == strs::concat(
                highlight::run_texts(runs).take(n as int),
            )
        }),
    decreases n,
{
    let ts = highlight::run_texts(runs);
    if n == 0 {
        assert(ts.take(0) == Seq::<Seq<char>>::empty());
        assert(line_texts(Seq::empty()) == Seq::<Seq<char>>::empty());
        assert(spelled(Seq::<SpanV>::empty()) == Seq::<char>::empty());
        assert(strs::concat(Seq::<Seq<char>>::empty()) == Seq::<char>::empty());
        assert(Seq::<char>::empty() + Seq::<char>::empty() == Seq::<char>::empty());
    } else {
        lemma_runs_among(runs, (n - 1) as nat, budget, bg);
        let r = runs[n - 1];
        let st = wrap::run_style(r.color, bg);
        let o = wrap::runs_among(runs, (n - 1) as nat, budget, bg);
        lemma_run_among(o, r.text, r.text.len(), budget, st);
        let (p, buf) = wrap::run_among(o, r.text, r.text.len(), budget, st);
        lemma_flushed(p.cur, buf, st);
        lemma_concat_prefix(ts, n - 1);
        assert(r.text.take(r.text.len() as int) == r.text);
        assert(strs::concat(line_texts(p.lines)) + (spelled(p.cur) + buf) == strs::concat(
            line_texts(p.lines),
        ) + spelled(p.cur) + buf);
    }
}

/// Wrapping loses nothing: the visual lines of a text spell it, one behind the other.
pub proof fn law_wrapped_code_is_whole(runs: Seq<RunV>, budget: nat, bg: Option<Color>)
    ensures
        strs::concat(line_texts(wrap::wrapped_runs(runs, budget, bg))) == strs::concat(
            highlight::run_texts(runs),
        ),
{
    let b = text::at_least_one(budget);
    lemma_runs_among(runs, runs.len(), b, bg);
    let p = wrap::runs_among(runs, runs.len(), b, bg);
    let ts = highlight::run_texts(runs);
    assert(ts.take(ts.len() as int) == ts);
    assert(line_texts(wrap::wrapped_runs(runs, budget, bg)) == line_texts(p.lines).push(
        spelled(p.cur),
    ));
    strs::lemma_concat_push(line_texts(p.lines), spelled(p.cur));
}

// ---- one column of the split view ----

/// Whether a text is a line of a column: `front`, a piece of code, and blanks.
pub open spec fn fronted(s: Seq<char>, front: Seq<char>, piece: Seq<char>) -> bool {
    exists|pad: Seq<char>| blank(pad) && s == #[trigger] (front + piece + pad)
}

/// Whether the lines of a column show the line number and the code of a cell: the number in
/// front of the first line, and the code over all of them. A column without a cell is blank.
pub open spec fn shows_cell(lines: Seq<Seq<char>>, cell: Option<CellV>, side_w: nat) -> bool {
    match cell {
        None => forall|i: int|
            0 <= i < lines.len() ==> blank(#[trigger] lines[i]) && lines[i].len() == side_w,
        Some(c) => exists|num: Seq<char>, pieces: Seq<Seq<char>>| #[trigger]
            cell_lines(lines, c, num, pieces),
    }
}

/// Whether the lines of a column are the number `num` and the pieces of the cell's code.
pub open spec fn cell_lines(
    lines: Seq<Seq<char>>,
    c: CellV,
    num: Seq<char>,
    pieces: Seq<Seq<char>>,
) -> bool {
    &&& shows_number(num, c.line, 4)
    &&& 1 <= pieces.len() <= lines.len()
    &&& strs::concat(pieces) == c.text
    &&& fronted(lines[0], num.push(' '), pieces[0])
    &&& forall|i: int|
        0 < i < pieces.len() ==> fronted(
            #[trigger] lines[i],
            seq![' ', ' ', ' ', ' ', ' '],
            pieces[i],
        )
    &&& forall|i: int| pieces.len() <= i < lines.len() ==> blank(#[trigger] lines[i])
}

/// The lines of one column.
pub open spec fn column(
    a: AppV,
    rows: Seq<Seq<SpanV>>,
    n: nat,
    cell: Option<CellV>,
    width: nat,
    selected: bool,
) -> Seq<Seq<char>> {
    Seq::new(
        n,
        |i: int| spelled(render_lines::column_at(a, rows, i, cell, width, selected)),
    )
}

proof fn lemma_column(
    a: AppV,
    h: SourceV,
    cell: Option<CellV>,
    fi: nat,
    n: nat,
    width: nat,
    selected: bool,
)
    requires
        n >= render_lines::side_rows(a, h, cell, fi, width, selected).len(),
        cell matches Some(c) ==> runs_spell(h, fi, c.text),
    ensures
        shows_cell(
            column(
                a,
                render_lines::side_rows(a, h, cell, fi, width, selected),
                n,
                cell,
                width,
                selected,
            ),
            cell,
            width,
        ),
{
    let rows = render_lines::side_rows(a, h, cell, fi, width, selected);
    let lines = column(a, rows, n, cell, width, selected);
    let b = render_lines::blank_column(a, cell, width, selected);
    lemma_spelled_one(b[0]);
    match cell {
        None => {
            assert(rows == seq![b]);
            assert forall|i: int| 0 <= i < lines.len() implies blank(#[trigger] lines[i])
                && lines[i].len() == width by {
                assert(lines[i] == spelled(b));
            }
        },
        Some(c) => {
            let bg = paint::tint(a, c.kind, selected);
            let budget = wrap::monus(width as int, wrap::SPLIT_PREFIX as int);
            let code = wrap::wrapped_runs(h.runs(fi, c.text), budget, bg);
            let pieces = line_texts(code);
            law_wrapped_code_is_whole(h.runs(fi, c.text), budget, bg);
            let num = paint::number(c.line, 4);
            lemma_number(c.line, 4);
            assert forall|i: int| 0 <= i < pieces.len() implies fronted(
                #[trigger] lines[i],
                if i == 0 {
                    num.push(' ')
                } else {
                    seq![' ', ' ', ' ', ' ', ' ']
                },
                pieces[i],
            ) by {
                let front = if i == 0 {
                    render_lines::side_number(a, c)
                } else {
                    style::span(text::spaces(5), style::colored(a.theme.muted))
                };
                assert(rows[i] == render_lines::side_row(a, c, code[i], i, width, bg));
                let head = seq![front] + code[i].0;
                lemma_spelled_one(front);
                lemma_spelled_add(seq![front], code[i].0);
                let used = wrap::SPLIT_PREFIX as nat + code[i].1;
                if i > 0 {
                    assert(front.text == seq![' ', ' ', ' ', ' ', ' ']);
                }
                if used < width {
                    let f = paint::fill((width - used) as nat, bg);
                    lemma_spelled_push(head, f);
                    assert(blank(f.text));
                    assert(lines[i] == front.text + pieces[i] + f.text);
                } else {
                    let e = Seq::<char>::empty();
                    assert(blank(e));
                    assert(front.text + pieces[i] + e == front.text + pieces[i]);
                    assert(lines[i] == front.text + pieces[i] + e);
                }
            }
            assert(fronted(lines[0], num.push(' '), pieces[0]));
            assert forall|i: int| 0 < i < pieces.len() implies fronted(
                #[trigger] lines[i],
                seq![' ', ' ', ' ', ' ', ' '],
                pieces[i],
            ) by {}
            assert forall|i: int| pieces.len() <= i < lines.len() implies blank(
                #[trigger] lines[i],
            ) by {
                assert(lines[i] == spelled(b));
            }
            assert(cell_lines(lines, c, num, pieces));
        },
    }
}

/// The text of the lines of a split row.
pub open spec fn split_texts(
    a: AppV,
    h: SourceV,
    row: SplitRowV,
    selected: bool,
    side_w: nat,
) -> Seq<Seq<char>> {
    let lines = render_lines::split_lines(a, h, row, selected, side_w);
    Seq::new(lines.len(), |i: int| spelled(lines[i]))
}

/// Whether each line is that of `left`, the divider, and that of `right`.
pub open spec fn side_by_side(
    lines: Seq<Seq<char>>,
    left: Seq<Seq<char>>,
    right: Seq<Seq<char>>,
) -> bool {
    &&& left.len() == lines.len()
    &&& right.len() == lines.len()
    &&& forall|i: int| 0 <= i < lines.len() ==> #[trigger] lines[i] == left[i] + " │ "@ + right[i]
}

proof fn lemma_columns(a: AppV, l: Seq<SpanV>, r: Seq<SpanV>)
    ensures
        spelled(render_lines::columns(a.theme, l, r)) == spelled(l) + " │ "@ + spelled(r),
{
    lemma_spelled_push(l, render_lines::divider_span(a.theme));
    lemma_spelled_add(l.push(render_lines::divider_span(a.theme)), r);
}

/// In the split view with long lines wrapped, the old text stands on the left and the new one
/// on the right: in front of the divider the lines of a pair spell the number and the code of
/// its left cell, and behind the divider those of its right cell; the column of a cell that
/// there is not is blank.
pub proof fn law_old_left_new_right(
    a: AppV,
    h: SourceV,
    row: SplitRowV,
    left: Option<CellV>,
    right: Option<CellV>,
    selected: bool,
    side_w: nat,
)
    requires
        a.wrap,
        row.kind == (SplitKindV::Pair { left, right }),
        left matches Some(c) ==> runs_spell(h, row.file_idx, c.text),
        right matches Some(c) ==> runs_spell(h, row.file_idx, c.text),
    ensures
        exists|l: Seq<Seq<char>>, r: Seq<Seq<char>>| #[trigger]
            side_by_side(split_texts(a, h, row, selected, side_w), l, r) && shows_cell(
                l,
                left,
                side_w,
            ) && shows_cell(r, right, side_w),
{
    let lr = render_lines::side_rows(a, h, left, row.file_idx, side_w, selected);
    let rr = render_lines::side_rows(a, h, right, row.file_idx, side_w, selected);
    let n = wrap::larger(lr.len(), rr.len());
    lemma_column(a, h, left, row.file_idx, n, side_w, selected);
    lemma_column(a, h, right, row.file_idx, n, side_w, selected);
    let l = column(a, lr, n, left, side_w, selected);
    let r = column(a, rr, n, right, side_w, selected);
    let lines = split_texts(a, h, row, selected, side_w);
    assert forall|i: int| 0 <= i < lines.len() implies #[trigger] lines[i] == l[i] + " │ "@
        + r[i] by {
        lemma_columns(
            a,
            render_lines::column_at(a, lr, i, left, side_w, selected),
            render_lines::column_at(a, rr, i, right, side_w, selected),
        );
    }
    assert(side_by_side(lines, l, r));
}

/// Whether a text shows the number and the code of a cell in one line: the code as a whole where
/// it fits.
pub open spec fn shows_clipped(s: Seq<char>, cell: Option<CellV>, side_w: nat) -> bool {
    match cell {
        None => blank(s) && s.len() == side_w,
        Some(c) => exists|num: Seq<char>, shown: Seq<char>| #[trigger]
            fronted(s, num.push(' '), shown) && shows_number(num, c.line, 4) && (text::cells(c.text)
                <= wrap::monus(side_w as int, 5) ==> shown == c.text || hidden_tail(c.text, shown)),
    }
}

proof fn lemma_side_line(
    a: AppV,
    h: SourceV,
    cell: Option<CellV>,
    fi: nat,
    width: nat,
    selected: bool,
)
    requires
        cell matches Some(c) ==> runs_spell(h, fi, c.text),
    ensures
        shows_clipped(
            spelled(render_lines::side_line(a, h, cell, fi, width, selected)),
            cell,
            width,
        ),
{
    match cell {
        None => {
            lemma_spelled_one(render_lines::blank_column(a, cell, width, selected)[0]);
        },
        Some(c) => {
            let bg = paint::tint(a, c.kind, selected);
            let budget = wrap::monus(width as int, wrap::SPLIT_PREFIX as int);
            let runs = h.runs(fi, c.text);
            let (spans, used) = paint::clipped_runs(runs, runs.len(), budget, bg);
            let ts = highlight::run_texts(runs);
            assert(ts.take(ts.len() as int) == ts);
            if text::cells(c.text) <= budget {
                lemma_clipped_whole(runs, runs.len(), budget, bg);
            }
            let num = paint::number(c.line, 4);
            lemma_number(c.line, 4);
            let front = render_lines::side_number(a, c);
            let rest = paint::fitted_runs(runs, budget, bg);
            lemma_spelled_one(front);
            lemma_spelled_add(seq![front], rest);
            let s = spelled(render_lines::side_line(a, h, cell, fi, width, selected));
            let shown = spelled(spans);
            if used < budget {
                let f = paint::fill((budget - used) as nat, bg);
                lemma_spelled_push(spans, f);
                assert(blank(f.text));
                assert(s == num.push(' ') + shown + f.text);
            } else {
                let e = Seq::<char>::empty();
                assert(blank(e));
                assert(s == num.push(' ') + shown + e);
            }
            assert(fronted(s, num.push(' '), shown));
        },
    }
}

/// The same with long lines clipped: one line for a pair, with the number and the code of its
/// left cell in front of the divider and those of its right cell behind it, as far as they fit.
pub proof fn law_old_left_new_right_clipped(
    a: AppV,
    h: SourceV,
    row: SplitRowV,
    left: Option<CellV>,
    right: Option<CellV>,
    selected: bool,
    side_w: nat,
)
    requires
        !a.wrap,
        row.kind == (SplitKindV::Pair { left, right }),
        left matches Some(c) ==> runs_spell(h, row.file_idx, c.text),
        right matches Some(c) ==> runs_spell(h, row.file_idx, c.text),
    ensures
        split_texts(a, h, row, selected, side_w).len() == 1,
        exists|l: Seq<char>, r: Seq<char>|
            split_texts(a, h, row, selected, side_w)[0] == #[trigger] (l + " │ "@ + r)
                && shows_clipped(l, left, side_w) && shows_clipped(r, right, side_w),
{
    let l = render_lines::side_line(a, h, left, row.file_idx, side_w, selected);
    let r = render_lines::side_line(a, h, right, row.file_idx, side_w, selected);
    lemma_side_line(a, h, left, row.file_idx, side_w, selected);
    lemma_side_line(a, h, right, row.file_idx, side_w, selected);
    lemma_columns(a, l, r);
    assert(split_texts(a, h, row, selected, side_w)[0] == spelled(l) + " │ "@ + spelled(r));
}

/// A box stands under the column of its side: that of the old text starts at the left edge, and
/// in front of that of the new one the left column and the divider are blank.
pub proof fn law_boxes_stand_under_their_side(
    a: AppV,
    h: SourceV,
    row: SplitRowV,
    side: Side,
    selected: bool,
    side_w: nat,
)
    requires
        (row.kind matches SplitKindV::Comment { side: s, .. } && s == side) || (row.kind matches
            SplitKindV::Composer { side: s, .. } && s == side),
    ensures
        ({
            let lines = split_texts(a, h, row, selected, side_w);
            let own = match row.kind {
                SplitKindV::Comment { line, .. } => render_boxes::comment_line(
                    a.theme,
                    line,
                    selected,
                    side_w,
                ),
                SplitKindV::Composer { line, .. } => render_boxes::composer_line(
                    a.theme,
                    line,
                    side_w,
                ),
                _ => Seq::empty(),
            };
            &&& lines.len() == 1
            &&& lines[0] == match side {
                Side::Old => spelled(own) + text::spaces(side_w + 3),
                Side::New => text::spaces(side_w + 3) + spelled(own),
            }
        }),
{
    reveal_strlit(" │ ");
    let pad = text::spaces(side_w + 3);
    let own = match row.kind {
        SplitKindV::Comment { line, .. } => render_boxes::comment_line(
            a.theme,
            line,
            selected,
            side_w,
        ),
        SplitKindV::Composer { line, .. } => render_boxes::composer_line(a.theme, line, side_w),
        _ => Seq::empty(),
    };
    let gap = paint::gap(side_w + wrap::divider().len());
    assert(gap.text == pad);
    lemma_spelled_push(own, gap);
    lemma_spelled_one(gap);
    lemma_spelled_add(seq![gap], own);
    let lines = split_texts(a, h, row, selected, side_w);
    assert(lines[0] == spelled(render_lines::beside(side, own, side_w)));
}

// ---- the unified view ----

/// The text of the lines of a unified row.
pub open spec fn row_texts(
    a: AppV,
    h: SourceV,
    row: RowV,
    selected: bool,
    width: nat,
) -> Seq<Seq<char>> {
    let lines = render_lines::row_lines(a, h, row, selected, width);
    Seq::new(lines.len(), |i: int| spelled(lines[i]))
}

/// Whether lines show a diff line: the old and the new number and the sign in front of the first
/// one, and the code over all of them.
pub open spec fn shows_line(
    lines: Seq<Seq<char>>,
    old_line: Option<u32>,
    new_line: Option<u32>,
    sign: Seq<char>,
    code: Seq<char>,
    old_num: Seq<char>,
    new_num: Seq<char>,
    pieces: Seq<Seq<char>>,
) -> bool {
    &&& shows_number(old_num, old_line, 5)
    &&& shows_number(new_num, new_line, 5)
    &&& pieces.len() == lines.len()
    &&& pieces.len() >= 1
    &&& strs::concat(pieces) == code
    &&& fronted(lines[0], old_num.push(' ') + new_num.push(' ') + sign, pieces[0])
    &&& forall|i: int|
        0 < i < lines.len() ==> fronted(#[trigger] lines[i], text::spaces(13), pieces[i])
}

/// In the unified view the lines of a diff line spell its number in the old text, its number in
/// the new one, its sign and its code, whether long lines are wrapped or not.
pub proof fn law_unified_lines_show_the_diff(
    a: AppV,
    h: SourceV,
    row: RowV,
    kind: LineKind,
    old_line: Option<u32>,
    new_line: Option<u32>,
    sign: char,
    code: Seq<char>,
    selected: bool,
    width: nat,
)
    requires
        row.kind == (RowKindV::Line { kind, old_line, new_line }),
        row.text == seq![sign] + code,
        runs_spell(h, row.file_idx, code),
    ensures
        exists|o: Seq<char>, n: Seq<char>, pieces: Seq<Seq<char>>| #[trigger]
            shows_line(
                row_texts(a, h, row, selected, width),
                old_line,
                new_line,
                seq![sign],
                code,
                o,
                n,
                pieces,
            ),
{
    let lines = row_texts(a, h, row, selected, width);
    let o = paint::number(old_line, 5);
    let n = paint::number(new_line, 5);
    lemma_number(old_line, 5);
    lemma_number(new_line, 5);
    assert(wrap::code_of(row.text) == code);
    assert(render_lines::sign_of(row.text) == seq![sign]);
    let bg = paint::tint(a, kind, selected);
    let prefix = render_lines::line_prefix(a, kind, old_line, new_line, row.text, bg);
    let front = o.push(' ') + n.push(' ') + seq![sign];
    assert(spelled(prefix) == front) by {
        lemma_spelled_one(prefix[0]);
        lemma_spelled_push(seq![prefix[0]], prefix[1]);
        assert(prefix == seq![prefix[0]].push(prefix[1]));
        assert(render_lines::gutter(old_line, new_line) == o.push(' ') + n.push(' '));
    }
    let runs = h.runs(row.file_idx, code);
    if a.wrap {
        let budget = wrap::monus(width as int, wrap::UNI_PREFIX as int);
        let wrapped = wrap::wrapped_runs(runs, budget, bg);
        let pieces = line_texts(wrapped);
        law_wrapped_code_is_whole(runs, budget, bg);
        assert forall|i: int| 0 <= i < lines.len() implies fronted(
            #[trigger] lines[i],
            if i == 0 {
                front
            } else {
                text::spaces(13)
            },
            pieces[i],
        ) by {
            let head = if i == 0 {
                prefix
            } else {
                seq![paint::fill(wrap::UNI_PREFIX as nat, bg)]
            };
            if i > 0 {
                lemma_spelled_one(head[0]);
            }
            lemma_spelled_add(head, wrapped[i].0);
            lemma_tinted(
                head + wrapped[i].0,
                wrap::UNI_PREFIX as nat + wrapped[i].1,
                width,
                bg,
                spelled(head),
                pieces[i],
            );
        }
        assert(fronted(lines[0], front, pieces[0]));
        assert forall|i: int| 0 < i < lines.len() implies fronted(
            #[trigger] lines[i],
            text::spaces(13),
            pieces[i],
        ) by {}
        assert(shows_line(lines, old_line, new_line, seq![sign], code, o, n, pieces));
    } else {
        let spans = render_lines::run_spans(runs, bg);
        lemma_run_spans(runs, bg);
        lemma_spelled_add(prefix, spans);
        lemma_tinted(
            prefix + spans,
            text::cells(render_lines::gutter(old_line, new_line)) + 1 + wrap::span_cells(spans),
            width,
            bg,
            front,
            code,
        );
        let pieces = seq![code];
        assert(strs::concat(pieces) == code) by {
            assert(pieces == Seq::<Seq<char>>::empty().push(code));
            strs::lemma_concat_push(Seq::empty(), code);
            assert(Seq::<char>::empty() + code == code);
        }
        assert(lines.len() == 1);
        assert(shows_line(lines, old_line, new_line, seq![sign], code, o, n, pieces));
    }
}

proof fn lemma_tinted(
    spans: Seq<SpanV>,
    used: nat,
    width: nat,
    bg: Option<Color>,
    front: Seq<char>,
    piece: Seq<char>,
)
    requires
        spelled(spans) == front + piece,
    ensures
        fronted(spelled(render_lines::tinted(spans, used, width, bg)), front, piece),
{
    let e = Seq::<char>::empty();
    assert(blank(e));
    assert(front + piece + e == front + piece);
    if used < width {
        let f = paint::fill((width - used) as nat, bg);
        lemma_spelled_push(spans, f);
        assert(blank(f.text));
        assert(front + piece + f.text == spelled(spans.push(f)));
    }
    if bg is Some && used < width {
        let f = paint::fill((width - used) as nat, bg);
        assert(spelled(render_lines::tinted(spans, used, width, bg)) == front + piece + f.text);
    } else {
        assert(spelled(render_lines::tinted(spans, used, width, bg)) == front + piece + e);
    }
}

proof fn lemma_run_spans(runs: Seq<RunV>, bg: Option<Color>)
    ensures
        spelled(render_lines::run_spans(runs, bg)) == strs::concat(highlight::run_texts(runs)),
    decreases runs.len(),
{
    let all = render_lines::run_spans(runs, bg);
    let ts = highlight::run_texts(runs);
    if runs.len() > 0 {
        lemma_run_spans(runs.drop_last(), bg);
        assert(all.drop_last() == render_lines::run_spans(runs.drop_last(), bg));
        assert(ts.drop_last() == highlight::run_texts(runs.drop_last()));
    }
}

} // verus!
