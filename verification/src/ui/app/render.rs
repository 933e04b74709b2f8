//! Frame layout and pane rendering.
use crate::strs;
use crate::ui::app::comments;
use crate::ui::app::nav;
use crate::ui::app::paint;
use crate::ui::app::paint::{blanks, elide_left, gap_of, pad_width};
use crate::ui::app::render_boxes;
use crate::ui::app::render_boxes::to_coord;
use crate::ui::app::render_lines;
use crate::ui::app::state;
use crate::ui::app::state::{App, AppV, ButtonAction, ButtonV, Focus, Hit, HitV, ViewMode};
use crate::ui::app::wrap;
use crate::ui::app::wrap::{sat_add, sat_sub, split_divider, split_side_w};
use crate::ui::highlight_cache::{HighlightCache, SourceV};
use crate::ui::render_rows::rows::{RowKind, RowKindV};
use crate::ui::render_rows::split::{SplitKindV, SplitRowKind};
use crate::ui::render_rows::text;
use crate::ui::render_rows::text::str_width;
use crate::ui::render_rows::threads::{has_id, CommentKind, ComposerKind};
use crate::diff::model::Side;
use crate::ui::sidebar;
use crate::ui::sidebar::{base_of, file_comment_state, file_status, SbRow, SbRowV};
use crate::ui::style;
use crate::ui::style::{Color, Line, Rect, Span, SpanV, Style};
use ratatui::layout::{Constraint, Direction, Layout};
use vstd::prelude::*;

verus! {

/// Where a scrollbar stands: how many positions it has, which one it is at, and how many
/// lines are on the screen.
#[derive(Debug, Clone, Copy, PartialEq, Eq, Structural)]
pub struct Bar {
    pub area: Rect,
    pub length: usize,
    pub position: usize,
    pub viewport: usize,
}

/// A part of the screen with its lines, and its scrollbar where it has one.
#[derive(Debug)]
pub struct Pane {
    pub area: Rect,
    pub lines: Vec<Line>,
    pub bar: Option<Bar>,
}

/// What a frame shows.
#[derive(Debug)]
pub struct Screen {
    /// The file list, where it is shown.
    pub sidebar: Option<Pane>,
    /// The frame around the diff, and its color.
    pub panel: Rect,
    pub border: Color,
    pub diff: Pane,
    pub footer: Pane,
    /// A worker should highlight the current file ahead.
    pub warm: bool,
}

/// What a [`Pane`] holds.
#[verifier::ext_equal]
pub struct PaneV {
    pub area: Rect,
    pub lines: Seq<Seq<SpanV>>,
    pub bar: Option<Bar>,
}

/// What a frame shows.
#[verifier::ext_equal]
pub struct ScreenV {
    pub sidebar: Option<PaneV>,
    pub panel: Rect,
    pub border: Color,
    pub diff: PaneV,
    pub footer: PaneV,
    pub warm: bool,
}

impl View for Pane {
    type V = PaneV;

    open spec fn view(&self) -> PaneV {
        PaneV { area: self.area, lines: strs::views(self.lines@), bar: self.bar }
    }
}

/// The view of an optional pane.
pub open spec fn pane_view(p: Option<Pane>) -> Option<PaneV> {
    match p {
        Some(p) => Some(p@),
        None => None,
    }
}

impl View for Screen {
    type V = ScreenV;

    open spec fn view(&self) -> ScreenV {
        ScreenV {
            sidebar: pane_view(self.sidebar),
            panel: self.panel,
            border: self.border,
            diff: self.diff@,
            footer: self.footer@,
            warm: self.warm,
        }
    }
}

/// Where the parts of a frame stand: the file list (nowhere where it is not shown), the frame
/// around the diff, and the footer.
#[derive(Debug, Clone, Copy, PartialEq, Eq, Structural)]
pub struct Places {
    pub tree: Option<Rect>,
    pub panel: Rect,
    pub footer: Rect,
}

/// The body of an area, above a footer of one row.
pub open spec fn body_rows(area: Rect) -> (Rect, Rect) {
    (
        Rect { height: (area.height - 1) as u16, ..area },
        Rect { y: (area.y + area.height - 1) as u16, height: 1, ..area },
    )
}

/// A column of `width` cells at the left of an area, and what is left of it.
pub open spec fn two_columns(area: Rect, width: u16) -> (Rect, Rect) {
    (
        Rect { width, ..area },
        Rect { x: (area.x + width) as u16, width: (area.width - width) as u16, ..area },
    )
}

/// An area, cut off where it would reach beyond the last coordinate.
pub open spec fn within(area: Rect) -> Rect {
    Rect {
        width: if area.x + area.width > 65535 {
            (65535 - area.x) as u16
        } else {
            area.width
        },
        height: if area.y + area.height > 65535 {
            (65535 - area.y) as u16
        } else {
            area.height
        },
        ..area
    }
}

/// `Layout::split` of an area into rows: the body, and below it the footer, one row high. The
/// area is first cut off at the last coordinate (`Rect::new`). Both parts are as wide as what
/// is left of it and start at its left. How the solver shares out a height that has no room for
/// both is not stated.
#[verifier::external_body]
fn split_rows(area: Rect) -> (r: (Rect, Rect))
    ensures
        r.0.x == area.x && r.0.width == within(area).width,
        r.1.x == area.x && r.1.width == within(area).width,
        within(area).height >= 2 ==> r == body_rows(within(area)),
{
    let whole = ratatui::layout::Rect::new(area.x, area.y, area.width, area.height);
    let rows = Layout::default()
        .direction(Direction::Vertical)
        .constraints([Constraint::Min(1), Constraint::Length(1)])
        .split(whole);
    let rect = |r: ratatui::layout::Rect| {
        Rect { x: r.x, y: r.y, width: r.width, height: r.height }
    };
    (rect(rows[0]), rect(rows[1]))
}

/// `Layout::split` of an area into columns: one of `width` cells at the left, and what is
/// left. The area is first cut off at the last coordinate (`Rect::new`). Both parts are as high
/// as what is left of it and start at its top. How the solver shares out a width that has no
/// room for both is not stated.
#[verifier::external_body]
fn split_columns(area: Rect, width: u16) -> (r: (Rect, Rect))
    ensures
        r.0.y == area.y && r.0.height == within(area).height,
        r.1.y == area.y && r.1.height == within(area).height,
        width < within(area).width ==> r == two_columns(within(area), width),
{
    let whole = ratatui::layout::Rect::new(area.x, area.y, area.width, area.height);
    let cols = Layout::default()
        .direction(Direction::Horizontal)
        .constraints([Constraint::Length(width), Constraint::Min(1)])
        .split(whole);
    let rect = |r: ratatui::layout::Rect| {
        Rect { x: r.x, y: r.y, width: r.width, height: r.height }
    };
    (rect(cols[0]), rect(cols[1]))
}

/// One more, or the largest.
pub open spec fn next16(n: u16) -> int {
    if n == 65535 {
        65535
    } else {
        n + 1
    }
}

/// The start of what a border leaves of `len` cells from `x` on.
pub open spec fn inner_start(x: u16, len: u16) -> u16 {
    let end = if x + len > 65535 {
        65535
    } else {
        x + len
    };
    if next16(x) < end {
        next16(x) as u16
    } else {
        end as u16
    }
}

/// What a border leaves of a rectangle.
pub open spec fn inside_of(r: Rect) -> Rect {
    Rect {
        x: inner_start(r.x, r.width),
        y: inner_start(r.y, r.height),
        width: wrap::monus(r.width as int, 2) as u16,
        height: wrap::monus(r.height as int, 2) as u16,
    }
}

fn start_inside(x: u16, len: u16) -> (r: u16)
    ensures
        r == inner_start(x, len),
{
    let end: u16 = if len > 65535 - x {
        65535
    } else {
        x + len
    };
    let next: u16 = if x == 65535 {
        x
    } else {
        x + 1
    };
    if next < end {
        next
    } else {
        end
    }
}

fn less_two(n: u16) -> (r: u16)
    ensures
        r == wrap::monus(n as int, 2),
{
    if n >= 2 {
        n - 2
    } else {
        0
    }
}

/// What a border leaves of a rectangle.
pub fn inner_rect(r: Rect) -> (i: Rect)
    ensures
        i == inside_of(r),
{
    Rect {
        x: start_inside(r.x, r.width),
        y: start_inside(r.y, r.height),
        width: less_two(r.width),
        height: less_two(r.height),
    }
}

/// The rightmost column of a rectangle.
pub open spec fn right_column(r: Rect) -> Rect {
    Rect {
        x: render_boxes::coord((r.x + wrap::monus(r.width as int, 1)) as nat),
        y: r.y,
        width: 1,
        height: r.height,
    }
}

/// A rectangle without its rightmost column.
pub open spec fn without_column(r: Rect) -> Rect {
    Rect { width: wrap::monus(r.width as int, 1) as u16, ..r }
}

fn last_column(r: Rect) -> (c: Rect)
    ensures
        c == right_column(r),
{
    let w: usize = sat_sub(r.width as usize, 1);
    Rect { x: to_coord(r.x as usize + w), y: r.y, width: 1, height: r.height }
}

fn all_but_column(r: Rect) -> (c: Rect)
    ensures
        c == without_column(r),
{
    Rect {
        x: r.x,
        y: r.y,
        width: if r.width > 0 {
            r.width - 1
        } else {
            0
        },
        height: r.height,
    }
}

impl AppV {
    /// The width that comment bodies are wrapped to in a diff of `inner` cells: what a box
    /// leaves of it, or of a column.
    pub open spec fn body_width(self, inner: nat) -> nat {
        match self.view {
            // Margin, borders, indent of the body, and a scrollbar.
            ViewMode::Unified => wrap::monus(inner as int, 8),
            ViewMode::Split => wrap::monus(
                (wrap::monus(inner as int, 1 + text::cells(wrap::divider()) as int) / 2) as int,
                7,
            ),
        }
    }

    /// With comment bodies wrapped to a diff of `inner` cells, unless the divider is being
    /// dragged.
    #[verifier::opaque]
    pub open spec fn comment_synced(self, inner: u16) -> AppV {
        let cw = self.body_width(inner as nat);
        if cw != self.comment_wrap && !self.resizing {
            let a = AppV { comment_wrap: cw, ..self };
            if self.threads.len() > 0 || self.composer is Some {
                a.rebuilt()
            } else {
                a
            }
        } else {
            self
        }
    }

    /// Whether the file list is shown beside a diff in `body`.
    pub open spec fn shows_tree(self, body: Rect) -> bool {
        self.has_sidebar() && body.width >= 60
    }

    /// With the places of the file list and of its scrollbar, and the height of the diff.
    #[verifier::opaque]
    pub open spec fn placed(self, tree: Option<Rect>, inner: Rect) -> AppV {
        let area = match tree {
            Some(r) => r,
            None => style::no_rect(),
        };
        AppV {
            sidebar_area: area,
            sidebar_sb: if area.width > 0 && self.sidebar_rows.len() > area.height {
                right_column(area)
            } else {
                style::no_rect()
            },
            height: inner.height as nat,
            ..self
        }
    }

    /// Whether the file has more display lines than the screen.
    pub open spec fn overflows(self) -> bool {
        self.display_lines(self.file_span.0, self.file_span.1) > self.height
    }

    /// With the place of the diff and of its scrollbar, which takes a column where the file
    /// does not fit.
    #[verifier::opaque]
    pub open spec fn with_diff_area(self, inner: Rect) -> AppV {
        AppV {
            diff_area: if self.overflows() {
                without_column(inner)
            } else {
                inner
            },
            diff_sb: if self.overflows() {
                right_column(inner)
            } else {
                style::no_rect()
            },
            ..self
        }
    }

    /// Scrolled no further than the file goes.
    #[verifier::opaque]
    pub open spec fn scroll_kept(self) -> AppV {
        let (start, end) = self.file_span;
        AppV {
            scroll: nav::clamped(
                self.scroll as int,
                start,
                self.max_scroll(start, end, text::at_least_one(self.height)),
            ),
            ..self
        }
    }

    /// With everything in its place.
    #[verifier::opaque]
    pub open spec fn laid_out(self, p: Places) -> AppV {
        let inner = inside_of(p.panel);
        let a = self.comment_synced(inner.width).placed(p.tree, inner).with_heights(
            inner.width as usize,
        ).with_diff_area(inner);
        a.with_heights(a.diff_area.width as usize).scroll_kept()
    }

    /// With these buttons on the screen.
    #[verifier::opaque]
    pub open spec fn with_hits(self, hits: Seq<HitV>) -> AppV {
        AppV { button_hits: hits, ..self }
    }

    /// Whether the comment button shows on row `idx`: on the last row of the selection, where
    /// the composer would open.
    pub open spec fn add_button_at(self, idx: nat) -> bool {
        self.composer is None && self.active_pane() == Focus::Diff && idx == self.bounds().1
    }
}

// ---- the file list ----

/// The indent of a row of the file list.
pub open spec fn indent(depth: nat) -> Seq<char> {
    text::spaces(wrap::saturated(2 * (depth + 1) as int) as nat)
}

/// The path of file `fi`, or nothing.
pub open spec fn path_of(a: AppV, fi: nat) -> Seq<char> {
    if fi < a.files.len() {
        a.files[fi as int].display_path()
    } else {
        Seq::empty()
    }
}

/// A sign, a number, and a space in front.
pub open spec fn counted(sign: char, n: nat) -> Seq<char> {
    seq![' ', sign] + strs::dec(n)
}

/// A directory in the file list, `w` cells wide.
pub open spec fn dir_line(
    a: AppV,
    path: Seq<char>,
    name: Seq<char>,
    depth: nat,
    cursor: bool,
    w: nat,
) -> Seq<SpanV> {
    let t = a.theme;
    let ind = indent(depth);
    let avail = wrap::monus(w as int, (ind.len() + 2) as int);
    let bg = if cursor {
        Some(t.cursor_bg)
    } else {
        None
    };
    let st = style::on(style::colored(t.muted), bg);
    seq![
        style::span(ind, style::on(style::plain(), bg)),
        style::span(
            if a.collapsed.contains(path) {
                "▶ "@
            } else {
                "▼ "@
            },
            st,
        ),
        style::span(paint::padded(paint::elided(name, avail), avail), st),
    ]
}

/// The letter of a file's change, and its color.
pub open spec fn letter_of(a: AppV, fi: nat) -> (char, Color) {
    if fi < a.files.len() {
        sidebar::status_of(a.files[fi as int], a.theme)
    } else {
        ('M', a.theme.warn)
    }
}

/// The dot in front of a file's name, and its color: filled with an open thread, hollow where
/// all are resolved, none without threads.
pub open spec fn dot_of(a: AppV, path: Seq<char>) -> (Seq<char>, Color) {
    match sidebar::comment_state(a.threads, path) {
        Some(true) => ("● "@, a.theme.warn),
        Some(false) => ("○ "@, a.theme.muted),
        None => ("  "@, a.theme.none),
    }
}

/// The added and deleted lines of a file.
pub open spec fn stats_of(a: AppV, fi: nat) -> (usize, usize) {
    if fi < a.file_stats.len() {
        a.file_stats[fi as int]
    } else {
        (0usize, 0usize)
    }
}

/// The background of a file in the file list.
pub open spec fn file_bg(a: AppV, fi: nat, cursor: bool) -> Option<Color> {
    if cursor {
        Some(a.theme.cursor_bg)
    } else if fi == a.current_file {
        Some(a.theme.unfocus_bg)
    } else {
        None
    }
}

/// The style of a file's name.
pub open spec fn name_style(a: AppV, fi: nat) -> Style {
    if fi == a.current_file {
        Style { fg: Some(a.theme.text_strong), bold: true, ..style::plain() }
    } else {
        style::colored(a.theme.text)
    }
}

/// The name of a file in what `w` cells leave beside `taken` cells and the counts.
pub open spec fn file_label(path: Seq<char>, w: nat, taken: nat, counts: nat) -> Seq<char> {
    let avail = wrap::monus(wrap::monus(w as int, taken as int) as int, counts as int);
    paint::padded(paint::elided(sidebar::base_part(path), avail), avail)
}

/// A file in the file list, `w` cells wide.
pub open spec fn file_line(a: AppV, fi: nat, depth: nat, cursor: bool, w: nat) -> Seq<SpanV> {
    let bg = file_bg(a, fi, cursor);
    let ind = indent(depth);
    let path = path_of(a, fi);
    let plus = counted('+', stats_of(a, fi).0 as nat);
    let minus = counted('-', stats_of(a, fi).1 as nat);
    seq![
        style::span(ind, style::on(style::plain(), bg)),
        style::span(
            seq![letter_of(a, fi).0, ' '],
            style::on(style::colored(letter_of(a, fi).1), bg),
        ),
        style::span(dot_of(a, path).0, style::on(style::colored(dot_of(a, path).1), bg)),
        style::span(
            file_label(path, w, ind.len() + 4, plus.len() + minus.len()),
            style::on(name_style(a, fi), bg),
        ),
        style::span(plus, style::on(style::colored(a.theme.added), bg)),
        style::span(minus, style::on(style::colored(a.theme.removed), bg)),
    ]
}

/// Row `idx` of the file list, `w` cells wide.
pub open spec fn tree_line(a: AppV, idx: nat, w: nat) -> Seq<SpanV> {
    let cursor = a.active_pane() == Focus::Sidebar && idx == a.sidebar_sel;
    match a.sidebar_rows[idx as int] {
        SbRowV::Dir { path, name, depth } => dir_line(a, path, name, depth, cursor, w),
        SbRowV::File { idx: fi, depth } => file_line(a, fi, depth, cursor, w),
    }
}

/// The top row of the file list in an area.
pub open spec fn tree_top(a: AppV, area: Rect) -> nat {
    nav::smaller(
        a.sidebar_scroll,
        wrap::monus(a.sidebar_rows.len() as int, area.height as int),
    )
}

/// The file list in an area, with a scrollbar where it does not fit.
pub open spec fn tree_pane(a: AppV, area: Rect) -> PaneV {
    let n = a.sidebar_rows.len();
    let h = area.height as nat;
    let top = tree_top(a, area);
    let w = wrap::monus(
        area.width as int,
        if n > h {
            1
        } else {
            0
        },
    );
    PaneV {
        area,
        lines: Seq::new(
            (nav::smaller(n, top + h) - top) as nat,
            |i: int| tree_line(a, top + i as nat, w),
        ),
        bar: if n > h {
            Some(
                Bar {
                    area,
                    length: wrap::saturated(n - h + 1),
                    position: top as usize,
                    viewport: h as usize,
                },
            )
        } else {
            None
        },
    }
}

// ---- the diff ----

/// The lines of a unified row, and its buttons.
pub open spec fn unified_block(a: AppV, h: SourceV, area: Rect, idx: nat, y: u16) -> (
    Seq<Seq<SpanV>>,
    Seq<HitV>,
) {
    let w = area.width as nat;
    let row = a.rows[idx as int];
    let t = a.theme;
    match row.kind {
        RowKindV::Comment(cl) => if cl.kind is Actions {
            let (line, hits) = render_boxes::action_row(
                t,
                render_boxes::thread_buttons(a, cl),
                render_boxes::box_border(t, cl, false),
                area.x,
                y,
                w,
                0,
                w,
            );
            (seq![line], hits)
        } else {
            (render_lines::row_lines(a, h, row, a.in_selection(idx), w), Seq::empty())
        },
        RowKindV::Composer(k) => if k is Hint {
            let (line, hits) = render_boxes::action_row(
                t,
                render_boxes::own_buttons(t),
                t.accent,
                area.x,
                y,
                w,
                0,
                w,
            );
            (seq![line], hits)
        } else {
            (render_lines::row_lines(a, h, row, a.in_selection(idx), w), Seq::empty())
        },
        RowKindV::Line { .. } => with_add_button(
            a,
            render_lines::row_lines(a, h, row, a.in_selection(idx), w),
            idx,
            area,
            y,
        ),
        _ => (render_lines::row_lines(a, h, row, a.in_selection(idx), w), Seq::empty()),
    }
}

/// Lines with the comment button on the first of them, where it shows.
pub open spec fn with_add_button(a: AppV, lines: Seq<Seq<SpanV>>, idx: nat, area: Rect, y: u16) -> (
    Seq<Seq<SpanV>>,
    Seq<HitV>,
) {
    if a.add_button_at(idx) && lines.len() > 0 {
        let (line, hits) = render_boxes::right_button(
            a.theme,
            lines[0],
            area.width as nat,
            "comment(i)"@,
            a.theme.accent,
            ButtonV::AddComment,
            area.x,
            y,
        );
        (lines.update(0, line), hits)
    } else {
        (lines, Seq::empty())
    }
}

/// Where a box under one column starts.
pub open spec fn column_start(side: Side, side_w: nat) -> nat {
    match side {
        Side::Old => 0,
        Side::New => side_w + wrap::divider().len(),
    }
}

/// The lines of a split row, and its buttons.
pub open spec fn split_block(a: AppV, h: SourceV, area: Rect, idx: nat, y: u16) -> (
    Seq<Seq<SpanV>>,
    Seq<HitV>,
) {
    let w = area.width as nat;
    let side_w = wrap::side_width(w);
    let row = a.split_rows[idx as int];
    let t = a.theme;
    match row.kind {
        SplitKindV::Comment { side, line: cl } => if cl.kind is Actions {
            let (line, hits) = render_boxes::action_row(
                t,
                render_boxes::thread_buttons(a, cl),
                render_boxes::box_border(t, cl, false),
                area.x,
                y,
                w,
                column_start(side, side_w),
                side_w,
            );
            (seq![line], hits)
        } else {
            (render_lines::split_lines(a, h, row, a.in_selection(idx), side_w), Seq::empty())
        },
        SplitKindV::Composer { side, line: k } => if k is Hint {
            let (line, hits) = render_boxes::action_row(
                t,
                render_boxes::own_buttons(t),
                t.accent,
                area.x,
                y,
                w,
                column_start(side, side_w),
                side_w,
            );
            (seq![line], hits)
        } else {
            (render_lines::split_lines(a, h, row, a.in_selection(idx), side_w), Seq::empty())
        },
        SplitKindV::Pair { .. } => with_add_button(
            a,
            render_lines::split_lines(a, h, row, a.in_selection(idx), side_w),
            idx,
            area,
            y,
        ),
        _ => (render_lines::split_lines(a, h, row, a.in_selection(idx), side_w), Seq::empty()),
    }
}

/// The lines of a row of the active view, and its buttons.
#[verifier::opaque]
pub open spec fn row_block(a: AppV, h: SourceV, area: Rect, idx: nat, y: u16) -> (
    Seq<Seq<SpanV>>,
    Seq<HitV>,
) {
    match a.view {
        ViewMode::Unified => unified_block(a, h, area, idx, y),
        ViewMode::Split => split_block(a, h, area, idx, y),
    }
}

/// The first `n` of `s`, or all.
pub open spec fn at_most<T>(s: Seq<T>, n: nat) -> Seq<T> {
    if s.len() > n {
        s.take(n as int)
    } else {
        s
    }
}

/// `lines` and `hits`, and those of the rows `[idx, end)` below them, as far as the area
/// goes.
pub open spec fn rows_below(
    a: AppV,
    h: SourceV,
    area: Rect,
    idx: nat,
    end: nat,
    lines: Seq<Seq<SpanV>>,
    hits: Seq<HitV>,
) -> (Seq<Seq<SpanV>>, Seq<HitV>)
    decreases end - idx,
{
    if lines.len() >= area.height || idx >= end {
        (lines, hits)
    } else {
        let y = render_boxes::coord(area.y as nat + lines.len());
        let (ls, hs) = row_block(a, h, area, idx, y);
        rows_below(
            a,
            h,
            area,
            idx + 1,
            end,
            at_most(lines + ls, area.height as nat),
            hits + hs,
        )
    }
}

/// The lines of the diff and its buttons.
pub open spec fn diff_lines(a: AppV, h: SourceV) -> (Seq<Seq<SpanV>>, Seq<HitV>) {
    rows_below(
        a,
        h,
        a.diff_area,
        wrap::larger(a.scroll, a.file_span.0),
        nav::smaller(a.file_span.1, a.active_len()),
        Seq::empty(),
        Seq::empty(),
    )
}

/// The scrollbar of the diff, where the file does not fit: measured in display lines, so that
/// the thumb tracks wrapped content too.
pub open spec fn diff_bar(a: AppV, inner: Rect) -> Option<Bar> {
    let (start, end) = a.file_span;
    let total = a.display_lines(start, end);
    if total > a.height {
        let max_top = total - a.height;
        let at = a.display_lines(start, a.scroll);
        Some(
            Bar {
                area: inner,
                length: wrap::saturated(max_top + 1),
                position: nav::smaller(at as nat, max_top as nat) as usize,
                viewport: a.height as usize,
            },
        )
    } else {
        None
    }
}

/// The key hints for the pane that keys act on.
pub open spec fn legend(a: AppV) -> Seq<char> {
    if a.composer is Some {
        "ctrl+s submit · esc cancel"@
    } else {
        match a.active_pane() {
            Focus::Sidebar => "j/k move · enter open · h/l fold · tab view · q quit"@,
            Focus::Diff => "j/k move · v select · n/N comments · [/] files · tab view · w wrap · y copy · esc back · q quit"@,
        }
    }
}

/// The footer: the status at the left and the key hints at the right. Where there is no room
/// for both, the status wins.
pub open spec fn footer_line(a: AppV, width: nat) -> Seq<SpanV> {
    let status = style::span(a.status, style::colored(a.theme.muted));
    let hints = style::span(legend(a), style::colored(a.theme.faint));
    let sl = text::cells(a.status);
    let ll = text::cells(legend(a));
    if sl + ll + 2 <= width {
        seq![status, paint::gap((width - sl - ll) as nat), hints]
    } else if sl > 0 {
        seq![status]
    } else {
        seq![hints]
    }
}

/// What a frame shows of a state that is laid out, and whether it asks for the current file to
/// be highlighted ahead.
pub open spec fn screen_of(a: AppV, h: SourceV, p: Places, warm: bool) -> ScreenV {
    let inner = inside_of(p.panel);
    ScreenV {
        sidebar: match p.tree {
            Some(area) => Some(tree_pane(a, area)),
            None => None,
        },
        panel: p.panel,
        border: if a.active_pane() == Focus::Diff {
            a.theme.border_focus
        } else {
            a.theme.border_unfocus
        },
        diff: PaneV { area: a.diff_area, lines: diff_lines(a, h).0, bar: diff_bar(a, inner) },
        footer: PaneV {
            area: p.footer,
            lines: seq![footer_line(a, p.footer.width as nat)],
            bar: None,
        },
        warm,
    }
}

/// What is known of the places that a state has on a screen, cut off at the last coordinate.
pub open spec fn places_in(a: AppV, area: Rect, p: Places) -> bool {
    let whole = within(area);
    &&& p.footer.x == whole.x && p.footer.width == whole.width
    &&& p.tree is Some ==> a.shows_tree(whole)
    &&& p.tree is None ==> !a.shows_tree(whole) && p.panel.x == whole.x && p.panel.width
        == whole.width
    &&& p.tree matches Some(r) ==> r.y == p.panel.y && r.height == p.panel.height
    &&& whole.height >= 2 ==> {
        let (body, footer) = body_rows(whole);
        &&& p.footer == footer
        &&& p.tree is None ==> p.panel == body
        &&& p.tree is Some && a.sidebar_width < whole.width ==> (p.tree->0, p.panel)
            == two_columns(body, a.sidebar_width)
    }
}

/// Rebuilding the rows marks the heights as stale, and keeps them.
pub proof fn lemma_rebuilt_geom(a: AppV)
    ensures
        a.rebuilt().geom == (state::GeomV { dirty: true, ..a.geom }),
{
    reveal(AppV::rebuilt);
    reveal(AppV::view_built);
    reveal(AppV::other_stale);
    reveal(AppV::resynced);
    reveal(AppV::with_cursor_on);
    reveal(AppV::with_file_of);
    reveal(AppV::with_span);
    reveal(AppV::visible);
}

fn indent_of(depth: usize) -> (r: String)
    ensures
        r@ == indent(depth as nat),
{
    blanks(sat_add(sat_add(depth, 1), sat_add(depth, 1)))
}

fn count_text(sign: char, n: usize) -> (r: String)
    ensures
        r@ == counted(sign, n as nat),
{
    let mut s = String::new();
    s.push(' ');
    s.push(sign);
    assert(s@ == seq![' ', sign]);
    strs::push_dec(&mut s, n as u64);
    s
}

fn label_of(path: &str, w: usize, taken: usize, counts: usize) -> (r: String)
    ensures
        r@ == file_label(path@, w as nat, taken as nat, counts as nat),
{
    let avail: usize = sat_sub(sat_sub(w, taken), counts);
    pad_width(elide_left(base_of(path), avail).as_str(), avail)
}

impl App {
    /// Re-wrap inline comment bodies to the current diff width, rebuilding the row list when
    /// it changes. This is the sole row-affecting side effect of drawing: the diff width is
    /// only known during layout, yet the wrapped rows must be rebuilt before the frame reads
    /// them. While the sidebar/diff divider is being dragged the wrap is frozen.
    pub fn sync_comment_wrap(&mut self, diff_inner_width: u16)
        ensures
            final(self)@ == old(self)@.comment_synced(diff_inner_width),
            wrap::geom_ok(old(self)@.geom) ==> wrap::geom_ok(final(self)@.geom),
    {
        reveal(AppV::comment_synced);

        let inner: usize = diff_inner_width as usize;
        let cw: usize = match self.view {
            ViewMode::Unified => sat_sub(inner, 8),
            ViewMode::Split => sat_sub(
                sat_sub(inner, sat_add(1, str_width(split_divider()))) / 2,
                7,
            ),
        };
        if cw != self.comment_wrap && !self.resizing {
            self.comment_wrap = cw;
            proof {
                lemma_rebuilt_geom(self@);
            }
            // Re-wrap when there are inline boxes to re-wrap: comment threads or an open
            // composer (which renders inline too).
            if self.comments.threads.len() > 0 || self.composer.is_some() {
                self.rebuild_rows();
            }
        }
    }

    fn place(&mut self, tree: Option<Rect>, inner: Rect)
        ensures
            final(self)@ == old(self)@.placed(tree, inner),
            final(self)@.geom == old(self)@.geom,
    {
        reveal(AppV::placed);

        let area = match tree {
            Some(r) => r,
            None => Rect::default(),
        };
        assert(self@.sidebar_rows.len() == self.sidebar_rows.len());
        self.sidebar_sb = if area.width > 0 && self.sidebar_rows.len() > area.height as usize {
            last_column(area)
        } else {
            Rect::default()
        };
        self.sidebar_area = area;
        self.height = inner.height as usize;
    }

    fn place_diff(&mut self, inner: Rect)
        requires
            wrap::geom_ok(old(self)@.geom),
        ensures
            final(self)@ == old(self)@.with_diff_area(inner),
            final(self)@.geom == old(self)@.geom,
    {
        reveal(AppV::with_diff_area);

        let (start, end) = self.file_span;
        if self.display_lines(start, end) > self.height {
            self.diff_area = all_but_column(inner);
            self.diff_sb = last_column(inner);
        } else {
            self.diff_area = inner;
            self.diff_sb = Rect::default();
        }
    }

    fn keep_scroll(&mut self)
        ensures
            final(self)@ == old(self)@.scroll_kept(),
            final(self)@.geom == old(self)@.geom,
    {
        reveal(AppV::scroll_kept);

        let (start, end) = self.file_span;
        let h: usize = if self.height == 0 {
            1
        } else {
            self.height
        };
        let max: usize = self.max_scroll_row(start, end, h);
        self.scroll = if self.scroll < start {
            start
        } else if self.scroll > max {
            max
        } else {
            self.scroll
        };
    }

    /// Put everything in its place. Heights depend on the wrap width, so they are computed at
    /// the full inner width first to decide whether a scrollbar is needed; where it takes a
    /// column, they are computed again, so that viewport, mouse and scrollbar agree on them.
    fn lay_out(&mut self, p: Places)
        requires
            wrap::geom_ok(old(self)@.geom),
        ensures
            final(self)@ == old(self)@.laid_out(p),
            wrap::geom_ok(final(self)@.geom),
    {
        reveal(AppV::laid_out);

        let inner = inner_rect(p.panel);
        self.sync_comment_wrap(inner.width);
        self.place(p.tree, inner);
        self.update_heights(inner.width as usize);
        self.place_diff(inner);
        self.update_heights(self.diff_area.width as usize);
        // A resize can leave the viewport past the new last full screen.
        self.keep_scroll();
    }

    fn set_hits(&mut self, hits: Vec<Hit>)
        ensures
            final(self)@ == old(self)@.with_hits(strs::views(hits@)),
            final(self)@.geom == old(self)@.geom,
    {
        reveal(AppV::with_hits);

        self.button_hits = hits;
    }

    /// Draw a frame on a screen of `area`.
    pub fn draw(&mut self, hl: &mut HighlightCache, area: Rect) -> (r: Screen)
        requires
            wrap::geom_ok(old(self)@.geom),
            old(hl).wf(),
        ensures
            exists|p: Places|
                #![trigger old(self)@.laid_out(p)]
                {
                    let a = old(self)@.laid_out(p);
                    let h = old(hl).source();
                    &&& places_in(old(self)@, area, p)
                    &&& final(self)@ == a.with_hits(diff_lines(a, h).1)
                    &&& r@ == screen_of(
                        a,
                        h,
                        p,
                        old(hl).warmed() != Some(old(self).current_file),
                    )
                },
            wrap::geom_ok(final(self)@.geom),
            final(hl).warmed() == Some(old(self).current_file),
            final(hl).wf(),
            final(hl).source() == old(hl).source(),
    {
        let warm = hl.warm(self.current_file);
        let (body, footer) = split_rows(area);
        // Body: optional file sidebar on the left, diff on the right.
        let p = if self.sidebar_available() && body.width >= 60 {
            let (tree, panel) = split_columns(body, self.sidebar_width);
            Places { tree: Some(tree), panel, footer }
        } else {
            Places { tree: None, panel: body, footer }
        };
        let ghost h = hl.source();
        let ghost a0 = self@;
        let s = self.draw_in(hl, p);
        let r = Screen { warm, ..s };
        assert(r@ == screen_of(a0.laid_out(p), h, p, warm));
        r
    }

    /// Draw a frame with its parts at the given places.
    pub fn draw_in(&mut self, hl: &mut HighlightCache, p: Places) -> (r: Screen)
        requires
            wrap::geom_ok(old(self)@.geom),
            old(hl).wf(),
        ensures
            ({
                let a = old(self)@.laid_out(p);
                let h = old(hl).source();
                &&& final(self)@ == a.with_hits(diff_lines(a, h).1)
                &&& r@ == screen_of(a, h, p, false)
            }),
            wrap::geom_ok(final(self)@.geom),
            final(hl).wf(),
            final(hl).source() == old(hl).source(),
            final(hl).warmed() == old(hl).warmed(),
    {
        self.lay_out(p);
        let sidebar = match p.tree {
            Some(area) => Some(self.render_sidebar(area)),
            None => None,
        };
        let border = if self.effective_focus() == Focus::Diff {
            self.theme.border_focus
        } else {
            self.theme.border_unfocus
        };
        let (lines, hits) = self.render_diff(hl);
        let bar = self.diff_scrollbar(inner_rect(p.panel));
        let diff = Pane { area: self.diff_area, lines, bar };
        let mut last: Vec<Line> = Vec::new();
        last.push(self.footer(p.footer.width as usize));
        assert(strs::views(last@) == seq![footer_line(self@, p.footer.width as nat)]);
        let footer = Pane { area: p.footer, lines: last, bar: None };
        let r = Screen { sidebar, panel: p.panel, border, diff, footer, warm: false };
        assert(r@ == screen_of(self@, hl.source(), p, false));
        self.set_hits(hits);
        r
    }

    /// Context-aware key-hint legend shown on the right of the footer.
    pub fn footer_legend(&self) -> (r: String)
        ensures
            r@ == legend(self@),
    {
        if self.composer.is_some() {
            return strs::owned("ctrl+s submit · esc cancel");
        }
        match self.effective_focus() {
            Focus::Sidebar => strs::owned("j/k move · enter open · h/l fold · tab view · q quit"),
            Focus::Diff => strs::owned(
                "j/k move · v select · n/N comments · [/] files · tab view · w wrap · y copy · esc back · q quit",
            ),
        }
    }

    /// Footer: transient status on the left, a context key-hint legend on the right.
    fn footer(&self, fw: usize) -> (r: Line)
        ensures
            r@ == footer_line(self@, fw as nat),
    {
        let legend = self.footer_legend();
        let sl: usize = str_width(self.status.as_str());
        let ll: usize = str_width(legend.as_str());
        let mut spans: Vec<Span> = Vec::new();
        if sl <= fw && ll <= fw - sl && 2 <= fw - sl - ll {
            spans.push(Span::styled(self.status.clone(), Style::new().fg(self.theme.muted)));
            spans.push(gap_of(fw - sl - ll));
            spans.push(Span::styled(legend, Style::new().fg(self.theme.faint)));
        } else if sl > 0 {
            // Not enough room for both: the transient status wins.
            spans.push(Span::styled(self.status.clone(), Style::new().fg(self.theme.muted)));
        } else {
            spans.push(Span::styled(legend, Style::new().fg(self.theme.faint)));
        }
        assert(strs::views(spans@) == footer_line(self@, fw as nat));
        Line { spans }
    }

    fn dir_line(&self, path: &str, name: &str, depth: usize, cursor: bool, w: usize) -> (r: Line)
        ensures
            r@ == dir_line(self@, path@, name@, depth as nat, cursor, w as nat),
    {
        let bg = if cursor {
            Some(self.theme.cursor_bg)
        } else {
            None
        };
        let ind = indent_of(depth);
        let n: usize = ind.as_str().unicode_len();
        let avail: usize = sat_sub(w, sat_add(n, 2));
        let label = pad_width(elide_left(name, avail).as_str(), avail);
        let arrow = if has_id(&self.collapsed, path) {
            "▶ "
        } else {
            "▼ "
        };
        let st = Style::new().fg(self.theme.muted).on(bg);
        let mut v: Vec<Span> = Vec::new();
        v.push(Span::styled(ind, Style::new().on(bg)));
        v.push(Span::styled(strs::owned(arrow), st));
        v.push(Span::styled(label, st));
        assert(strs::views(v@) == dir_line(self@, path@, name@, depth as nat, cursor, w as nat));
        Line { spans: v }
    }

    fn file_facts(&self, fi: usize) -> (r: ((char, Color), String, (usize, usize)))
        ensures
            r.0 == letter_of(self@, fi as nat),
            r.1@ == path_of(self@, fi as nat),
            r.2 == stats_of(self@, fi as nat),
    {
        let counts = if fi < self.file_stats.len() {
            self.file_stats[fi]
        } else {
            (0, 0)
        };
        if fi < self.changeset.files.len() {
            assert(self.changeset.files@[fi as int]@ == self@.files[fi as int]);
            let f = &self.changeset.files[fi];
            (file_status(f, &self.theme), strs::owned(f.display_path()), counts)
        } else {
            (('M', self.theme.warn), String::new(), counts)
        }
    }

    fn dot_of(&self, path: &str) -> (r: (&'static str, Color))
        ensures
            (r.0@, r.1) == dot_of(self@, path@),
    {
        match file_comment_state(&self.comments, path) {
            Some(true) => ("● ", self.theme.warn),
            Some(false) => ("○ ", self.theme.muted),
            None => ("  ", self.theme.none),
        }
    }

    fn file_style(&self, fi: usize, cursor: bool) -> (r: (Option<Color>, Style))
        ensures
            r == (file_bg(self@, fi as nat, cursor), name_style(self@, fi as nat)),
    {
        let current = fi == self.current_file;
        let bg = if cursor {
            Some(self.theme.cursor_bg)
        } else if current {
            Some(self.theme.unfocus_bg)
        } else {
            None
        };
        let st = if current {
            Style::new().fg(self.theme.text_strong).bold()
        } else {
            Style::new().fg(self.theme.text)
        };
        (bg, st)
    }

    fn file_line(&self, fi: usize, depth: usize, cursor: bool, w: usize) -> (r: Line)
        ensures
            r@ == file_line(self@, fi as nat, depth as nat, cursor, w as nat),
    {
        let ((status, status_color), path, (adds, dels)) = self.file_facts(fi);
        let (dot, dot_color) = self.dot_of(path.as_str());
        let (bg, name_style) = self.file_style(fi, cursor);
        let ind = indent_of(depth);
        let plus = count_text('+', adds);
        let minus = count_text('-', dels);
        let n: usize = sat_add(ind.as_str().unicode_len(), 4);
        let c: usize = sat_add(plus.as_str().unicode_len(), minus.as_str().unicode_len());
        let name = label_of(path.as_str(), w, n, c);
        let mut letter = String::new();
        letter.push(status);
        letter.push(' ');
        assert(letter@ == seq![status, ' ']);
        let mut v: Vec<Span> = Vec::new();
        v.push(Span::styled(ind, Style::new().on(bg)));
        v.push(Span::styled(letter, Style::new().fg(status_color).on(bg)));
        v.push(Span::styled(strs::owned(dot), Style::new().fg(dot_color).on(bg)));
        v.push(Span::styled(name, name_style.on(bg)));
        v.push(Span::styled(plus, Style::new().fg(self.theme.added).on(bg)));
        v.push(Span::styled(minus, Style::new().fg(self.theme.removed).on(bg)));
        assert(name@ == file_label(
            path@,
            w as nat,
            ind@.len() + 4,
            plus@.len() + minus@.len(),
        ));
        assert(strs::views(v@) == file_line(self@, fi as nat, depth as nat, cursor, w as nat));
        Line { spans: v }
    }

    /// A row of the file tree: a directory, or a file with a one-letter change status and a
    /// comment-state dot, indented by depth.
    fn tree_row(&self, idx: usize, w: usize) -> (r: Line)
        requires
            idx < self@.sidebar_rows.len(),
        ensures
            r@ == tree_line(self@, idx as nat, w as nat),
    {
        let cursor = self.effective_focus() == Focus::Sidebar && idx == self.sidebar_sel;
        assert(self@.sidebar_rows[idx as int] == self.sidebar_rows@[idx as int]@);
        match &self.sidebar_rows[idx] {
            SbRow::Dir { path, name, depth } => self.dir_line(
                path.as_str(),
                name.as_str(),
                *depth,
                cursor,
                w,
            ),
            SbRow::File { idx: fi, depth } => self.file_line(*fi, *depth, cursor, w),
        }
    }

    /// Left-hand collapsible file tree. A content column is reserved for the scrollbar when
    /// the list overflows.
    pub fn render_sidebar(&self, area: Rect) -> (r: Pane)
        ensures
            r@ == tree_pane(self@, area),
    {
        broadcast use strs::lemma_views_push;

        let h: usize = area.height as usize;
        let n: usize = self.sidebar_rows.len();
        assert(self@.sidebar_rows.len() == n);
        let w: usize = sat_sub(
            area.width as usize,
            if n > h {
                1
            } else {
                0
            },
        );
        let max: usize = sat_sub(n, h);
        let scroll: usize = if self.sidebar_scroll < max {
            self.sidebar_scroll
        } else {
            max
        };
        let end: usize = if h < n - scroll {
            scroll + h
        } else {
            n
        };
        let ghost all = tree_pane(self@, area).lines;
        assert(all.len() == end - scroll);
        let mut lines: Vec<Line> = Vec::new();
        let mut idx: usize = scroll;
        while idx < end
            invariant
                scroll <= idx <= end <= n,
                n == self@.sidebar_rows.len(),
                all.len() == end - scroll,
                forall|k: int|
                    0 <= k < end - scroll ==> #[trigger] all[k] == tree_line(
                        self@,
                        (scroll + k) as nat,
                        w as nat,
                    ),
                strs::views(lines@) == all.take(idx - scroll),
            decreases end - idx,
        {
            let line = self.tree_row(idx, w);
            assert(line@ == all[idx - scroll]);
            let ghost before = lines@;
            lines.push(line);
            assert(strs::views(lines@) == strs::views(before).push(all[idx - scroll]));
            assert(all.take(idx - scroll + 1) == all.take(idx - scroll).push(all[idx - scroll]));
            idx += 1;
        }
        assert(all.take(end - scroll) == all);
        let bar = if n > h {
            Some(Bar { area, length: sat_add(max, 1), position: scroll, viewport: h })
        } else {
            None
        };
        Pane { area, lines, bar }
    }

    /// The vertical scrollbar of the diff pane.
    pub fn diff_scrollbar(&self, inner: Rect) -> (r: Option<Bar>)
        requires
            wrap::geom_ok(self@.geom),
        ensures
            r == diff_bar(self@, inner),
    {
        let (start, end) = self.file_span;
        let total: usize = self.display_lines(start, end);
        if total <= self.height {
            return None;
        }
        let max_top: usize = total - self.height;
        let at: usize = self.display_lines(start, self.scroll);
        let position: usize = if at < max_top {
            at
        } else {
            max_top
        };
        Some(Bar { area: inner, length: sat_add(max_top, 1), position, viewport: self.height })
    }

    /// Whether the floating `comment(i)` button should appear on row `idx`: the diff pane is
    /// focused, no composer is open, and `idx` is the *last* row of the current selection. A
    /// new thread (and its composer) renders after the last line of its range, so the button
    /// sits there too.
    pub fn show_add_button(&self, idx: usize) -> (r: bool)
        ensures
            r == self@.add_button_at(idx as nat),
    {
        self.composer.is_none() && self.effective_focus() == Focus::Diff && idx
            == self.selection_bounds().1
    }

    fn add_button(&self, lines: Vec<Line>, idx: usize, area: Rect, y: u16) -> (r: (
        Vec<Line>,
        Vec<Hit>,
    ))
        ensures
            (strs::views(r.0@), strs::views(r.1@)) == with_add_button(
                self@,
                strs::views(lines@),
                idx as nat,
                area,
                y,
            ),
    {
        let mut lines = lines;
        let ghost lv = strs::views(lines@);
        if self.show_add_button(idx) && lines.len() > 0 {
            assert(lines@[0]@ == lv[0]);
            let mut rest = lines.split_off(1);
            let ghost rv = rest@;
            match lines.pop() {
                Some(first) => {
                    let (line, hits) = self.append_right_button(
                        first.spans,
                        area.width as usize,
                        "comment(i)",
                        self.theme.accent,
                        ButtonAction::AddComment,
                        area.x,
                        y,
                    );
                    let mut out: Vec<Line> = Vec::new();
                    out.push(line);
                    out.append(&mut rest);
                    assert(strs::views(out@) == lv.update(0, line@));
                    (out, hits)
                },
                None => {
                    assert(false);
                    (lines, Vec::new())
                },
            }
        } else {
            let hits: Vec<Hit> = Vec::new();
            assert(strs::views(hits@) == Seq::<HitV>::empty());
            (lines, hits)
        }
    }

    fn unified_block(&self, hl: &mut HighlightCache, area: Rect, idx: usize, y: u16) -> (r: (
        Vec<Line>,
        Vec<Hit>,
    ))
        requires
            old(hl).wf(),
            idx < self@.rows.len(),
        ensures
            (strs::views(r.0@), strs::views(r.1@)) == unified_block(
                self@,
                old(hl).source(),
                area,
                idx as nat,
                y,
            ),
            final(hl).wf(),
            final(hl).source() == old(hl).source(),
            final(hl).warmed() == old(hl).warmed(),
    {
        let w: usize = area.width as usize;
        let row = &self.rows[idx];
        assert(row@ == self@.rows[idx as int]);
        let selected = self.in_selection(idx);
        match &row.kind {
            RowKind::Comment(cl) => {
                if let CommentKind::Actions = cl.kind {
                    let btns = self.comment_buttons(cl);
                    let border = self.box_border(cl, false);
                    let (line, hits) = self.action_row_line(&btns, border, area.x, y, w, 0, w);
                    return (one_line(line), hits);
                }
            },
            RowKind::Composer(c) => {
                if let ComposerKind::Hint = c.kind {
                    let btns = self.composer_buttons();
                    let (line, hits) = self.action_row_line(
                        &btns,
                        self.theme.accent,
                        area.x,
                        y,
                        w,
                        0,
                        w,
                    );
                    return (one_line(line), hits);
                }
            },
            RowKind::Line { .. } => {
                let lines = self.row_to_lines(hl, row, selected, w);
                return self.add_button(lines, idx, area, y);
            },
            _ => {},
        }
        let lines = self.row_to_lines(hl, row, selected, w);
        let hits: Vec<Hit> = Vec::new();
        assert(strs::views(hits@) == Seq::<HitV>::empty());
        (lines, hits)
    }

    fn column_start(&self, side: Side, side_w: usize) -> (r: usize)
        requires
            side_w <= 32767,
        ensures
            r == column_start(side, side_w as nat),
            r <= 0x1_0000,
    {
        let n: usize = split_divider().unicode_len();
        proof {
            reveal_strlit(" │ ");
        }
        match side {
            Side::Old => 0,
            Side::New => side_w + n,
        }
    }

    fn split_block(&self, hl: &mut HighlightCache, area: Rect, idx: usize, y: u16) -> (r: (
        Vec<Line>,
        Vec<Hit>,
    ))
        requires
            old(hl).wf(),
            idx < self@.split_rows.len(),
        ensures
            (strs::views(r.0@), strs::views(r.1@)) == split_block(
                self@,
                old(hl).source(),
                area,
                idx as nat,
                y,
            ),
            final(hl).wf(),
            final(hl).source() == old(hl).source(),
            final(hl).warmed() == old(hl).warmed(),
    {
        let w: usize = area.width as usize;
        let side_w: usize = split_side_w(w);
        assert(side_w <= 32767);
        let row = &self.split_rows[idx];
        assert(row@ == self@.split_rows[idx as int]);
        let selected = self.in_selection(idx);
        match &row.kind {
            SplitRowKind::Comment { side, line: cl } => {
                if let CommentKind::Actions = cl.kind {
                    let btns = self.comment_buttons(cl);
                    let border = self.box_border(cl, false);
                    let left: usize = self.column_start(*side, side_w);
                    let (line, hits) = self.action_row_line(
                        &btns,
                        border,
                        area.x,
                        y,
                        w,
                        left,
                        side_w,
                    );
                    return (one_line(line), hits);
                }
            },
            SplitRowKind::Composer { side, line: c } => {
                if let ComposerKind::Hint = c.kind {
                    let btns = self.composer_buttons();
                    let left: usize = self.column_start(*side, side_w);
                    let (line, hits) = self.action_row_line(
                        &btns,
                        self.theme.accent,
                        area.x,
                        y,
                        w,
                        left,
                        side_w,
                    );
                    return (one_line(line), hits);
                }
            },
            SplitRowKind::Pair { .. } => {
                let lines = self.split_row_to_lines(hl, row, selected, side_w);
                return self.add_button(lines, idx, area, y);
            },
            _ => {},
        }
        let lines = self.split_row_to_lines(hl, row, selected, side_w);
        let hits: Vec<Hit> = Vec::new();
        assert(strs::views(hits@) == Seq::<HitV>::empty());
        (lines, hits)
    }

    fn row_block(&self, hl: &mut HighlightCache, area: Rect, idx: usize, y: u16) -> (r: (
        Vec<Line>,
        Vec<Hit>,
    ))
        requires
            old(hl).wf(),
            idx < self@.active_len(),
        ensures
            (strs::views(r.0@), strs::views(r.1@)) == row_block(
                self@,
                old(hl).source(),
                area,
                idx as nat,
                y,
            ),
            final(hl).wf(),
            final(hl).source() == old(hl).source(),
            final(hl).warmed() == old(hl).warmed(),
    {
        reveal(row_block);

        match self.view {
            ViewMode::Unified => self.unified_block(hl, area, idx, y),
            ViewMode::Split => self.split_block(hl, area, idx, y),
        }
    }

    /// The lines of the diff pane in the active layout, and the buttons on them.
    pub fn render_diff(&self, hl: &mut HighlightCache) -> (r: (Vec<Line>, Vec<Hit>))
        requires
            old(hl).wf(),
        ensures
            (strs::views(r.0@), strs::views(r.1@)) == diff_lines(self@, old(hl).source()),
            final(hl).wf(),
            final(hl).source() == old(hl).source(),
            final(hl).warmed() == old(hl).warmed(),
    {
        let area = self.diff_area;
        let height: usize = area.height as usize;
        let (start, file_end) = self.file_span;
        let len: usize = self.active_len();
        let end: usize = if file_end < len {
            file_end
        } else {
            len
        };
        let top: usize = if self.scroll < start {
            start
        } else {
            self.scroll
        };
        let ghost a = self@;
        let ghost h = hl.source();
        let ghost warmed = hl.warmed();
        let mut lines: Vec<Line> = Vec::new();
        let mut hits: Vec<Hit> = Vec::new();
        let mut idx: usize = top;
        assert(strs::views(lines@) == Seq::<Seq<SpanV>>::empty());
        assert(strs::views(hits@) == Seq::<HitV>::empty());
        while lines.len() < height && idx < end
            invariant
                a == self@,
                height == area.height,
                end <= a.active_len(),
                hl.wf(),
                hl.source() == h,
                hl.warmed() == warmed,
                diff_lines(a, h) == rows_below(
                    a,
                    h,
                    area,
                    idx as nat,
                    end as nat,
                    strs::views(lines@),
                    strs::views(hits@),
                ),
            decreases end - idx,
        {
            let ghost lv = strs::views(lines@);
            let ghost hv = strs::views(hits@);
            assert(lv.len() == lines@.len());
            // First visual line of this row (action rows / buttons anchor here).
            let y: u16 = to_coord(area.y as usize + lines.len());
            let (ls, hs) = self.row_block(hl, area, idx, y);
            let mut ls = ls;
            let mut hs = hs;
            let ghost lsv = strs::views(ls@);
            let ghost hsv = strs::views(hs@);
            lines.append(&mut ls);
            assert(strs::views(lines@) == lv + lsv);
            hits.append(&mut hs);
            assert(strs::views(hits@) == hv + hsv);
            if lines.len() > height {
                lines.truncate(height);
            }
            assert(strs::views(lines@) == at_most(lv + lsv, height as nat));
            idx += 1;
        }
        assert(strs::views(lines@).len() == lines@.len());
        (lines, hits)
    }
}

fn one_line(l: Line) -> (r: Vec<Line>)
    ensures
        strs::views(r@) == seq![l@],
{
    let mut r: Vec<Line> = Vec::new();
    r.push(l);
    assert(strs::views(r@) == seq![l@]);
    r
}

} // verus!
