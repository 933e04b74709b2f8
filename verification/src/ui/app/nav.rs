//! Selection, stops, file spans, and viewport navigation.
use crate::diff::model::Side;
use crate::paths;
use crate::strs;
use crate::ui::app::state::{App, AppV, Focus, GeomV, Pred, PredV, SelKey, SelKeyV};
use crate::ui::app::state;
use crate::ui::app::wrap;
use crate::ui::app::wrap::{sat_add, sat_sub};
use crate::ui::render_rows::text;
use crate::ui::style::Color;
use vstd::prelude::*;

verus! {

/// The width that the sidebar starts with.
pub const SIDEBAR_WIDTH: u16 = 38;

/// The sidebar can be dragged no narrower than this.
pub const MIN_SIDEBAR: u16 = 14;

/// The sidebar leaves the diff this much.
pub const MIN_DIFF: u16 = 20;

/// `x`, held between `lo` and `hi`.
pub open spec fn clamped(x: int, lo: nat, hi: nat) -> nat {
    if x < lo {
        lo
    } else if x > hi {
        hi
    } else {
        x as nat
    }
}

/// `x + delta`, held between `lo` and `hi`.
pub fn step(x: usize, delta: isize, lo: usize, hi: usize) -> (r: usize)
    requires
        lo <= hi,
    ensures
        r == clamped(x + delta, lo as nat, hi as nat),
{
    let y: usize = if delta >= 0 {
        sat_add(x, delta as usize)
    } else {
        let back: usize = (0 - (delta + 1)) as usize + 1;
        sat_sub(x, back)
    };
    if y < lo {
        lo
    } else if y > hi {
        hi
    } else {
        y
    }
}

/// What is in the option, or else something else.
pub open spec fn or_else(a: Option<nat>, b: Option<nat>) -> Option<nat> {
    match a {
        Some(x) => Some(x),
        None => b,
    }
}

/// What is in the option, or else `d`.
pub open spec fn or_value(a: Option<nat>, d: nat) -> nat {
    match a {
        Some(x) => x,
        None => d,
    }
}

/// The smaller number.
pub open spec fn smaller(a: nat, b: nat) -> nat {
    if a < b {
        a
    } else {
        b
    }
}

/// The first of the first `n` threads that covers a line.
pub open spec fn covering(
    threads: Seq<crate::comments::model::ThreadV>,
    path: Seq<char>,
    side: Side,
    line: u32,
    i: nat,
) -> Option<Seq<char>>
    decreases threads.len() - i,
{
    if i >= threads.len() {
        None
    } else {
        let t = threads[i as int];
        if paths::same(t.file, path) && t.side == side && t.range.start <= line && line
            <= t.range.end {
            Some(t.id)
        } else {
            covering(threads, path, side, line, i + 1)
        }
    }
}

impl AppV {
    /// First and last row of the selection: the cursor alone, or the rows between cursor and
    /// anchor.
    pub open spec fn bounds(self) -> (nat, nat) {
        let anchor = or_value(self.sel_anchor, self.selected);
        (smaller(anchor, self.selected), wrap::larger(anchor, self.selected))
    }

    /// Whether row `idx` is selected: it is of the message that the cursor is on, or within
    /// the bounds.
    #[verifier::opaque]
    pub open spec fn in_selection(self, idx: nat) -> bool {
        match self.unit_span(self.selected) {
            Some((lo, hi)) => lo <= idx <= hi,
            None => self.bounds().0 <= idx <= self.bounds().1,
        }
    }

    /// A handle to the diff line at row `i`.
    pub open spec fn line_key(self, i: nat) -> Option<SelKeyV> {
        match self.anchor_at(i) {
            Some((f, s, l)) => Some(SelKeyV::Line(f, s, l)),
            None => None,
        }
    }

    /// A handle to what the cursor is on.
    #[verifier::opaque]
    pub open spec fn sel_key(self) -> Option<SelKeyV> {
        match self.unit_id(self.selected) {
            Some(c) => Some(SelKeyV::Comment(c)),
            None => self.line_key(self.selected),
        }
    }

    /// The first row that a handle leads to.
    #[verifier::opaque]
    pub open spec fn find_key(self, k: Option<SelKeyV>) -> Option<nat> {
        match k {
            Some(k) => self.first(PredV::Key(k), 0, self.active_len()),
            None => None,
        }
    }

    /// The first stop of the file.
    #[verifier::opaque]
    pub open spec fn first_stop(self) -> Option<nat> {
        self.first(PredV::Stop, self.file_span.0, self.file_span.1)
    }

    /// The last stop of the file.
    #[verifier::opaque]
    pub open spec fn last_stop(self) -> Option<nat> {
        self.last(PredV::Stop, self.file_span.0, self.file_span.1)
    }

    /// The first row in the file that is what `p` asks for, from row `from` on, downwards or
    /// upwards.
    #[verifier::opaque]
    pub open spec fn seek(self, p: PredV, from: int, down: bool) -> Option<nat> {
        let (start, end) = self.file_span;
        if from < start || from >= end {
            None
        } else if down {
            self.first(p, from as nat, end)
        } else {
            self.last(p, start, from as nat + 1)
        }
    }

    /// The row in front of or behind the cursor.
    pub open spec fn beside(self, down: bool) -> int {
        if down {
            self.selected as int + 1
        } else {
            self.selected - 1
        }
    }

    /// The stop that a click on row `idx` selects: the row itself, the head of its message, or
    /// the nearest stop below it, or else above it.
    #[verifier::opaque]
    pub open spec fn stop_for(self, idx: nat) -> Option<nat> {
        if self.stop(idx) {
            Some(idx)
        } else if self.unit_id(idx) is Some {
            Some(self.unit_lo(idx))
        } else {
            or_else(
                self.seek(PredV::Stop, idx as int, true),
                self.seek(PredV::Stop, idx as int, false),
            )
        }
    }

    /// The first thread that covers the selected line.
    pub open spec fn current_thread(self) -> Option<Seq<char>> {
        match self.anchor_at(self.selected) {
            Some((f, side, line)) => if f < self.files.len() {
                covering(self.threads, self.files[f as int].display_path(), side, line, 0)
            } else {
                None
            },
            None => None,
        }
    }

    /// The thread that the cursor is on, or else the first that covers the selected line.
    pub open spec fn focused_thread(self) -> Option<Seq<char>> {
        match self.comment_at(self.selected) {
            Some(c) => Some(c.thread_id),
            None => self.current_thread(),
        }
    }

    /// The rows of file `f` among the first `n`: its first, and the one behind its last.
    pub open spec fn span_among(self, f: nat, n: nat) -> (nat, nat)
        decreases n,
    {
        if n == 0 {
            (self.active_len(), self.active_len())
        } else {
            let (s, e) = self.span_among(f, (n - 1) as nat);
            if self.row_file((n - 1) as nat) == Some(f) {
                (
                    if s == self.active_len() {
                        (n - 1) as nat
                    } else {
                        s
                    },
                    n,
                )
            } else {
                (s, e)
            }
        }
    }

    /// The row spans of all files.
    pub open spec fn all_spans(self) -> Seq<(nat, nat)> {
        Seq::new(self.files.len(), |f: int| self.span_among(f as nat, self.active_len()))
    }

    /// The span of the current file: nothing where it has none.
    pub open spec fn current_span(self) -> (nat, nat) {
        if self.current_file < self.file_spans.len() {
            self.file_spans[self.current_file as int]
        } else {
            (self.active_len(), self.active_len())
        }
    }

    /// With the span of the current file looked up.
    #[verifier::opaque]
    pub open spec fn with_span(self) -> AppV {
        AppV { file_span: self.current_span(), ..self }
    }

    /// With all spans as the rows have them.
    #[verifier::opaque]
    pub open spec fn resynced(self) -> AppV {
        AppV { file_spans: self.all_spans(), ..self }.with_span()
    }

    /// With the file of row `row` as the current one.
    #[verifier::opaque]
    pub open spec fn with_file_of(self, row: nat) -> AppV {
        AppV { current_file: or_value(self.row_file(row), self.current_file), ..self }
    }

    /// With the cursor at the stop of row `row`.
    #[verifier::opaque]
    pub open spec fn with_stop_for(self, row: nat) -> AppV {
        AppV { selected: or_value(self.stop_for(row), row), ..self }
    }

    /// With the cursor on the head of a thread.
    #[verifier::opaque]
    pub open spec fn on_thread(self, t: Seq<char>) -> AppV {
        match self.first(PredV::Thread(t), 0, self.active_len()) {
            Some(row) => self.with_file_of(row).with_span().with_stop_for(row),
            None => self,
        }
    }

    /// Scrolled as little as shows the cursor: its whole message where it is on a comment, and
    /// the top of it where that does not fit. The viewport stays within the file.
    #[verifier::opaque]
    pub open spec fn visible(self) -> AppV {
        let (start, end) = self.file_span;
        let h = text::at_least_one(self.height);
        let (top, bot) = match self.unit_span(self.selected) {
            Some(s) => s,
            None => (self.selected, self.selected),
        };
        let s1 = wrap::larger(self.scroll, self.top_for(start, bot, h));
        let s2 = smaller(s1, top);
        AppV { scroll: clamped(s2 as int, start, self.max_scroll(start, end, h)), ..self }
    }

    /// Scrolled by `delta` rows, within the file.
    #[verifier::opaque]
    pub open spec fn scrolled(self, delta: int) -> AppV {
        let (start, end) = self.file_span;
        let h = text::at_least_one(self.height);
        AppV {
            scroll: clamped(self.scroll + delta, start, self.max_scroll(start, end, h)),
            ..self
        }
    }

    /// The first row behind those that fit into `room` lines from row `t` on.
    pub open spec fn fit_down(self, t: nat, end: nat, room: nat) -> nat
        decreases end - t,
    {
        if t < end && self.row_h(t) <= room {
            self.fit_down(t + 1, end, (room - self.row_h(t)) as nat)
        } else {
            t
        }
    }

    /// The last row that is on the screen as a whole, or else the top row.
    pub open spec fn last_shown(self) -> nat {
        let t = self.fit_down(self.scroll, self.file_span.1, text::at_least_one(self.height));
        if t > self.scroll {
            (t - 1) as nat
        } else {
            self.scroll
        }
    }

    /// With a cursor that was scrolled off the screen put on the stop nearest to the edge that
    /// it left by.
    #[verifier::opaque]
    pub open spec fn cursor_kept(self) -> AppV {
        let to = if self.selected < self.scroll {
            self.seek(PredV::Stop, self.scroll as int, true)
        } else if self.selected > self.last_shown() {
            self.seek(PredV::Stop, self.last_shown() as int, false)
        } else {
            None
        };
        match to {
            Some(i) => AppV { selected: i, ..self.unanchored() },
            None => self,
        }
    }

    /// Without an anchor, unless in visual mode.
    #[verifier::opaque]
    pub open spec fn unanchored(self) -> AppV {
        AppV {
            sel_anchor: if self.visual {
                self.sel_anchor
            } else {
                None
            },
            ..self
        }
    }

    /// With the cursor one stop further down or up, if the file has one there.
    #[verifier::opaque]
    pub open spec fn moved(self, down: bool) -> AppV {
        let a = self.unanchored();
        match a.seek(PredV::Stop, a.beside(down), down) {
            Some(i) => AppV { selected: i, ..a }.visible(),
            None => a,
        }
    }

    /// With the cursor `n` stops further down or up, as far as there are any.
    pub open spec fn moved_by(self, down: bool, n: nat) -> AppV
        decreases n,
    {
        if n == 0 {
            self
        } else {
            let a = self.moved(down);
            if a.selected == self.selected {
                a
            } else {
                a.moved_by(down, (n - 1) as nat)
            }
        }
    }

    /// With the line selection grown to the next diff line.
    #[verifier::opaque]
    pub open spec fn extended(self, down: bool) -> AppV {
        match self.seek(PredV::Selectable, self.beside(down), down) {
            Some(i) => AppV {
                sel_anchor: Some(or_value(self.sel_anchor, self.selected)),
                selected: i,
                status: "shift+↑/↓ to extend · i to comment · move to clear"@,
                ..self
            }.visible(),
            None => self,
        }
    }

    /// With the cursor at the first or last stop of the file.
    #[verifier::opaque]
    pub open spec fn at_edge(self, last: bool) -> AppV {
        let a = self.unanchored();
        let to = if last {
            a.last_stop()
        } else {
            a.first_stop()
        };
        AppV { selected: or_value(to, 0), ..a }.visible()
    }

    /// In visual mode with the anchor at the cursor, or out of it.
    #[verifier::opaque]
    pub open spec fn visual_toggled(self) -> AppV {
        if self.visual {
            AppV { visual: false, sel_anchor: None, status: "visual off"@, ..self }
        } else {
            AppV {
                visual: true,
                sel_anchor: Some(self.selected),
                status: "visual — j/k to extend, i to comment, esc to cancel"@,
                ..self
            }
        }
    }

    /// The next or previous line of the file that a thread starts at, around the ends of the
    /// file.
    #[verifier::opaque]
    pub open spec fn next_head(self, down: bool) -> Option<nat> {
        let (start, end) = self.file_span;
        if down {
            or_else(
                self.first(PredV::Head, wrap::larger(start, self.selected + 1), end),
                self.first(PredV::Head, start, end),
            )
        } else {
            or_else(
                self.last(PredV::Head, start, smaller(end, self.selected)),
                self.last(PredV::Head, start, end),
            )
        }
    }

    /// With the cursor at the next or previous line that a thread starts at.
    #[verifier::opaque]
    pub open spec fn at_next_comment(self, down: bool) -> AppV {
        match self.next_head(down) {
            Some(i) => AppV { sel_anchor: None, selected: i, ..self }.visible(),
            None => AppV { sel_anchor: None, status: "no comments"@, ..self },
        }
    }

    /// The lines of the selection on the file and side of the cursor, among rows `[lo, n)`:
    /// the smallest and the largest, that of the cursor included.
    pub open spec fn lines_among(self, f: nat, side: Side, cur: u32, lo: nat, n: nat) -> (u32, u32)
        decreases n,
    {
        if n <= lo {
            (cur, cur)
        } else {
            let (s, e) = self.lines_among(f, side, cur, lo, (n - 1) as nat);
            match self.anchor_at((n - 1) as nat) {
                Some((af, aside, l)) => if af == f && aside == side {
                    (
                        if l < s {
                            l
                        } else {
                            s
                        },
                        if l > e {
                            l
                        } else {
                            e
                        },
                    )
                } else {
                    (s, e)
                },
                None => (s, e),
            }
        }
    }

    /// File, side and lines of the selection.
    #[verifier::opaque]
    pub open spec fn selection_range(self) -> Option<(nat, Side, u32, u32)> {
        match self.anchor_at(self.selected) {
            Some((f, side, cur)) => {
                let (lo, hi) = self.bounds();
                let (s, e) = self.lines_among(f, side, cur, lo, hi + 1);
                Some((f, side, s, e))
            },
            None => None,
        }
    }

    /// Whether there is a sidebar to focus.
    pub open spec fn has_sidebar(self) -> bool {
        self.show_sidebar && self.files.len() > 0
    }

    /// The pane that keys act on.
    pub open spec fn active_pane(self) -> Focus {
        if self.has_sidebar() {
            self.focus
        } else {
            Focus::Diff
        }
    }

    /// The row of file `f` in the sidebar, or else the first.
    #[verifier::opaque]
    pub open spec fn sidebar_row(self, f: nat) -> nat {
        if f < self.file_to_sbrow.len() && self.file_to_sbrow[f as int] != usize::MAX {
            self.file_to_sbrow[f as int] as nat
        } else {
            0
        }
    }

    /// With `file`, or else the last, as the current file, and no selection.
    #[verifier::opaque]
    pub open spec fn with_file(self, file: nat) -> AppV {
        AppV {
            sel_anchor: None,
            current_file: smaller(file, wrap::monus(self.files.len() as int, 1)),
            ..self
        }
    }

    /// With the sidebar's cursor on the current file.
    #[verifier::opaque]
    pub open spec fn with_sidebar_cursor(self) -> AppV {
        AppV { sidebar_sel: self.sidebar_row(self.current_file), ..self }
    }

    /// With `file` in the diff pane and under the cursor of the sidebar.
    #[verifier::opaque]
    pub open spec fn pointed_at(self, file: nat) -> AppV {
        let a = self.with_file(file).with_span();
        a.file_revealed(a.current_file).with_sidebar_cursor().sidebar_revealed()
    }

    /// With the cursor at the top of the file.
    #[verifier::opaque]
    pub open spec fn at_top(self) -> AppV {
        let start = self.file_span.0;
        AppV { scroll: start, selected: or_value(self.first_stop(), start), ..self }.visible()
    }

    /// With `file` in the diff pane and the cursor at its top.
    #[verifier::opaque]
    pub open spec fn on_file(self, file: nat) -> AppV {
        self.pointed_at(file).at_top()
    }

    /// With the file `dir` places further on in the diff pane, if that is another.
    #[verifier::opaque]
    pub open spec fn on_next_file(self, dir: int) -> AppV {
        if self.files.len() == 0 {
            self
        } else {
            let to = clamped(self.current_file + dir, 0, (self.files.len() - 1) as nat);
            if to == self.current_file {
                self
            } else {
                self.on_file(to)
            }
        }
    }

    /// With soft-wrap on or off.
    #[verifier::opaque]
    pub open spec fn wrap_toggled(self) -> AppV {
        AppV {
            wrap: !self.wrap,
            geom: GeomV {
                heights: Seq::empty(),
                offsets: Seq::empty(),
                width: self.geom.width,
                dirty: true,
            },
            status: if self.wrap {
                "wrap off"@
            } else {
                "wrap on"@
            },
            ..self
        }.visible()
    }

    /// With the divider at column `col`, as far as both panes keep their least width.
    #[verifier::opaque]
    pub open spec fn resized(self, col: u16) -> AppV {
        let total = self.sidebar_area.width + self.diff_area.width;
        let max = wrap::larger(wrap::monus(total, MIN_DIFF as int), MIN_SIDEBAR as nat);
        AppV {
            sidebar_width: clamped(
                wrap::monus(col as int, self.sidebar_area.x as int) as int,
                MIN_SIDEBAR as nat,
                max,
            ) as u16,
            ..self
        }
    }

    /// The column of the divider, if there is one.
    pub open spec fn divider(self) -> Option<int> {
        if self.sidebar_area.width > 0 {
            Some(self.sidebar_area.x + self.sidebar_area.width)
        } else {
            None
        }
    }
}

/// The view of an optional key.
pub open spec fn key_view(k: Option<SelKey>) -> Option<SelKeyV> {
    match k {
        Some(k) => Some(k@),
        None => None,
    }
}

impl App {
    /// The first stop of the current file.
    pub fn first_selectable(&self) -> (r: Option<usize>)
        ensures
            state::index_view(r) == self@.first_stop(),
    {
        reveal(AppV::first_stop);

        self.find_first(&Pred::Stop, self.file_span.0, self.file_span.1)
    }

    /// The last stop of the current file.
    pub fn last_selectable(&self) -> (r: Option<usize>)
        ensures
            state::index_view(r) == self@.last_stop(),
    {
        reveal(AppV::last_stop);

        self.find_last(&Pred::Stop, self.file_span.0, self.file_span.1)
    }

    /// Whether the draggable sidebar/diff divider is at column `col`: just past the sidebar,
    /// if that is shown.
    pub fn on_divider(&self, col: u16) -> (r: bool)
        ensures
            r == (self@.divider() == Some(col as int)),
    {
        self.sidebar_area.width > 0 && self.sidebar_area.x as u32 + self.sidebar_area.width as u32
            == col as u32
    }

    /// Resize the sidebar so its divider sits at column `col`.
    pub fn resize_to(&mut self, col: u16)
        ensures
            final(self)@ == old(self)@.resized(col),
    {
        reveal(AppV::resized);

        let total: u32 = self.sidebar_area.width as u32 + self.diff_area.width as u32;
        let mut max: u32 = if total > MIN_DIFF as u32 {
            total - MIN_DIFF as u32
        } else {
            0
        };
        if max < MIN_SIDEBAR as u32 {
            max = MIN_SIDEBAR as u32;
        }
        let at: u16 = if col > self.sidebar_area.x {
            col - self.sidebar_area.x
        } else {
            0
        };
        self.sidebar_width = if at < MIN_SIDEBAR {
            MIN_SIDEBAR
        } else if at as u32 > max {
            max as u16
        } else {
            at
        };
    }

    /// Inclusive `[lo, hi]` row span of the current selection: the cursor line alone, or the
    /// cursor-to-anchor range when a drag/visual selection is active. The single source of
    /// truth for selection extent.
    pub fn selection_bounds(&self) -> (r: (usize, usize))
        ensures
            r.0 == self@.bounds().0,
            r.1 == self@.bounds().1,
            r.0 <= r.1,
    {
        let anchor: usize = match self.sel_anchor {
            Some(a) => a,
            None => self.selected,
        };
        if anchor < self.selected {
            (anchor, self.selected)
        } else {
            (self.selected, anchor)
        }
    }

    /// Whether row `idx` falls within the current selection. When the cursor is on a comment,
    /// the whole message (its contiguous rows) is the selection; otherwise it's the diff-line
    /// cursor/drag range.
    pub fn in_selection(&self, idx: usize) -> (r: bool)
        ensures
            r == self@.in_selection(idx as nat),
    {
        reveal(AppV::in_selection);

        if let Some((lo, hi)) = self.comment_unit_span(self.selected) {
            return idx >= lo && idx <= hi;
        }
        let (lo, hi) = self.selection_bounds();
        idx >= lo && idx <= hi
    }

    /// A handle to the diff line at row `i`.
    pub fn line_key(&self, i: usize) -> (r: Option<SelKey>)
        ensures
            key_view(r) == self@.line_key(i as nat),
    {
        match self.anchor_at(i) {
            Some((f, s, l)) => Some(SelKey::Line(f, s, l)),
            None => None,
        }
    }

    /// A stable handle to the current selection that survives a row rebuild or a view switch:
    /// the focused comment's message id, else the diff-line anchor `(file, side, line)`.
    pub fn sel_key(&self) -> (r: Option<SelKey>)
        ensures
            key_view(r) == self@.sel_key(),
    {
        reveal(AppV::sel_key);

        match self.focused_comment() {
            Some((_, cid)) => Some(SelKey::Comment(cid)),
            None => self.line_key(self.selected),
        }
    }

    /// Re-find the row matching `key` in the (freshly rebuilt) active list.
    pub fn find_sel_key(&self, key: Option<SelKey>) -> (r: Option<usize>)
        ensures
            state::index_view(r) == self@.find_key(key_view(key)),
    {
        reveal(AppV::find_key);

        match key {
            Some(k) => self.find_first(&Pred::Key(k), 0, self.active_len()),
            None => None,
        }
    }

    /// The first row in the file that is what `p` asks for, from row `from` on, downwards or
    /// upwards.
    fn seek(&self, p: &Pred, from: usize, down: bool) -> (r: Option<usize>)
        ensures
            state::index_view(r) == self@.seek(p@, from as int, down),
    {
        reveal(AppV::seek);

        let (start, end) = self.file_span;
        if from < start || from >= end {
            None
        } else if down {
            self.find_first(p, from, end)
        } else {
            self.find_last(p, start, from + 1)
        }
    }

    /// As `seek`, from the row beside the cursor.
    fn seek_beside(&self, p: &Pred, down: bool) -> (r: Option<usize>)
        ensures
            state::index_view(r) == self@.seek(p@, self@.beside(down), down),
    {
        reveal(AppV::seek);

        if down {
            if self.selected >= self.file_span.1 {
                return None;
            }
            self.seek(p, self.selected + 1, true)
        } else {
            if self.selected == 0 {
                return None;
            }
            self.seek(p, self.selected - 1, false)
        }
    }

    /// First stop at/beyond `from` scanning down or up, within the file.
    pub fn nearest_stop(&self, from: usize, down: bool) -> (r: Option<usize>)
        ensures
            state::index_view(r) == self@.seek(PredV::Stop, from as int, down),
    {
        self.seek(&Pred::Stop, from, down)
    }

    /// Map a clicked/landed row to the stop it should select: itself if it's a stop, the
    /// message head if it's inside a message, else the nearest stop.
    pub fn stop_for(&self, idx: usize) -> (r: Option<usize>)
        ensures
            state::index_view(r) == self@.stop_for(idx as nat),
    {
        reveal(AppV::stop_for);
        reveal(AppV::unit_span);

        if self.is_stop_at(idx) {
            return Some(idx);
        }
        if let Some((lo, _)) = self.comment_unit_span(idx) {
            return Some(lo);
        }
        match self.nearest_stop(idx, true) {
            Some(i) => Some(i),
            None => self.nearest_stop(idx, false),
        }
    }

    /// `(thread_id, comment_id)` the cursor is currently on, if it's a comment.
    pub fn focused_comment(&self) -> (r: Option<(String, String)>)
        ensures
            state::unit_view(r) == self@.unit_at(self@.selected),
    {
        self.comment_unit_at(self.selected)
    }

    /// The id of the first comment thread anchored to the selected line, if any.
    pub fn current_thread_id(&self) -> (r: Option<String>)
        ensures
            strs::opt_view(r) == self@.current_thread(),
    {
        match self.anchor_at(self.selected) {
            Some((f, side, line)) => {
                if f >= self.changeset.files.len() {
                    return None;
                }
                assert(self.changeset.files@[f as int]@ == self@.files[f as int]);
                let path = self.changeset.files[f].display_path();
                let mut k: usize = 0;
                while k < self.comments.threads.len()
                    invariant
                        0 <= k <= self.comments.threads.len(),
                        self@.current_thread() == covering(
                            self@.threads,
                            path@,
                            side,
                            line,
                            k as nat,
                        ),
                    decreases self.comments.threads.len() - k,
                {
                    let t = &self.comments.threads[k];
                    assert(t@ == self@.threads[k as int]);
                    if t.side == side && t.range.contains(line) && paths::same_path(
                        t.file.as_str(),
                        path,
                    ) {
                        return Some(t.id.clone());
                    }
                    k += 1;
                }
                None
            },
            None => None,
        }
    }

    /// The thread the cursor acts on: the focused comment's thread, else the thread anchored
    /// to the focused diff line.
    pub fn focused_thread_id(&self) -> (r: Option<String>)
        ensures
            strs::opt_view(r) == self@.focused_thread(),
    {
        match self.comment_at(self.selected) {
            Some(cl) => Some(cl.thread_id.clone()),
            None => self.current_thread_id(),
        }
    }

    /// Make the file of row `row` the current one.
    pub(crate) fn follow_row(&mut self, row: usize)
        ensures
            final(self)@ == old(self)@.with_file_of(row as nat),
    {
        reveal(AppV::with_file_of);

        self.current_file = match self.row_file_idx(row) {
            Some(f) => f,
            None => self.current_file,
        };
    }

    fn select_stop_for(&mut self, row: usize)
        ensures
            final(self)@ == old(self)@.with_stop_for(row as nat),
    {
        reveal(AppV::with_stop_for);

        self.selected = match self.stop_for(row) {
            Some(i) => i,
            None => row,
        };
    }

    /// Move the cursor to the first row of `thread_id` (and switch to its file). A button acts
    /// on the clicked box regardless of where the cursor sits, but the rebuild that follows
    /// anchors the viewport to the cursor; with the cursor here the thread stays on screen.
    pub fn select_thread(&mut self, thread_id: &str)
        ensures
            final(self)@ == old(self)@.on_thread(thread_id@),
    {
        reveal(AppV::on_thread);

        let p = Pred::Thread(strs::owned(thread_id));
        let len: usize = self.active_len();
        match self.find_first(&p, 0, len) {
            Some(row) => {
                self.follow_row(row);
                self.recompute_file_span();
                self.select_stop_for(row);
            },
            None => {},
        }
    }

    /// `[start, end)` row range of the current file in the active list. Files are contiguous,
    /// so this is a single slice.
    pub fn file_range(&self) -> (r: (usize, usize))
        ensures
            (r.0 as nat, r.1 as nat) == self@.file_span,
    {
        self.file_span
    }

    /// Recompute the current-file row span. Call after any change to `current_file`, `view`,
    /// or the active row list, and before code that reads `file_range`.
    pub fn recompute_file_span(&mut self)
        ensures
            final(self)@ == old(self)@.with_span(),
    {
        reveal(AppV::with_span);

        let len: usize = self.active_len();
        assert(self@.file_spans.len() == self.file_spans.len());
        self.file_span = if self.current_file < self.file_spans.len() {
            self.file_spans[self.current_file]
        } else {
            (len, len)
        };
    }

    /// After the active row list changes, recompute every file's span and that of the current
    /// file together.
    pub fn resync_file_spans(&mut self)
        ensures
            final(self)@ == old(self)@.resynced(),
    {
        reveal(AppV::resynced);

        self.rebuild_file_spans();
        self.recompute_file_span();
    }

    /// Recompute the `[start, end)` row span of *every* file in the active row list in a
    /// single pass.
    pub fn rebuild_file_spans(&mut self)
        ensures
            final(self)@ == (AppV { file_spans: old(self)@.all_spans(), ..old(self)@ }),
    {
        let n: usize = self.changeset.files.len();
        let len: usize = self.active_len();
        let ghost a = self@;
        let mut spans: Vec<(usize, usize)> = Vec::new();
        let mut k: usize = 0;
        while k < n
            invariant
                k <= n,
                spans.len() == k,
                forall|f: int| 0 <= f < k ==> #[trigger] spans@[f] == (len, len),
            decreases n - k,
        {
            spans.push((len, len));
            k += 1;
        }
        let mut i: usize = 0;
        while i < len
            invariant
                i <= len,
                len == self@.active_len(),
                a == self@,
                n == self@.files.len(),
                spans.len() == n,
                forall|f: int|
                    0 <= f < n ==> ((#[trigger] spans@[f]).0 as nat, spans@[f].1 as nat)
                        == a.span_among(f as nat, i as nat),
            decreases len - i,
        {
            let ghost before = spans@;
            let row = self.row_file_idx(i);
            if let Some(fi) = row {
                if fi < spans.len() {
                    let (s, _) = spans[fi];
                    assert((before[fi as int].0 as nat, before[fi as int].1 as nat)
                        == a.span_among(fi as nat, i as nat));
                    spans.set(
                        fi,
                        (
                            if s == len {
                                i
                            } else {
                                s
                            },
                            i + 1,
                        ),
                    );
                }
            }
            assert forall|f: int| 0 <= f < n implies (
                (#[trigger] spans@[f]).0 as nat,
                spans@[f].1 as nat,
            ) == a.span_among(f as nat, i as nat + 1) by {
                assert((before[f].0 as nat, before[f].1 as nat) == a.span_among(
                    f as nat,
                    i as nat,
                ));
                assert(a.row_file(i as nat) == state::index_view(row));
            }
            i += 1;
        }
        assert(state::spans_view(spans@) == a.all_spans());
        self.file_spans = spans;
    }

    /// Switch the diff pane to the next/prev file.
    pub fn jump_file(&mut self, dir: isize)
        ensures
            final(self)@ == old(self)@.on_next_file(dir as int),
    {
        reveal(AppV::on_next_file);

        let n: usize = self.changeset.files.len();
        if n == 0 {
            return ;
        }
        let target: usize = step(self.current_file, dir, 0, n - 1);
        if target == self.current_file {
            return ;
        }
        self.set_current_file(target);
    }

    /// The row of file `f` in the sidebar, or else the first.
    fn sidebar_row(&self, f: usize) -> (r: usize)
        ensures
            r == self@.sidebar_row(f as nat),
    {
        reveal(AppV::sidebar_row);

        if f < self.file_to_sbrow.len() && self.file_to_sbrow[f] != usize::MAX {
            self.file_to_sbrow[f]
        } else {
            0
        }
    }

    fn set_file(&mut self, file: usize)
        ensures
            final(self)@ == old(self)@.with_file(file as nat),
    {
        reveal(AppV::with_file);

        let last: usize = sat_sub(self.changeset.files.len(), 1);
        self.sel_anchor = None;
        self.current_file = if file < last {
            file
        } else {
            last
        };
    }

    fn set_sidebar_cursor(&mut self)
        ensures
            final(self)@ == old(self)@.with_sidebar_cursor(),
    {
        reveal(AppV::with_sidebar_cursor);

        self.sidebar_sel = self.sidebar_row(self.current_file);
    }

    fn point_at(&mut self, file: usize)
        ensures
            final(self)@ == old(self)@.pointed_at(file as nat),
    {
        reveal(AppV::pointed_at);

        self.set_file(file);
        self.recompute_file_span();
        // A file in a collapsed directory has no visible row; open its ancestors.
        self.reveal_file_in_tree(self.current_file);
        self.set_sidebar_cursor();
        self.reveal_sidebar();
    }

    fn go_to_top(&mut self)
        ensures
            final(self)@ == old(self)@.at_top(),
    {
        reveal(AppV::at_top);

        let start: usize = self.file_span.0;
        self.selected = match self.first_selectable() {
            Some(i) => i,
            None => start,
        };
        self.scroll = start;
        self.ensure_visible();
    }

    /// Point the diff pane at `file`, resetting the cursor to its top.
    pub fn set_current_file(&mut self, file: usize)
        ensures
            final(self)@ == old(self)@.on_file(file as nat),
    {
        reveal(AppV::on_file);

        self.point_at(file);
        self.go_to_top();
    }

    /// Is the file sidebar an actual pane the user can focus?
    pub fn sidebar_available(&self) -> (r: bool)
        ensures
            r == self@.has_sidebar(),
    {
        self.show_sidebar && self.changeset.files.len() > 0
    }

    /// Focus clamped to reality (never Sidebar when there's no sidebar).
    pub fn effective_focus(&self) -> (r: Focus)
        ensures
            r == self@.active_pane(),
    {
        if self.sidebar_available() {
            self.focus
        } else {
            Focus::Diff
        }
    }

    /// Selection background for the diff pane (dim when it isn't focused).
    pub fn diff_cursor_bg(&self) -> (r: Color)
        ensures
            r == cursor_bg(self@),
    {
        if self.effective_focus() == Focus::Diff {
            self.theme.cursor_bg
        } else {
            self.theme.unfocus_bg
        }
    }

    /// Enter/leave visual line-select mode. Entering anchors the selection at the cursor;
    /// leaving drops it.
    pub fn toggle_visual(&mut self)
        ensures
            final(self)@ == old(self)@.visual_toggled(),
    {
        reveal(AppV::visual_toggled);

        if self.visual {
            self.visual = false;
            self.sel_anchor = None;
            self.status = strs::owned("visual off");
        } else {
            self.visual = true;
            self.sel_anchor = Some(self.selected);
            self.status = strs::owned("visual — j/k to extend, i to comment, esc to cancel");
        }
    }

    /// Extend the line selection by one row (Shift+Up/Down). Moves only across selectable
    /// *diff lines* (skipping comment rows), so that a comment always finds lines to anchor
    /// to. A no-op when there is no diff line in that direction.
    ///
    /// Unlike `v`, this does not enter visual mode: terminals can't report that Shift was
    /// released, so the next unmodified movement collapses the range.
    pub fn extend_selection(&mut self, down: bool)
        ensures
            final(self)@ == old(self)@.extended(down),
    {
        reveal(AppV::extended);

        match self.seek_beside(&Pred::Selectable, down) {
            Some(i) => {
                self.sel_anchor = match self.sel_anchor {
                    Some(k) => Some(k),
                    None => Some(self.selected),
                };
                self.selected = i;
                self.status = strs::owned("shift+↑/↓ to extend · i to comment · move to clear");
                self.ensure_visible();
            },
            None => {},
        }
    }

    /// The (file, side, line-range) covered by the current selection, matching the cursor
    /// line's file+side. Falls back to the single cursor line when there's no active
    /// selection. Lines on a different side/file than the cursor are ignored (a comment
    /// anchors to one side).
    pub fn selection_range(&self) -> (r: Option<(usize, Side, u32, u32)>)
        ensures
            range_view(r) == self@.selection_range(),
    {
        reveal(AppV::selection_range);

        match self.anchor_at(self.selected) {
            Some((fi, side, cur)) => {
                let (lo, hi) = self.selection_bounds();
                let mut start: u32 = cur;
                let mut end: u32 = cur;
                let mut i: usize = lo;
                let mut done = false;
                while !done
                    invariant
                        lo <= hi,
                        lo <= i <= hi,
                        (start, end) == self@.lines_among(
                            fi as nat,
                            side,
                            cur,
                            lo as nat,
                            if done {
                                hi as nat + 1
                            } else {
                                i as nat
                            },
                        ),
                    decreases
                        hi - i,
                        if done {
                            0int
                        } else {
                            1int
                        },
                {
                    if let Some((f, s, l)) = self.anchor_at(i) {
                        if f == fi && s == side {
                            if l < start {
                                start = l;
                            }
                            if l > end {
                                end = l;
                            }
                        }
                    }
                    if i == hi {
                        done = true;
                    } else {
                        i += 1;
                    }
                }
                Some((fi, side, start, end))
            },
            None => None,
        }
    }

    /// Move the cursor to the next stop down or up. A plain move collapses a selection that
    /// is not visual.
    pub fn move_selection(&mut self, down: bool)
        ensures
            final(self)@ == old(self)@.moved(down),
    {
        reveal(AppV::moved);

        self.drop_anchor();
        match self.seek_beside(&Pred::Stop, down) {
            Some(i) => {
                self.selected = i;
                self.ensure_visible();
            },
            None => {},
        }
    }

    /// Drop the selection's anchor, unless in visual mode.
    fn drop_anchor(&mut self)
        ensures
            final(self)@ == old(self)@.unanchored(),
    {
        reveal(AppV::unanchored);

        if !self.visual {
            self.sel_anchor = None;
        }
    }

    /// Move the selection `count` selectable rows down or up.
    pub fn move_by(&mut self, down: bool, count: usize)
        ensures
            final(self)@ == old(self)@.moved_by(down, count as nat),
    {
        let ghost whole = self@.moved_by(down, count as nat);
        let mut left: usize = count;
        while left > 0
            invariant
                whole == old(self)@.moved_by(down, count as nat),
                self@.moved_by(down, left as nat) == whole,
            decreases left,
        {
            let before: usize = self.selected;
            self.move_selection(down);
            if self.selected == before {
                // hit top/bottom
                return ;
            }
            left -= 1;
        }
    }

    /// Scroll the viewport by `delta` rows. The cursor stays put, and may scroll out of view.
    /// The last full screen is the furthest, so that no scrolling goes past the final line
    /// into empty space.
    pub fn scroll_view(&mut self, delta: isize)
        ensures
            final(self)@ == old(self)@.scrolled(delta as int),
    {
        reveal(AppV::scrolled);

        let (start, end) = self.file_span;
        // An effective viewport height of at least 1 keeps scroll math valid even when the
        // bordered diff panel's inner height is 0.
        let height: usize = self.view_height();
        let max_top: usize = self.max_scroll_row(start, end, height);
        self.scroll = step(self.scroll, delta, start, max_top);
    }

    fn view_height(&self) -> (r: usize)
        ensures
            r == text::at_least_one(self@.height),
    {
        if self.height == 0 {
            1
        } else {
            self.height
        }
    }

    fn last_shown(&self) -> (r: usize)
        ensures
            r == self@.last_shown(),
    {
        let end: usize = self.file_span.1;
        let height: usize = self.view_height();
        let mut room: usize = height;
        let mut t: usize = self.scroll;
        while t < end
            invariant_except_break
                self.scroll <= t,
                self@.fit_down(t as nat, end as nat, room as nat) == self@.fit_down(
                    self@.scroll,
                    end as nat,
                    height as nat,
                ),
            ensures
                self.scroll <= t,
                t == self@.fit_down(self@.scroll, end as nat, height as nat),
            decreases end - t,
        {
            let h: usize = self.row_h(t);
            if h > room {
                break;
            }
            room -= h;
            t += 1;
        }
        if t > self.scroll {
            t - 1
        } else {
            self.scroll
        }
    }

    /// Scroll the viewport by one row, dragging the cursor back into view if it would fall
    /// outside (less/vim Ctrl-E / Ctrl-Y behavior).
    pub fn scroll_line(&mut self, delta: isize)
        ensures
            final(self)@ == old(self)@.scrolled(delta as int).cursor_kept(),
    {
        reveal(AppV::cursor_kept);

        self.scroll_view(delta);
        let last: usize = self.last_shown();
        let to = if self.selected < self.scroll {
            self.nearest_stop(self.scroll, true)
        } else if self.selected > last {
            self.nearest_stop(last, false)
        } else {
            None
        };
        match to {
            Some(i) => {
                self.drop_anchor();
                self.selected = i;
            },
            None => {},
        }
    }

    /// Scroll so that the cursor is visible: for a focused comment the whole message (biased
    /// to its top when taller than the viewport), otherwise the cursor row, with all of its
    /// visual lines.
    pub fn ensure_visible(&mut self)
        ensures
            final(self)@ == old(self)@.visible(),
    {
        reveal(AppV::visible);

        let (start, end) = self.file_span;
        let height: usize = self.view_height();
        let (top_row, bot_row) = match self.comment_unit_span(self.selected) {
            Some(s) => s,
            None => (self.selected, self.selected),
        };
        let need_top: usize = self.top_to_show(start, bot_row, height);
        let mut scroll: usize = self.scroll;
        if scroll < need_top {
            scroll = need_top;
        }
        if top_row < scroll {
            scroll = top_row;
        }
        // Never scroll outside the current file's slice, and never past the last full screen
        // of content.
        let max: usize = self.max_scroll_row(start, end, height);
        self.scroll = if scroll < start {
            start
        } else if scroll > max {
            max
        } else {
            scroll
        };
    }

    /// Place the cursor at the first (or last) stop of the file.
    pub fn jump_edge(&mut self, last: bool)
        ensures
            final(self)@ == old(self)@.at_edge(last),
    {
        reveal(AppV::at_edge);

        self.drop_anchor();
        let to = if last {
            self.last_selectable()
        } else {
            self.first_selectable()
        };
        self.selected = match to {
            Some(i) => i,
            None => 0,
        };
        self.ensure_visible();
    }

    fn next_head(&self, down: bool) -> (r: Option<usize>)
        ensures
            state::index_view(r) == self@.next_head(down),
    {
        reveal(AppV::next_head);

        let (start, end) = self.file_span;
        if down {
            let beyond = if self.selected >= end {
                None
            } else if self.selected + 1 < start {
                self.find_first(&Pred::Head, start, end)
            } else {
                self.find_first(&Pred::Head, self.selected + 1, end)
            };
            match beyond {
                Some(i) => Some(i),
                None => self.find_first(&Pred::Head, start, end),
            }
        } else {
            let beyond = if self.selected < end {
                self.find_last(&Pred::Head, start, self.selected)
            } else {
                self.find_last(&Pred::Head, start, end)
            };
            match beyond {
                Some(i) => Some(i),
                None => self.find_last(&Pred::Head, start, end),
            }
        }
    }

    /// Jump to the next/previous comment thread of the file: once per thread, at its first
    /// line.
    pub fn jump_comment(&mut self, down: bool)
        ensures
            final(self)@ == old(self)@.at_next_comment(down),
    {
        reveal(AppV::at_next_comment);

        let next = self.next_head(down);
        self.sel_anchor = None;
        match next {
            Some(i) => {
                self.selected = i;
                self.ensure_visible();
            },
            None => {
                self.status = strs::owned("no comments");
            },
        }
    }

    /// Toggle soft-wrap, keeping the cursor in view under the new geometry. The heights are
    /// recomputed on the next draw (the content width is only known there).
    pub fn toggle_wrap(&mut self)
        ensures
            final(self)@ == old(self)@.wrap_toggled(),
    {
        reveal(AppV::wrap_toggled);

        self.status = if self.wrap {
            strs::owned("wrap off")
        } else {
            strs::owned("wrap on")
        };
        self.wrap = !self.wrap;
        self.geom.dirty = true;
        self.geom.heights.clear();
        self.geom.offsets.clear();
        assert(self@.geom.heights == Seq::<u16>::empty());
        assert(self@.geom.offsets == Seq::<usize>::empty());
        self.ensure_visible();
    }
}

/// Selection background for the diff pane.
pub open spec fn cursor_bg(a: AppV) -> Color {
    if a.active_pane() == Focus::Diff {
        a.theme.cursor_bg
    } else {
        a.theme.unfocus_bg
    }
}

/// The view of an optional range.
pub open spec fn range_view(r: Option<(usize, Side, u32, u32)>) -> Option<(nat, Side, u32, u32)> {
    match r {
        Some((f, side, s, e)) => Some((f as nat, side, s, e)),
        None => None,
    }
}

} // verus!
