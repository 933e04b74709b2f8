//! Key and mouse input handling.
use crate::comments::model;
use crate::strs;
use crate::ui::app::comments;
use crate::ui::app::comments::Drawn;
use crate::ui::app::editor::{KeyCode, Mods};
use crate::ui::app::nav;
use crate::ui::app::state::{App, AppV, ButtonAction, ButtonV, Focus, HitV, ViewMode};
use crate::ui::app::wrap;
use crate::ui::app::wrap::{sat_add, sat_sub};
use crate::ui::render_rows::rows::RowKind;
use crate::ui::render_rows::split::{SplitKindV, SplitRowKind};
use crate::ui::render_rows::text;
use crate::ui::style;
use crate::ui::style::hit;
use vstd::prelude::*;

verus! {

/// What the mouse did.
#[derive(Debug, Clone, Copy, PartialEq, Eq, Structural)]
pub enum MouseKind {
    /// The left button was pressed.
    Down,
    /// A button was released.
    Up,
    /// The mouse was moved with the left button held.
    Drag,
    ScrollDown,
    ScrollUp,
    Other,
}

/// A mouse event, at a cell of the screen.
#[derive(Debug, Clone, Copy, PartialEq, Eq, Structural)]
pub struct Mouse {
    pub kind: MouseKind,
    pub column: u16,
    pub row: u16,
}

/// The top lines that put the thumb of each scrollbar under the pointer.
#[derive(Debug, Clone, Copy, PartialEq, Eq, Structural)]
pub struct Thumbs {
    pub diff: usize,
    pub sidebar: usize,
}

/// What a key does in any pane.
#[derive(Debug, Clone, Copy, PartialEq, Eq, Structural)]
pub enum Global {
    Quit,
    View,
    Sidebar,
    Repaint,
    Wrap,
    /// It is for the focused pane.
    Pane,
}

/// What a key does in the file list. A flag says whether it goes down, or to the last.
#[derive(Debug, Clone, Copy, PartialEq, Eq, Structural)]
pub enum TreeAct {
    Move(bool),
    Edge(bool),
    Close,
    Open,
    Toggle,
    File(bool),
    Diff,
    Nothing,
}

/// What a key does in the diff. A flag says whether it goes down, or to the last.
#[derive(Debug, Clone, Copy, PartialEq, Eq, Structural)]
pub enum DiffAct {
    Extend(bool),
    Line(bool),
    HalfPage(bool),
    Page(bool),
    Scroll(bool),
    Edge(bool),
    Comment(bool),
    Visual,
    NewThread,
    Reply,
    Resolve,
    Delete,
    File(bool),
    Copy,
    Tree,
    Leave,
    Nothing,
}

/// What a key does in any pane: quit only on `q` and Ctrl-C, never on Esc.
pub open spec fn global_act(code: KeyCode, mods: Mods) -> Global {
    if code == KeyCode::Char('q') || (mods.ctrl && code == KeyCode::Char('c')) {
        Global::Quit
    } else if code == KeyCode::Tab || code == KeyCode::Char('s') {
        Global::View
    } else if mods.ctrl && code == KeyCode::Char('b') {
        Global::Sidebar
    } else if mods.ctrl && code == KeyCode::Char('l') {
        Global::Repaint
    } else if code == KeyCode::Char('w') {
        Global::Wrap
    } else {
        Global::Pane
    }
}

/// What a key does in the file list.
pub open spec fn tree_act(code: KeyCode) -> TreeAct {
    match code {
        KeyCode::Down => TreeAct::Move(true),
        KeyCode::Up => TreeAct::Move(false),
        KeyCode::Home => TreeAct::Edge(false),
        KeyCode::End => TreeAct::Edge(true),
        KeyCode::Left => TreeAct::Close,
        KeyCode::Right => TreeAct::Diff,
        KeyCode::Enter => TreeAct::Diff,
        KeyCode::Char(c) => if c == 'j' {
            TreeAct::Move(true)
        } else if c == 'k' {
            TreeAct::Move(false)
        } else if c == 'g' {
            TreeAct::Edge(false)
        } else if c == 'G' {
            TreeAct::Edge(true)
        } else if c == 'h' {
            TreeAct::Close
        } else if c == 'l' {
            TreeAct::Open
        } else if c == ' ' || c == 'o' {
            TreeAct::Toggle
        } else if c == ']' {
            TreeAct::File(true)
        } else if c == '[' {
            TreeAct::File(false)
        } else {
            TreeAct::Nothing
        },
        _ => TreeAct::Nothing,
    }
}

/// What a key does in the diff.
pub open spec fn diff_act(code: KeyCode, ctrl: bool, shift: bool) -> DiffAct {
    match code {
        KeyCode::Down => if shift {
            DiffAct::Extend(true)
        } else {
            DiffAct::Line(true)
        },
        KeyCode::Up => if shift {
            DiffAct::Extend(false)
        } else {
            DiffAct::Line(false)
        },
        KeyCode::PageDown => DiffAct::Page(true),
        KeyCode::PageUp => DiffAct::Page(false),
        KeyCode::Home => DiffAct::Edge(false),
        KeyCode::End => DiffAct::Edge(true),
        KeyCode::Left => DiffAct::Tree,
        KeyCode::Esc => DiffAct::Leave,
        KeyCode::Char(c) => if c == 'j' {
            DiffAct::Line(true)
        } else if c == 'k' {
            DiffAct::Line(false)
        } else if c == 'd' && ctrl {
            DiffAct::HalfPage(true)
        } else if c == 'u' && ctrl {
            DiffAct::HalfPage(false)
        } else if c == ' ' || c == 'f' {
            DiffAct::Page(true)
        } else if c == 'b' {
            DiffAct::Page(false)
        } else if c == 'e' && ctrl {
            DiffAct::Scroll(true)
        } else if c == 'y' && ctrl {
            DiffAct::Scroll(false)
        } else if c == 'g' {
            DiffAct::Edge(false)
        } else if c == 'G' {
            DiffAct::Edge(true)
        } else if c == 'n' {
            DiffAct::Comment(true)
        } else if c == 'N' {
            DiffAct::Comment(false)
        } else if c == 'v' {
            DiffAct::Visual
        } else if c == 'i' {
            DiffAct::NewThread
        } else if c == 'r' {
            DiffAct::Reply
        } else if c == 'R' {
            DiffAct::Resolve
        } else if c == 'D' {
            DiffAct::Delete
        } else if c == ']' {
            DiffAct::File(true)
        } else if c == '[' {
            DiffAct::File(false)
        } else if c == 'y' {
            DiffAct::Copy
        } else {
            DiffAct::Nothing
        },
        _ => DiffAct::Nothing,
    }
}

fn global_of(code: KeyCode, mods: Mods) -> (r: Global)
    ensures
        r == global_act(code, mods),
{
    match code {
        KeyCode::Tab => Global::View,
        KeyCode::Char('q') => Global::Quit,
        KeyCode::Char('s') => Global::View,
        KeyCode::Char('w') => Global::Wrap,
        KeyCode::Char('c') if mods.ctrl => Global::Quit,
        KeyCode::Char('b') if mods.ctrl => Global::Sidebar,
        KeyCode::Char('l') if mods.ctrl => Global::Repaint,
        _ => Global::Pane,
    }
}

fn tree_act_of(code: KeyCode) -> (r: TreeAct)
    ensures
        r == tree_act(code),
{
    match code {
        KeyCode::Char('j') | KeyCode::Down => TreeAct::Move(true),
        KeyCode::Char('k') | KeyCode::Up => TreeAct::Move(false),
        KeyCode::Char('g') | KeyCode::Home => TreeAct::Edge(false),
        KeyCode::Char('G') | KeyCode::End => TreeAct::Edge(true),
        KeyCode::Char('h') | KeyCode::Left => TreeAct::Close,
        KeyCode::Char('l') => TreeAct::Open,
        KeyCode::Char(' ') | KeyCode::Char('o') => TreeAct::Toggle,
        KeyCode::Char(']') => TreeAct::File(true),
        KeyCode::Char('[') => TreeAct::File(false),
        KeyCode::Right | KeyCode::Enter => TreeAct::Diff,
        _ => TreeAct::Nothing,
    }
}

fn diff_act_of(code: KeyCode, ctrl: bool, shift: bool) -> (r: DiffAct)
    ensures
        r == diff_act(code, ctrl, shift),
{
    match code {
        // Modified arrow keys survive tmux/SSH without the kitty protocol.
        KeyCode::Down if shift => DiffAct::Extend(true),
        KeyCode::Up if shift => DiffAct::Extend(false),
        KeyCode::Char('j') | KeyCode::Down => DiffAct::Line(true),
        KeyCode::Char('k') | KeyCode::Up => DiffAct::Line(false),
        // Half-page down / up: Ctrl-D / Ctrl-U.
        KeyCode::Char('d') if ctrl => DiffAct::HalfPage(true),
        KeyCode::Char('u') if ctrl => DiffAct::HalfPage(false),
        // Full page: Space / Ctrl-F / PageDown forward, b / PageUp back.
        KeyCode::Char(' ') | KeyCode::Char('f') | KeyCode::PageDown => DiffAct::Page(true),
        KeyCode::Char('b') | KeyCode::PageUp => DiffAct::Page(false),
        // One-line viewport scroll, cursor stays in view (less/vim).
        KeyCode::Char('e') if ctrl => DiffAct::Scroll(true),
        KeyCode::Char('y') if ctrl => DiffAct::Scroll(false),
        KeyCode::Char('g') | KeyCode::Home => DiffAct::Edge(false),
        KeyCode::Char('G') | KeyCode::End => DiffAct::Edge(true),
        KeyCode::Char('n') => DiffAct::Comment(true),
        KeyCode::Char('N') => DiffAct::Comment(false),
        KeyCode::Char('v') => DiffAct::Visual,
        KeyCode::Char('i') => DiffAct::NewThread,
        KeyCode::Char('r') => DiffAct::Reply,
        KeyCode::Char('R') => DiffAct::Resolve,
        KeyCode::Char('D') => DiffAct::Delete,
        KeyCode::Char(']') => DiffAct::File(true),
        KeyCode::Char('[') => DiffAct::File(false),
        KeyCode::Char('y') => DiffAct::Copy,
        KeyCode::Left => DiffAct::Tree,
        KeyCode::Esc => DiffAct::Leave,
        _ => DiffAct::Nothing,
    }
}

/// The first button from `i` on that is under the pointer.
pub open spec fn hit_among(hits: Seq<HitV>, col: u16, row: u16, i: nat) -> Option<ButtonV>
    decreases hits.len() - i,
{
    if i >= hits.len() {
        None
    } else if style::inside(hits[i as int].rect, col, row) {
        Some(hits[i as int].action)
    } else {
        hit_among(hits, col, row, i + 1)
    }
}

/// One down or up.
pub open spec fn unit(down: bool) -> int {
    if down {
        1
    } else {
        -1
    }
}

fn unit_of(down: bool) -> (r: isize)
    ensures
        r == unit(down),
{
    if down {
        1
    } else {
        -1
    }
}

impl AppV {
    /// The code of row `i`, where it is a diff line: without the sign, or the new side's.
    #[verifier::opaque]
    pub open spec fn line_text(self, i: nat) -> Option<Seq<char>> {
        match self.view {
            ViewMode::Unified => if i < self.rows.len() && self.rows[i as int].kind is Line {
                Some(wrap::code_of(self.rows[i as int].text))
            } else {
                None
            },
            ViewMode::Split => if i < self.split_rows.len() {
                match self.split_rows[i as int].kind {
                    SplitKindV::Pair { left, right } => match right {
                        Some(c) => Some(c.text),
                        None => match left {
                            Some(c) => Some(c.text),
                            None => None,
                        },
                    },
                    _ => None,
                }
            } else {
                None
            },
        }
    }

    /// The code of the diff lines among rows `[lo, n)`.
    pub open spec fn texts_among(self, lo: nat, n: nat) -> Seq<Seq<char>>
        decreases n,
    {
        if n <= lo {
            Seq::empty()
        } else {
            let before = self.texts_among(lo, (n - 1) as nat);
            match self.line_text((n - 1) as nat) {
                Some(t) => before.push(t),
                None => before,
            }
        }
    }

    /// The text of a comment.
    #[verifier::opaque]
    pub open spec fn body_of(self, thread_id: Seq<char>, comment_id: Seq<char>) -> Option<
        Seq<char>,
    > {
        match model::find(self.threads, thread_id) {
            Some(i) => match model::find_comment(self.threads[i].comments, comment_id) {
                Some(j) => Some(self.threads[i].comments[j].body),
                None => None,
            },
            None => None,
        }
    }

    /// With the selection on its way to the clipboard: the text of the comment that the
    /// cursor is on, or else the selected lines.
    #[verifier::opaque]
    pub open spec fn copied(self) -> AppV {
        match self.unit_at(self.selected) {
            Some((t, c)) => match self.body_of(t, c) {
                Some(body) => AppV {
                    status: "copied comment"@,
                    pending_copy: Some(body),
                    ..self
                },
                None => self,
            },
            None => {
                let (lo, hi) = self.bounds();
                let lines = self.texts_among(lo, hi + 1);
                if lines.len() == 0 {
                    self
                } else {
                    AppV {
                        status: "copied "@ + strs::dec(lines.len()) + " line(s)"@,
                        pending_copy: Some(strs::joined(lines, '\n')),
                        ..self
                    }
                }
            },
        }
    }

    /// The row `off` display lines below the top of row `i`, or the end.
    pub open spec fn row_below(self, i: nat, end: nat, off: nat) -> nat
        decreases end - i,
    {
        if i < end && off >= self.row_h(i) {
            self.row_below(i + 1, end, (off - self.row_h(i)) as nat)
        } else {
            i
        }
    }

    /// The row of the file at terminal row `row`.
    #[verifier::opaque]
    pub open spec fn row_at(self, row: u16) -> nat {
        let (start, end) = self.file_span;
        let off = wrap::monus(row as int, self.diff_area.y as int);
        let i = self.row_below(wrap::larger(self.scroll, start), end, off);
        nav::clamped(i as int, start, wrap::larger(wrap::monus(end as int, 1), start))
    }

    /// With the cursor at row `i`. A range only makes sense between diff lines: landing on a
    /// comment drops its anchor.
    #[verifier::opaque]
    pub open spec fn with_click(self, i: nat, anchor: bool) -> AppV {
        AppV {
            selected: i,
            sel_anchor: if !self.selectable(i) {
                None
            } else if anchor {
                Some(i)
            } else {
                self.sel_anchor
            },
            ..self
        }
    }

    /// With the diff focused.
    #[verifier::opaque]
    pub open spec fn on_diff(self) -> AppV {
        AppV { focus: Focus::Diff, ..self }
    }

    /// After a click into the diff, or a drag.
    #[verifier::opaque]
    pub open spec fn diff_clicked(self, row: u16, anchor: bool) -> AppV {
        let a = self.on_diff();
        match a.stop_for(a.row_at(row)) {
            Some(i) => a.with_click(i, anchor).visible(),
            None => a,
        }
    }

    /// With the top of the diff `pos` lines down the file.
    #[verifier::opaque]
    pub open spec fn diff_dragged(self, pos: usize) -> AppV {
        AppV {
            sb_drag: Some(Focus::Diff),
            scroll: wrap::saturated(self.file_span.0 + pos) as nat,
            ..self
        }
    }

    /// With the top of the file list at row `pos`.
    #[verifier::opaque]
    pub open spec fn sidebar_dragged(self, pos: usize) -> AppV {
        AppV { sb_drag: Some(Focus::Sidebar), sidebar_scroll: pos as nat, ..self }
    }

    /// With no drag.
    #[verifier::opaque]
    pub open spec fn released(self) -> AppV {
        AppV { resizing: false, sb_drag: None, ..self }
    }

    /// With the divider being dragged.
    #[verifier::opaque]
    pub open spec fn grabbed(self) -> AppV {
        AppV { resizing: true, ..self }
    }

    /// After a button was pressed.
    #[verifier::opaque]
    pub open spec fn button_pressed(self, b: ButtonV, d: Drawn) -> AppV {
        match b {
            ButtonV::AddComment => self.new_thread_opened(),
            ButtonV::Submit => self.submitted(d),
            ButtonV::Cancel => self.cancelled().rebuilt(),
            ButtonV::Reply(t) => self.on_thread(t).reply_opened_to(t),
            ButtonV::ToggleResolve(t) => self.on_thread(t).resolve_toggled(t),
            ButtonV::Delete(t, c) => self.on_thread(t).comment_deleted(t, c),
        }
    }

    /// Whether the pointer is over the sidebar.
    pub open spec fn over_sidebar(self, m: Mouse) -> bool {
        self.sidebar_area.width > 0 && style::inside(self.sidebar_area, m.column, m.row)
    }

    /// After the wheel was turned: the pane under the pointer scrolls, and the cursor stays.
    #[verifier::opaque]
    pub open spec fn wheeled(self, m: Mouse, delta: int) -> AppV {
        if self.over_sidebar(m) {
            self.sidebar_scrolled(delta)
        } else {
            self.on_diff().scrolled(delta)
        }
    }

    /// After a left click that hit no button.
    #[verifier::opaque]
    pub open spec fn clicked(self, m: Mouse, at: Thumbs) -> AppV {
        if style::inside(self.diff_sb, m.column, m.row) {
            self.diff_dragged(at.diff)
        } else if style::inside(self.sidebar_sb, m.column, m.row) {
            self.sidebar_dragged(at.sidebar)
        } else if self.divider() == Some(m.column as int) {
            self.grabbed()
        } else if self.over_sidebar(m) {
            self.sidebar_clicked(m.row)
        } else if style::inside(self.diff_area, m.column, m.row) {
            self.diff_clicked(m.row, true)
        } else {
            self
        }
    }

    /// After a drag with the left button.
    #[verifier::opaque]
    pub open spec fn dragged(self, m: Mouse, at: Thumbs) -> AppV {
        if self.sb_drag == Some(Focus::Diff) {
            self.diff_dragged(at.diff)
        } else if self.sb_drag == Some(Focus::Sidebar) {
            self.sidebar_dragged(at.sidebar)
        } else if self.resizing {
            self.resized(m.column)
        } else if style::inside(self.diff_area, m.column, m.row) {
            self.diff_clicked(m.row, false)
        } else {
            self
        }
    }

    /// The button that a mouse event presses.
    pub open spec fn button_under(self, m: Mouse) -> Option<ButtonV> {
        if m.kind == MouseKind::Down {
            hit_among(self.button_hits, m.column, m.row, 0)
        } else {
            None
        }
    }

    /// After a mouse event. Buttons win over everything else; an open composer swallows all
    /// other events.
    #[verifier::opaque]
    pub open spec fn moused(self, m: Mouse, at: Thumbs, d: Drawn) -> AppV {
        match self.button_under(m) {
            Some(b) => self.button_pressed(b, d),
            None => if self.composer is Some {
                self
            } else {
                match m.kind {
                    MouseKind::Up => self.released(),
                    MouseKind::Down => self.clicked(m, at),
                    MouseKind::Drag => self.dragged(m, at),
                    MouseKind::ScrollDown => self.wheeled(m, 3),
                    MouseKind::ScrollUp => self.wheeled(m, -3),
                    MouseKind::Other => self,
                }
            },
        }
    }

    /// After a key in the file list.
    #[verifier::opaque]
    pub open spec fn tree_key(self, code: KeyCode) -> AppV {
        match tree_act(code) {
            TreeAct::Move(down) => self.sidebar_moved(down),
            TreeAct::Edge(last) => self.sidebar_at_edge(last),
            TreeAct::Close => self.folded_here(true),
            TreeAct::Open => self.folded_here(false),
            TreeAct::Toggle => self.fold_toggled_here(),
            TreeAct::File(next) => self.on_next_file(unit(next)),
            TreeAct::Diff => self.on_diff(),
            TreeAct::Nothing => self,
        }
    }

    /// With the file list focused, if there is one.
    #[verifier::opaque]
    pub open spec fn on_tree(self) -> AppV {
        if self.has_sidebar() {
            AppV { focus: Focus::Sidebar, ..self }
        } else {
            self
        }
    }

    /// Without a selection; out of visual mode, or else in the file list.
    #[verifier::opaque]
    pub open spec fn left(self) -> AppV {
        if self.visual {
            AppV { sel_anchor: None, visual: false, status: "visual off"@, ..self }
        } else {
            AppV { sel_anchor: None, ..self }.on_tree()
        }
    }

    /// After a key in the diff.
    #[verifier::opaque]
    pub open spec fn diff_key(self, code: KeyCode, ctrl: bool, shift: bool) -> AppV {
        match diff_act(code, ctrl, shift) {
            DiffAct::Extend(down) => self.extended(down),
            DiffAct::Line(down) => self.moved_by(down, 1),
            DiffAct::HalfPage(down) => self.moved_by(down, text::at_least_one(self.height / 2)),
            DiffAct::Page(down) => self.moved_by(down, text::at_least_one(self.height)),
            DiffAct::Scroll(down) => self.scrolled(unit(down)).cursor_kept(),
            DiffAct::Edge(last) => self.at_edge(last),
            DiffAct::Comment(down) => self.at_next_comment(down),
            DiffAct::Visual => self.visual_toggled(),
            DiffAct::NewThread => self.new_thread_opened(),
            DiffAct::Reply => self.reply_opened(),
            DiffAct::Resolve => self.resolve_toggled_here(),
            DiffAct::Delete => self.comment_deleted_here(),
            DiffAct::File(next) => self.on_next_file(unit(next)),
            DiffAct::Copy => self.copied(),
            DiffAct::Tree => self.on_tree(),
            DiffAct::Leave => self.left(),
            DiffAct::Nothing => self,
        }
    }

    /// With the sidebar shown or hidden.
    #[verifier::opaque]
    pub open spec fn sidebar_toggled(self) -> AppV {
        AppV {
            show_sidebar: !self.show_sidebar,
            focus: if self.show_sidebar {
                Focus::Diff
            } else {
                self.focus
            },
            ..self
        }
    }

    /// After a key. An open composer takes all of them.
    #[verifier::opaque]
    pub open spec fn keyed(self, code: KeyCode, mods: Mods, d: Drawn) -> AppV {
        if self.composer is Some {
            self.compose_key(code, mods, d)
        } else {
            match global_act(code, mods) {
                Global::Quit => AppV { quit: true, ..self },
                Global::View => self.view_toggled(),
                Global::Sidebar => self.sidebar_toggled(),
                Global::Repaint => AppV { needs_clear: true, ..self },
                Global::Wrap => self.wrap_toggled(),
                Global::Pane => match self.active_pane() {
                    Focus::Sidebar => self.tree_key(code),
                    Focus::Diff => self.diff_key(code, mods.ctrl, mods.shift),
                },
            }
        }
    }
}

/// The view of an optional button.
pub open spec fn button_view(b: Option<ButtonAction>) -> Option<ButtonV> {
    match b {
        Some(b) => Some(b@),
        None => None,
    }
}

impl App {
    /// The button whose recorded screen rect contains `(col, row)`, if any.
    pub fn button_at(&self, col: u16, row: u16) -> (r: Option<ButtonAction>)
        ensures
            button_view(r) == hit_among(self@.button_hits, col, row, 0),
    {
        let mut i: usize = 0;
        while i < self.button_hits.len()
            invariant
                0 <= i <= self.button_hits.len(),
                hit_among(self@.button_hits, col, row, 0) == hit_among(
                    self@.button_hits,
                    col,
                    row,
                    i as nat,
                ),
            decreases self.button_hits.len() - i,
        {
            assert(self@.button_hits[i as int] == self.button_hits@[i as int]@);
            if hit(self.button_hits[i].rect, col, row) {
                return Some(self.button_hits[i].action.clone());
            }
            i += 1;
        }
        None
    }

    /// Run a clicked button's action.
    pub fn dispatch_button(&mut self, action: ButtonAction)
        ensures
            exists|d: Drawn|
                final(self)@ == #[trigger] old(self)@.button_pressed(action@, d) && (
                action@ is Submit ==> comments::fresh_ids(d)),
    {
        reveal(AppV::button_pressed);

        let ghost a = self@;
        let ghost none = comments::drawn(Seq::empty(), Seq::empty(), 0);
        match action {
            ButtonAction::AddComment => {
                self.open_new_thread();
                assert(self@ == a.button_pressed(action@, none));
            },
            ButtonAction::Submit => {
                self.submit_compose();
                let ghost d = choose|d: Drawn|
                    self@ == #[trigger] a.submitted(d) && comments::fresh_ids(d);
                assert(self@ == a.button_pressed(action@, d));
            },
            ButtonAction::Cancel => {
                self.cancel_compose();
                assert(self@ == a.button_pressed(action@, none));
            },
            ButtonAction::Reply(tid) => {
                self.select_thread(tid.as_str());
                self.open_reply_to(tid);
                assert(self@ == a.button_pressed(action@, none));
            },
            ButtonAction::ToggleResolve(tid) => {
                self.select_thread(tid.as_str());
                self.toggle_resolved_thread(tid);
                assert(self@ == a.button_pressed(action@, none));
            },
            ButtonAction::Delete(tid, cid) => {
                self.select_thread(tid.as_str());
                self.delete_comment(tid, cid);
                assert(self@ == a.button_pressed(action@, none));
            },
        }
    }

    fn over_sidebar(&self, m: Mouse) -> (r: bool)
        ensures
            r == self@.over_sidebar(m),
    {
        self.sidebar_area.width > 0 && hit(self.sidebar_area, m.column, m.row)
    }

    fn wheel(&mut self, m: Mouse, delta: isize)
        ensures
            final(self)@ == old(self)@.wheeled(m, delta as int),
    {
        reveal(AppV::wheeled);

        if self.over_sidebar(m) {
            self.scroll_sidebar(delta);
        } else {
            self.focus_diff();
            self.scroll_view(delta);
        }
    }

    fn click(&mut self, m: Mouse, at: Thumbs)
        ensures
            final(self)@ == old(self)@.clicked(m, at),
    {
        reveal(AppV::clicked);

        if hit(self.diff_sb, m.column, m.row) {
            self.drag_diff_sb(at.diff);
        } else if hit(self.sidebar_sb, m.column, m.row) {
            self.drag_sidebar_sb(at.sidebar);
        } else if self.on_divider(m.column) {
            self.grab_divider();
        } else if self.over_sidebar(m) {
            self.click_sidebar(m.row);
        } else if hit(self.diff_area, m.column, m.row) {
            self.click_diff(m.row, true);
        }
    }

    fn drag(&mut self, m: Mouse, at: Thumbs)
        ensures
            final(self)@ == old(self)@.dragged(m, at),
    {
        reveal(AppV::dragged);

        if self.sb_drag == Some(Focus::Diff) {
            self.drag_diff_sb(at.diff);
        } else if self.sb_drag == Some(Focus::Sidebar) {
            self.drag_sidebar_sb(at.sidebar);
        } else if self.resizing {
            self.resize_to(m.column);
        } else if hit(self.diff_area, m.column, m.row) {
            // Drag in the diff extends the line selection.
            self.click_diff(m.row, false);
        }
    }

    /// Mouse: wheel scrolls the pane under the pointer; left-click selects; dragging the
    /// divider resizes the sidebar. `at` says where the thumbs of the scrollbars would stand
    /// under the pointer. Clickable buttons win over everything else (and work while the
    /// composer is open, since its submit/cancel live in the box).
    pub fn on_mouse(&mut self, m: Mouse, at: Thumbs)
        ensures
            exists|d: Drawn|
                final(self)@ == #[trigger] old(self)@.moused(m, at, d) && (
                old(self)@.button_under(m) == Some(ButtonV::Submit) ==> comments::fresh_ids(d)),
    {
        reveal(AppV::moused);

        let ghost a = self@;
        let ghost none = comments::drawn(Seq::empty(), Seq::empty(), 0);
        let button = if m.kind == MouseKind::Down {
            self.button_at(m.column, m.row)
        } else {
            None
        };
        if let Some(action) = button {
            let ghost b = action@;
            self.dispatch_button(action);
            let ghost d = choose|d: Drawn|
                self@ == #[trigger] a.button_pressed(b, d) && (b is Submit ==> comments::fresh_ids(
                    d,
                ));
            assert(self@ == a.moused(m, at, d));
            return ;
        }
        if self.composer.is_none() {
            match m.kind {
                MouseKind::Up => self.release(),
                MouseKind::Down => self.click(m, at),
                MouseKind::Drag => self.drag(m, at),
                MouseKind::ScrollDown => self.wheel(m, 3),
                MouseKind::ScrollUp => self.wheel(m, -3),
                MouseKind::Other => {},
            }
        }
        assert(self@ == a.moused(m, at, none));
    }

    /// The code text of row `idx` (sign stripped / new side), if it's a line.
    pub fn line_text(&self, idx: usize) -> (r: Option<String>)
        ensures
            strs::opt_view(r) == self@.line_text(idx as nat),
    {
        reveal(AppV::line_text);

        match self.view {
            ViewMode::Unified => {
                if idx < self.rows.len() {
                    assert(self@.rows[idx as int] == self.rows@[idx as int]@);
                    match &self.rows[idx].kind {
                        RowKind::Line { .. } => Some(
                            wrap::code_text(self.rows[idx].text.as_str()),
                        ),
                        _ => None,
                    }
                } else {
                    None
                }
            },
            ViewMode::Split => {
                if idx < self.split_rows.len() {
                    assert(self@.split_rows[idx as int] == self.split_rows@[idx as int]@);
                    match &self.split_rows[idx].kind {
                        SplitRowKind::Pair { left, right } => match right {
                            Some(c) => Some(c.text.clone()),
                            None => match left {
                                Some(c) => Some(c.text.clone()),
                                None => None,
                            },
                        },
                        _ => None,
                    }
                } else {
                    None
                }
            },
        }
    }

    fn selected_texts(&self) -> (r: Vec<String>)
        ensures
            strs::views(r@) == self@.texts_among(self@.bounds().0, self@.bounds().1 + 1),
    {
        broadcast use strs::lemma_views_push;

        let (lo, hi) = self.selection_bounds();
        let mut lines: Vec<String> = Vec::new();
        let mut i: usize = lo;
        let mut done = false;
        assert(strs::views(lines@) == Seq::<Seq<char>>::empty());
        while !done
            invariant
                lo <= i <= hi,
                strs::views(lines@) == self@.texts_among(
                    lo as nat,
                    if done {
                        hi as nat + 1
                    } else {
                        i as nat
                    },
                ),
            decreases
                hi - i,
                if done {
                    0int
                } else {
                    1int
                },
        {
            if let Some(t) = self.line_text(i) {
                let ghost before = lines@;
                lines.push(t);
                assert(strs::views(lines@) == strs::views(before).push(t@));
            }
            if i == hi {
                done = true;
            } else {
                i += 1;
            }
        }
        lines
    }

    fn body_of(&self, thread_id: &str, comment_id: &str) -> (r: Option<String>)
        ensures
            strs::opt_view(r) == self@.body_of(thread_id@, comment_id@),
    {
        reveal(AppV::body_of);

        match self.comments.position(thread_id) {
            Some(i) => {
                assert(self.comments.threads@[i as int]@ == self@.threads[i as int]);
                let t = &self.comments.threads[i];
                match t.position(comment_id) {
                    Some(j) => {
                        assert(t.comments@[j as int]@ == t@.comments[j as int]);
                        Some(t.comments[j].body.clone())
                    },
                    None => None,
                }
            },
            None => None,
        }
    }

    /// Copy the selection to the system clipboard (via OSC 52 next frame): the focused
    /// comment's body when a comment is selected, else the diff lines.
    pub fn copy_selection(&mut self)
        ensures
            final(self)@ == old(self)@.copied(),
    {
        reveal(AppV::copied);

        if let Some((thread_id, comment_id)) = self.focused_comment() {
            if let Some(body) = self.body_of(thread_id.as_str(), comment_id.as_str()) {
                self.status = strs::owned("copied comment");
                self.pending_copy = Some(body);
            }
            return ;
        }
        let lines = self.selected_texts();
        assert(strs::views(lines@).len() == lines@.len());
        if lines.len() == 0 {
            return ;
        }
        let mut status = strs::owned("copied ");
        strs::push_dec(&mut status, lines.len() as u64);
        status.append(" line(s)");
        self.status = status;
        self.pending_copy = Some(strs::join(&lines, '\n'));
    }

    /// Put the top of the diff `pos` display lines down the file.
    pub fn drag_diff_sb(&mut self, pos: usize)
        ensures
            final(self)@ == old(self)@.diff_dragged(pos),
    {
        reveal(AppV::diff_dragged);

        self.sb_drag = Some(Focus::Diff);
        self.scroll = sat_add(self.file_span.0, pos);
    }

    /// Put the top of the file list at row `pos`.
    pub fn drag_sidebar_sb(&mut self, pos: usize)
        ensures
            final(self)@ == old(self)@.sidebar_dragged(pos),
    {
        reveal(AppV::sidebar_dragged);

        self.sb_drag = Some(Focus::Sidebar);
        self.sidebar_scroll = pos;
    }

    fn release(&mut self)
        ensures
            final(self)@ == old(self)@.released(),
    {
        reveal(AppV::released);

        self.resizing = false;
        self.sb_drag = None;
    }

    fn grab_divider(&mut self)
        ensures
            final(self)@ == old(self)@.grabbed(),
    {
        reveal(AppV::grabbed);

        self.resizing = true;
    }

    fn focus_diff(&mut self)
        ensures
            final(self)@ == old(self)@.on_diff(),
    {
        reveal(AppV::on_diff);

        self.focus = Focus::Diff;
    }

    fn focus_tree(&mut self)
        ensures
            final(self)@ == old(self)@.on_tree(),
    {
        reveal(AppV::on_tree);

        if self.sidebar_available() {
            self.focus = Focus::Sidebar;
        }
    }

    /// The row of the file at terminal row `row`: walks the row heights from the top of the
    /// viewport. With wrap off every height is 1.
    fn row_at(&self, row: u16) -> (r: usize)
        ensures
            r == self@.row_at(row),
    {
        reveal(AppV::row_at);

        let (start, end) = self.file_span;
        let top: usize = if self.scroll < start {
            start
        } else {
            self.scroll
        };
        let off: usize = if row > self.diff_area.y {
            (row - self.diff_area.y) as usize
        } else {
            0
        };
        let mut left: usize = off;
        let mut idx: usize = top;
        while idx < end
            invariant_except_break
                self@.row_below(idx as nat, end as nat, left as nat) == self@.row_below(
                    top as nat,
                    end as nat,
                    off as nat,
                ),
            ensures
                idx == self@.row_below(top as nat, end as nat, off as nat),
            decreases end - idx,
        {
            let h: usize = self.row_h(idx);
            if left < h {
                break;
            }
            left -= h;
            idx += 1;
        }
        let last: usize = sat_sub(end, 1);
        let max: usize = if last < start {
            start
        } else {
            last
        };
        if idx < start {
            start
        } else if idx > max {
            max
        } else {
            idx
        }
    }

    fn place_cursor(&mut self, i: usize, anchor: bool)
        ensures
            final(self)@ == old(self)@.with_click(i as nat, anchor),
    {
        reveal(AppV::with_click);

        let line = self.is_selectable_at(i);
        self.selected = i;
        self.sel_anchor = if !line {
            None
        } else if anchor {
            Some(i)
        } else {
            self.sel_anchor
        };
    }

    /// Place the cursor at the clicked diff row. `anchor` starts a new selection there;
    /// otherwise the existing anchor is kept (drag extend).
    pub fn click_diff(&mut self, row: u16, anchor: bool)
        ensures
            final(self)@ == old(self)@.diff_clicked(row, anchor),
    {
        reveal(AppV::diff_clicked);

        self.focus_diff();
        let idx: usize = self.row_at(row);
        if let Some(i) = self.stop_for(idx) {
            self.place_cursor(i, anchor);
            self.ensure_visible();
        }
    }

    fn toggle_sidebar(&mut self)
        ensures
            final(self)@ == old(self)@.sidebar_toggled(),
    {
        reveal(AppV::sidebar_toggled);

        if self.show_sidebar {
            self.focus = Focus::Diff;
        }
        self.show_sidebar = !self.show_sidebar;
    }

    /// A key press.
    pub fn on_key(&mut self, code: KeyCode, mods: Mods)
        ensures
            exists|d: Drawn|
                #![trigger old(self)@.keyed(code, mods, d)]
                final(self)@ == old(self)@.keyed(code, mods, d) && comments::key_draws(
                    old(self)@,
                    code,
                    mods,
                    d,
                ),
    {
        reveal(AppV::keyed);

        let ghost a = self@;
        // While composing, the composer owns every keystroke.
        if self.composer.is_some() {
            self.on_key_compose(code, mods);
            let ghost d = choose|d: Drawn|
                #![trigger a.compose_key(code, mods, d)]
                self@ == a.compose_key(code, mods, d) && comments::key_draws(a, code, mods, d);
            assert(self@ == a.keyed(code, mods, d));
            return ;
        }
        match global_of(code, mods) {
            Global::Quit => {
                self.quit = true;
            },
            Global::View => self.toggle_view(),
            Global::Sidebar => self.toggle_sidebar(),
            Global::Repaint => {
                self.needs_clear = true;
            },
            Global::Wrap => self.toggle_wrap(),
            Global::Pane => match self.effective_focus() {
                Focus::Sidebar => self.on_key_sidebar(code),
                Focus::Diff => self.on_key_diff(code, mods.ctrl, mods.shift),
            },
        }
        assert(self@ == a.keyed(code, mods, comments::drawn(Seq::empty(), Seq::empty(), 0)));
    }

    /// Navigation when the file sidebar (left pane) is focused.
    pub fn on_key_sidebar(&mut self, code: KeyCode)
        ensures
            final(self)@ == old(self)@.tree_key(code),
            code == KeyCode::Right || code == KeyCode::Enter ==> final(self)@.focus == Focus::Diff,
    {
        reveal(AppV::tree_key);
        reveal(AppV::on_diff);

        match tree_act_of(code) {
            TreeAct::Move(down) => self.move_sidebar(down),
            TreeAct::Edge(last) => self.sidebar_edge(last),
            TreeAct::Close => self.fold_dir(true),
            TreeAct::Open => self.fold_dir(false),
            TreeAct::Toggle => self.fold_dir_toggle(),
            TreeAct::File(next) => self.jump_file(unit_of(next)),
            TreeAct::Diff => self.focus_diff(),
            TreeAct::Nothing => {},
        }
    }

    /// Drop any drag selection; leave visual mode, or else hand focus back to the sidebar.
    fn leave(&mut self)
        ensures
            final(self)@ == old(self)@.left(),
    {
        reveal(AppV::left);

        self.sel_anchor = None;
        if self.visual {
            self.visual = false;
            self.status = strs::owned("visual off");
        } else {
            self.focus_tree();
        }
    }

    /// Navigation when the diff pane is focused.
    pub fn on_key_diff(&mut self, code: KeyCode, ctrl: bool, shift: bool)
        ensures
            final(self)@ == old(self)@.diff_key(code, ctrl, shift),
    {
        reveal(AppV::diff_key);

        let page: usize = if self.height == 0 {
            1
        } else {
            self.height
        };
        let half: usize = if self.height / 2 == 0 {
            1
        } else {
            self.height / 2
        };
        match diff_act_of(code, ctrl, shift) {
            DiffAct::Extend(down) => self.extend_selection(down),
            DiffAct::Line(down) => self.move_by(down, 1),
            DiffAct::HalfPage(down) => self.move_by(down, half),
            DiffAct::Page(down) => self.move_by(down, page),
            DiffAct::Scroll(down) => self.scroll_line(unit_of(down)),
            DiffAct::Edge(last) => self.jump_edge(last),
            DiffAct::Comment(down) => self.jump_comment(down),
            DiffAct::Visual => self.toggle_visual(),
            DiffAct::NewThread => self.open_new_thread(),
            DiffAct::Reply => self.open_reply(),
            DiffAct::Resolve => self.resolve_current_thread(),
            DiffAct::Delete => self.delete_current_comment(),
            DiffAct::File(next) => self.jump_file(unit_of(next)),
            DiffAct::Copy => self.copy_selection(),
            DiffAct::Tree => self.focus_tree(),
            DiffAct::Leave => self.leave(),
            DiffAct::Nothing => {},
        }
    }
}

} // verus!
