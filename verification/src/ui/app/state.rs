//! The state of the application, and what can be read from it.
//!
//! [`AppV`] is the state as a mathematical value. Every operation of [`App`] says what it
//! makes of that value.
use crate::comments::model::{CommentStore, ThreadV};
use crate::diff::model::{Changeset, DiffFileV, Side};
use crate::paths;
use crate::strs;
use crate::ui::app::editor;
use crate::ui::app::editor::{Editor, TextV};
use crate::ui::render_rows::rows;
use crate::ui::render_rows::rows::{Row, RowKind, RowKindV, RowV};
use crate::ui::render_rows::split;
use crate::ui::render_rows::split::{SplitKindV, SplitRow, SplitRowKind, SplitRowV};
use crate::ui::render_rows::threads::{CommentLine, CommentLineV, ComposerKindV};
use crate::ui::sidebar::{SbRow, SbRowV};
use crate::ui::style::Rect;
use crate::ui::theme::Theme;
use vstd::prelude::*;

verus! {

/// Diff layout: unified (stacked) or split (old | new).
#[derive(Debug, Clone, Copy, PartialEq, Eq, Structural)]
pub enum ViewMode {
    Unified,
    Split,
}

/// Which pane keyboard navigation acts on.
#[derive(Debug, Clone, Copy, PartialEq, Eq, Structural)]
pub enum Focus {
    Sidebar,
    Diff,
}

/// A view-independent handle to the selected row, stable across row rebuilds and
/// unified/split switches (raw indices are not).
#[derive(Debug)]
pub enum SelKey {
    /// A diff line, keyed by its comment anchor `(file, side, line)`.
    Line(usize, Side, u32),
    /// A comment message, keyed by its stable id.
    Comment(String),
}

/// What an open composer will write on submit.
#[derive(Debug)]
pub enum ComposeTarget {
    /// A brand-new thread anchored to a diff line range (`start == end` for a single line).
    NewThread { file_idx: usize, side: Side, start: u32, end: u32 },
    /// A reply appended to an existing thread.
    Reply { thread_id: String },
}

/// In-progress comment text and where it lands.
pub struct Composer {
    pub target: ComposeTarget,
    pub textarea: Editor,
}

/// A clickable on-screen button's effect. Thread and comment ids are captured so a click
/// acts on that box regardless of where the keyboard cursor currently sits.
#[derive(Debug)]
pub enum ButtonAction {
    /// Start a new comment on the current diff-line selection (same as `i`).
    AddComment,
    /// Submit the open composer (same as Ctrl+S).
    Submit,
    /// Cancel the open composer (same as Esc).
    Cancel,
    /// Reply to the given thread.
    Reply(String),
    /// Toggle resolved on the given thread.
    ToggleResolve(String),
    /// Delete a session-added comment (thread_id, comment_id).
    Delete(String, String),
}

/// A button on the screen.
#[derive(Debug)]
pub struct Hit {
    pub rect: Rect,
    pub action: ButtonAction,
}

/// Per-row display heights (terminal lines) of the active view, valid only while wrap is
/// on, with their prefix sums, and the content width they were computed for.
#[derive(Debug)]
pub struct Geom {
    pub heights: Vec<u16>,
    pub offsets: Vec<usize>,
    pub width: usize,
    pub dirty: bool,
}

/// Diff/review state. Comments are loaded from a sidecar (immutable), displayed and
/// navigated inline, and mutated in place; at the end the final store is compared with the
/// base to give the action log.
pub struct App {
    pub changeset: Changeset,
    pub rows: Vec<Row>,
    pub split_rows: Vec<SplitRow>,
    pub comments: CommentStore,
    /// Comment ids present at load. These comments are immutable: only ones added
    /// in-session can be deleted.
    pub base_comment_ids: Vec<String>,
    pub view: ViewMode,
    /// Index into the active row list.
    pub selected: usize,
    /// Top row of the viewport.
    pub scroll: usize,
    /// Last known viewport height.
    pub height: usize,
    pub status: String,
    pub needs_clear: bool,
    pub show_sidebar: bool,
    pub sidebar_width: u16,
    /// Top row of the sidebar (independent of selection).
    pub sidebar_scroll: usize,
    /// Cursor row in the sidebar.
    pub sidebar_sel: usize,
    /// Directory paths collapsed in the sidebar tree.
    pub collapsed: Vec<String>,
    /// Width used to wrap inline comment bodies.
    pub comment_wrap: usize,
    /// Dragging the sidebar/diff divider.
    pub resizing: bool,
    pub focus: Focus,
    /// The diff pane shows only this file.
    pub current_file: usize,
    pub sidebar_rows: Vec<SbRow>,
    /// File index to row of the sidebar.
    pub file_to_sbrow: Vec<usize>,
    /// Selection anchor (cursor = `selected`).
    pub sel_anchor: Option<usize>,
    /// Text to push to the clipboard next frame.
    pub pending_copy: Option<String>,
    /// Per-file (additions, deletions).
    pub file_stats: Vec<(usize, usize)>,
    /// Last-drawn diff pane rect (for mouse hit-testing).
    pub diff_area: Rect,
    /// Last-drawn sidebar rect (zero-sized when hidden).
    pub sidebar_area: Rect,
    /// Diff scrollbar track (zero-sized when none).
    pub diff_sb: Rect,
    /// Sidebar scrollbar track (zero-sized when none).
    pub sidebar_sb: Rect,
    /// Which scrollbar is being dragged.
    pub sb_drag: Option<Focus>,
    /// Clickable button regions of the last frame.
    pub button_hits: Vec<Hit>,
    /// `[start, end)` row span of `current_file`.
    pub file_span: (usize, usize),
    /// `[start, end)` row span of every file in the active row list.
    pub file_spans: Vec<(usize, usize)>,
    pub composer: Option<Composer>,
    /// Visual line-select mode: movement keeps `sel_anchor`.
    pub visual: bool,
    /// Soft-wrap long diff code lines instead of clipping them.
    pub wrap: bool,
    pub geom: Geom,
    /// The unified rows are stale.
    pub unified_dirty: bool,
    /// The split rows are stale.
    pub split_dirty: bool,
    pub theme: Theme,
    pub quit: bool,
}

/// What a [`SelKey`] says.
#[verifier::ext_equal]
pub enum SelKeyV {
    Line(nat, Side, u32),
    Comment(Seq<char>),
}

/// What a [`ComposeTarget`] says.
#[verifier::ext_equal]
pub enum TargetV {
    NewThread { file_idx: nat, side: Side, start: u32, end: u32 },
    Reply { thread_id: Seq<char> },
}

/// What a [`Composer`] holds: the text, and the whole buffer, with its selection, its history
/// and what it has to yank.
#[verifier::ext_equal]
pub struct ComposerStateV {
    pub target: TargetV,
    pub text: TextV,
    pub buffer: Editor,
}

/// What a [`ButtonAction`] says.
#[verifier::ext_equal]
pub enum ButtonV {
    AddComment,
    Submit,
    Cancel,
    Reply(Seq<char>),
    ToggleResolve(Seq<char>),
    Delete(Seq<char>, Seq<char>),
}

/// What a [`Hit`] says.
#[verifier::ext_equal]
pub struct HitV {
    pub rect: Rect,
    pub action: ButtonV,
}

/// What a [`Geom`] says.
#[verifier::ext_equal]
pub struct GeomV {
    pub heights: Seq<u16>,
    pub offsets: Seq<usize>,
    pub width: usize,
    pub dirty: bool,
}

/// The state of the application.
pub struct AppV {
    pub files: Seq<DiffFileV>,
    pub rows: Seq<RowV>,
    pub split_rows: Seq<SplitRowV>,
    pub threads: Seq<ThreadV>,
    pub base_ids: Seq<Seq<char>>,
    pub view: ViewMode,
    pub selected: nat,
    pub scroll: nat,
    pub height: nat,
    pub status: Seq<char>,
    pub needs_clear: bool,
    pub show_sidebar: bool,
    pub sidebar_width: u16,
    pub sidebar_scroll: nat,
    pub sidebar_sel: nat,
    pub collapsed: Seq<Seq<char>>,
    pub comment_wrap: nat,
    pub resizing: bool,
    pub focus: Focus,
    pub current_file: nat,
    pub sidebar_rows: Seq<SbRowV>,
    pub file_to_sbrow: Seq<usize>,
    pub sel_anchor: Option<nat>,
    pub pending_copy: Option<Seq<char>>,
    pub file_stats: Seq<(usize, usize)>,
    pub diff_area: Rect,
    pub sidebar_area: Rect,
    pub diff_sb: Rect,
    pub sidebar_sb: Rect,
    pub sb_drag: Option<Focus>,
    pub button_hits: Seq<HitV>,
    pub file_span: (nat, nat),
    pub file_spans: Seq<(nat, nat)>,
    pub composer: Option<ComposerStateV>,
    pub visual: bool,
    pub wrap: bool,
    pub geom: GeomV,
    pub unified_dirty: bool,
    pub split_dirty: bool,
    pub theme: Theme,
    pub quit: bool,
}

impl View for SelKey {
    type V = SelKeyV;

    open spec fn view(&self) -> SelKeyV {
        match *self {
            SelKey::Line(f, s, l) => SelKeyV::Line(f as nat, s, l),
            SelKey::Comment(c) => SelKeyV::Comment(c@),
        }
    }
}

impl View for ComposeTarget {
    type V = TargetV;

    open spec fn view(&self) -> TargetV {
        match *self {
            ComposeTarget::NewThread { file_idx, side, start, end } => TargetV::NewThread {
                file_idx: file_idx as nat,
                side,
                start,
                end,
            },
            ComposeTarget::Reply { thread_id } => TargetV::Reply { thread_id: thread_id@ },
        }
    }
}

impl View for Composer {
    type V = ComposerStateV;

    open spec fn view(&self) -> ComposerStateV {
        ComposerStateV {
            target: self.target@,
            text: editor::text_view(self.textarea),
            buffer: self.textarea,
        }
    }
}

impl View for ButtonAction {
    type V = ButtonV;

    open spec fn view(&self) -> ButtonV {
        match *self {
            ButtonAction::AddComment => ButtonV::AddComment,
            ButtonAction::Submit => ButtonV::Submit,
            ButtonAction::Cancel => ButtonV::Cancel,
            ButtonAction::Reply(t) => ButtonV::Reply(t@),
            ButtonAction::ToggleResolve(t) => ButtonV::ToggleResolve(t@),
            ButtonAction::Delete(t, c) => ButtonV::Delete(t@, c@),
        }
    }
}

impl Clone for ButtonAction {
    fn clone(&self) -> (r: ButtonAction)
        ensures
            r@ == self@,
    {
        match self {
            ButtonAction::AddComment => ButtonAction::AddComment,
            ButtonAction::Submit => ButtonAction::Submit,
            ButtonAction::Cancel => ButtonAction::Cancel,
            ButtonAction::Reply(t) => ButtonAction::Reply(t.clone()),
            ButtonAction::ToggleResolve(t) => ButtonAction::ToggleResolve(t.clone()),
            ButtonAction::Delete(t, c) => ButtonAction::Delete(t.clone(), c.clone()),
        }
    }
}

impl View for Hit {
    type V = HitV;

    open spec fn view(&self) -> HitV {
        HitV { rect: self.rect, action: self.action@ }
    }
}

impl View for Geom {
    type V = GeomV;

    open spec fn view(&self) -> GeomV {
        GeomV {
            heights: self.heights@,
            offsets: self.offsets@,
            width: self.width,
            dirty: self.dirty,
        }
    }
}

/// Row spans as numbers.
pub open spec fn spans_view(s: Seq<(usize, usize)>) -> Seq<(nat, nat)> {
    Seq::new(s.len(), |i: int| (s[i].0 as nat, s[i].1 as nat))
}

/// An optional index as a number.
pub open spec fn index_view(i: Option<usize>) -> Option<nat> {
    match i {
        Some(n) => Some(n as nat),
        None => None,
    }
}

/// The view of an optional composer.
pub open spec fn composer_view(c: Option<Composer>) -> Option<ComposerStateV> {
    match c {
        Some(c) => Some(c@),
        None => None,
    }
}

impl View for App {
    type V = AppV;

    open spec fn view(&self) -> AppV {
        AppV {
            files: self.changeset@,
            rows: strs::views(self.rows@),
            split_rows: strs::views(self.split_rows@),
            threads: self.comments@,
            base_ids: strs::views(self.base_comment_ids@),
            view: self.view,
            selected: self.selected as nat,
            scroll: self.scroll as nat,
            height: self.height as nat,
            status: self.status@,
            needs_clear: self.needs_clear,
            show_sidebar: self.show_sidebar,
            sidebar_width: self.sidebar_width,
            sidebar_scroll: self.sidebar_scroll as nat,
            sidebar_sel: self.sidebar_sel as nat,
            collapsed: strs::views(self.collapsed@),
            comment_wrap: self.comment_wrap as nat,
            resizing: self.resizing,
            focus: self.focus,
            current_file: self.current_file as nat,
            sidebar_rows: strs::views(self.sidebar_rows@),
            file_to_sbrow: self.file_to_sbrow@,
            sel_anchor: index_view(self.sel_anchor),
            pending_copy: strs::opt_view(self.pending_copy),
            file_stats: self.file_stats@,
            diff_area: self.diff_area,
            sidebar_area: self.sidebar_area,
            diff_sb: self.diff_sb,
            sidebar_sb: self.sidebar_sb,
            sb_drag: self.sb_drag,
            button_hits: strs::views(self.button_hits@),
            file_span: (self.file_span.0 as nat, self.file_span.1 as nat),
            file_spans: spans_view(self.file_spans@),
            composer: composer_view(self.composer),
            visual: self.visual,
            wrap: self.wrap,
            geom: self.geom@,
            unified_dirty: self.unified_dirty,
            split_dirty: self.split_dirty,
            theme: self.theme,
            quit: self.quit,
        }
    }
}

// ---- what can be read from the state ----

impl AppV {
    /// The number of rows of the active view.
    pub open spec fn active_len(self) -> nat {
        match self.view {
            ViewMode::Unified => self.rows.len(),
            ViewMode::Split => self.split_rows.len(),
        }
    }

    /// Whether row `i` is a diff line.
    pub open spec fn selectable(self, i: nat) -> bool {
        match self.view {
            ViewMode::Unified => i < self.rows.len() && self.rows[i as int].kind is Line,
            ViewMode::Split => i < self.split_rows.len() && self.split_rows[i as int].kind is Pair,
        }
    }

    /// The comment-thread line at row `i`.
    pub open spec fn comment_at(self, i: nat) -> Option<CommentLineV> {
        match self.view {
            ViewMode::Unified => if i < self.rows.len() {
                match self.rows[i as int].kind {
                    RowKindV::Comment(c) => Some(c),
                    _ => None,
                }
            } else {
                None
            },
            ViewMode::Split => if i < self.split_rows.len() {
                match self.split_rows[i as int].kind {
                    SplitKindV::Comment { side, line } => Some(line),
                    _ => None,
                }
            } else {
                None
            },
        }
    }

    /// Thread and comment of the message that row `i` belongs to, where it is a content line
    /// of a comment.
    pub open spec fn unit_at(self, i: nat) -> Option<(Seq<char>, Seq<char>)> {
        match self.comment_at(i) {
            Some(c) => match c.comment_id {
                Some(id) => Some((c.thread_id, id)),
                None => None,
            },
            None => None,
        }
    }

    /// The comment that row `i` is a content line of.
    pub open spec fn unit_id(self, i: nat) -> Option<Seq<char>> {
        match self.unit_at(i) {
            Some((t, c)) => Some(c),
            None => None,
        }
    }

    /// A place the cursor can land: a diff line, or the first row of a comment message.
    pub open spec fn stop(self, i: nat) -> bool {
        self.selectable(i) || (self.unit_id(i) is Some && (i == 0 || self.unit_id((i - 1) as nat)
            != self.unit_id(i)))
    }

    /// The first row of the message that row `i` is part of.
    pub open spec fn unit_lo(self, i: nat) -> nat
        decreases i,
    {
        if i > 0 && self.unit_id((i - 1) as nat) == self.unit_id(i) {
            self.unit_lo((i - 1) as nat)
        } else {
            i
        }
    }

    /// The last row of the message that row `i` is part of.
    pub open spec fn unit_hi(self, i: nat) -> nat
        decreases self.active_len() - i,
    {
        if i + 1 < self.active_len() && self.unit_id(i + 1) == self.unit_id(i) {
            self.unit_hi(i + 1)
        } else {
            i
        }
    }

    /// First and last row of the comment message covering row `i`.
    #[verifier::opaque]
    pub open spec fn unit_span(self, i: nat) -> Option<(nat, nat)> {
        if self.unit_id(i) is Some {
            Some((self.unit_lo(i), self.unit_hi(i)))
        } else {
            None
        }
    }

    /// The file that row `i` belongs to.
    pub open spec fn row_file(self, i: nat) -> Option<nat> {
        match self.view {
            ViewMode::Unified => if i < self.rows.len() {
                Some(self.rows[i as int].file_idx)
            } else {
                None
            },
            ViewMode::Split => if i < self.split_rows.len() {
                Some(self.split_rows[i as int].file_idx)
            } else {
                None
            },
        }
    }

    /// File, side and line of the diff line at row `i`.
    pub open spec fn anchor_at(self, i: nat) -> Option<(nat, Side, u32)> {
        match self.view {
            ViewMode::Unified => if i < self.rows.len() {
                match rows::row_anchor(self.rows[i as int]) {
                    Some((s, l)) => Some((self.rows[i as int].file_idx, s, l)),
                    None => None,
                }
            } else {
                None
            },
            ViewMode::Split => if i < self.split_rows.len() {
                match split::split_anchor(self.split_rows[i as int]) {
                    Some((s, l)) => Some((self.split_rows[i as int].file_idx, s, l)),
                    None => None,
                }
            } else {
                None
            },
        }
    }

    /// The line of the composer box at row `i`.
    pub open spec fn composer_at(self, i: nat) -> Option<ComposerKindV> {
        match self.view {
            ViewMode::Unified => if i < self.rows.len() {
                match self.rows[i as int].kind {
                    RowKindV::Composer(c) => Some(c),
                    _ => None,
                }
            } else {
                None
            },
            ViewMode::Split => if i < self.split_rows.len() {
                match self.split_rows[i as int].kind {
                    SplitKindV::Composer { side, line } => Some(line),
                    _ => None,
                }
            } else {
                None
            },
        }
    }

    /// Whether row `i` is the body row of the composer that carries the caret.
    pub open spec fn caret_at(self, i: nat) -> bool {
        match self.composer_at(i) {
            Some(ComposerKindV::Body(s)) => s.contains(COMPOSER_CARET),
            _ => false,
        }
    }

    /// Whether a thread on the file of row `i` starts at that row's line.
    pub open spec fn head_at(self, i: nat) -> bool {
        match self.anchor_at(i) {
            Some((f, side, line)) => f < self.files.len() && starts_at(
                self.threads,
                self.files[f as int].display_path(),
                side,
                line,
                self.threads.len(),
            ),
            None => false,
        }
    }

    /// Whether row `i` is what `p` asks for.
    #[verifier::opaque]
    pub open spec fn holds(self, p: PredV, i: nat) -> bool {
        match p {
            PredV::Stop => self.stop(i),
            PredV::Selectable => self.selectable(i),
            PredV::Key(k) => match k {
                SelKeyV::Line(f, s, l) => self.selectable(i) && self.anchor_at(i) == Some((f, s, l)),
                SelKeyV::Comment(c) => self.stop(i) && self.unit_id(i) == Some(c),
            },
            PredV::Thread(t) => match self.comment_at(i) {
                Some(c) => c.thread_id == t,
                None => false,
            },
            PredV::Composer => self.composer_at(i) is Some,
            PredV::NoComposer => self.composer_at(i) is None,
            PredV::Caret => self.caret_at(i),
            PredV::Head => self.head_at(i),
        }
    }

    /// The first row of `[i, end)` that is what `p` asks for.
    pub open spec fn first(self, p: PredV, i: nat, end: nat) -> Option<nat>
        decreases end - i,
    {
        if i >= end {
            None
        } else if self.holds(p, i) {
            Some(i)
        } else {
            self.first(p, i + 1, end)
        }
    }

    /// The last row of `[start, i)` that is what `p` asks for.
    pub open spec fn last(self, p: PredV, start: nat, i: nat) -> Option<nat>
        decreases i,
    {
        if i <= start {
            None
        } else if self.holds(p, (i - 1) as nat) {
            Some((i - 1) as nat)
        } else {
            self.last(p, start, (i - 1) as nat)
        }
    }
}

/// Whether one of the first `n` threads is on `path` and starts at this line.
pub open spec fn starts_at(
    threads: Seq<ThreadV>,
    path: Seq<char>,
    side: Side,
    line: u32,
    n: nat,
) -> bool
    decreases n,
{
    if n == 0 {
        false
    } else {
        let t = threads[n - 1];
        starts_at(threads, path, side, line, (n - 1) as nat) || (paths::same(t.file, path)
            && t.side == side && t.range.start == line)
    }
}

/// What to look for among the rows.
#[derive(Debug)]
pub enum Pred {
    /// A place the cursor can land.
    Stop,
    /// A diff line.
    Selectable,
    /// The row of a key.
    Key(SelKey),
    /// A line of a thread's box.
    Thread(String),
    /// A line of the composer's box.
    Composer,
    /// A line of anything else.
    NoComposer,
    /// The composer line with the caret.
    Caret,
    /// A diff line that a thread starts at.
    Head,
}

/// What a [`Pred`] says.
#[verifier::ext_equal]
pub enum PredV {
    Stop,
    Selectable,
    Key(SelKeyV),
    Thread(Seq<char>),
    Composer,
    NoComposer,
    Caret,
    Head,
}

impl View for Pred {
    type V = PredV;

    open spec fn view(&self) -> PredV {
        match *self {
            Pred::Stop => PredV::Stop,
            Pred::Selectable => PredV::Selectable,
            Pred::Key(k) => PredV::Key(k@),
            Pred::Thread(t) => PredV::Thread(t@),
            Pred::Composer => PredV::Composer,
            Pred::NoComposer => PredV::NoComposer,
            Pred::Caret => PredV::Caret,
            Pred::Head => PredV::Head,
        }
    }
}

/// Zero-width marker spliced in at the composer's cursor position. It is not a control
/// character, so it survives sanitizing; being zero-width, it never consumes a cell during
/// wrapping. The renderer finds it, drops it, and draws the cursor as a reversed overlay on
/// the cell under it.
pub const COMPOSER_CARET: char = '\u{2060}';

/// The view of an optional pair of ids.
pub open spec fn unit_view(u: Option<(String, String)>) -> Option<(Seq<char>, Seq<char>)> {
    match u {
        Some((t, c)) => Some((t@, c@)),
        None => None,
    }
}

/// The view of an optional comment line.
pub open spec fn line_view(c: Option<&CommentLine>) -> Option<CommentLineV> {
    match c {
        Some(c) => Some(c@),
        None => None,
    }
}

/// The view of an optional anchor.
pub open spec fn anchor_view(a: Option<(usize, Side, u32)>) -> Option<(nat, Side, u32)> {
    match a {
        Some((f, s, l)) => Some((f as nat, s, l)),
        None => None,
    }
}

/// The view of an optional span.
pub open spec fn span_view(s: Option<(usize, usize)>) -> Option<(nat, nat)> {
    match s {
        Some((a, b)) => Some((a as nat, b as nat)),
        None => None,
    }
}

fn has_char(s: &str, c: char) -> (r: bool)
    ensures
        r == s@.contains(c),
{
    let v = strs::chars_of(s);
    let mut i: usize = 0;
    while i < v.len()
        invariant
            v@ == s@,
            0 <= i <= v.len(),
            forall|k: int| 0 <= k < i ==> #[trigger] v@[k] != c,
        decreases v.len() - i,
    {
        if v[i] == c {
            return true;
        }
        i += 1;
    }
    false
}

impl App {
    /// The number of rows of the active view.
    pub fn active_len(&self) -> (r: usize)
        ensures
            r == self@.active_len(),
    {
        match self.view {
            ViewMode::Unified => self.rows.len(),
            ViewMode::Split => self.split_rows.len(),
        }
    }

    /// Whether row `i` is a diff line.
    pub fn is_selectable_at(&self, i: usize) -> (r: bool)
        ensures
            r == self@.selectable(i as nat),
    {
        match self.view {
            ViewMode::Unified => i < self.rows.len() && {
                assert(self@.rows[i as int] == self.rows@[i as int]@);
                self.rows[i].is_selectable()
            },
            ViewMode::Split => i < self.split_rows.len() && {
                assert(self@.split_rows[i as int] == self.split_rows@[i as int]@);
                self.split_rows[i].is_selectable()
            },
        }
    }

    /// The comment-thread line at row `i`, in whichever view is active.
    pub fn comment_at(&self, i: usize) -> (r: Option<&CommentLine>)
        ensures
            line_view(r) == self@.comment_at(i as nat),
    {
        match self.view {
            ViewMode::Unified => {
                if i < self.rows.len() {
                    assert(self@.rows[i as int] == self.rows@[i as int]@);
                    match &self.rows[i].kind {
                        RowKind::Comment(cl) => Some(cl),
                        _ => None,
                    }
                } else {
                    None
                }
            },
            ViewMode::Split => {
                if i < self.split_rows.len() {
                    assert(self@.split_rows[i as int] == self.split_rows@[i as int]@);
                    match &self.split_rows[i].kind {
                        SplitRowKind::Comment { line, .. } => Some(line),
                        _ => None,
                    }
                } else {
                    None
                }
            },
        }
    }

    /// `(thread_id, comment_id)` of the message that row `i` belongs to, if it's a content
    /// line of a comment (author/body/gap). Chrome rows return `None`.
    pub fn comment_unit_at(&self, i: usize) -> (r: Option<(String, String)>)
        ensures
            unit_view(r) == self@.unit_at(i as nat),
    {
        match self.comment_at(i) {
            Some(cl) => match &cl.comment_id {
                Some(id) => Some((cl.thread_id.clone(), id.clone())),
                None => None,
            },
            None => None,
        }
    }

    /// Whether rows `i` and `j` belong to the same message, or to none.
    fn same_unit(&self, i: usize, j: usize) -> (r: bool)
        ensures
            r == (self@.unit_id(i as nat) == self@.unit_id(j as nat)),
    {
        match (self.comment_unit_at(i), self.comment_unit_at(j)) {
            (Some((_, a)), Some((_, b))) => a == b,
            (None, None) => true,
            _ => false,
        }
    }

    /// A "stop" is a place the cursor can land: a diff line, or the *first* row of a comment
    /// message (so a multi-line message is a single stop).
    pub fn is_stop_at(&self, i: usize) -> (r: bool)
        ensures
            r == self@.stop(i as nat),
    {
        if self.is_selectable_at(i) {
            return true;
        }
        match self.comment_unit_at(i) {
            Some(_) => i == 0 || !self.same_unit(i - 1, i),
            None => false,
        }
    }

    /// Inclusive `[lo, hi]` rows of the comment message covering row `i`, if `i` is a comment
    /// content line. Used to highlight/scroll the whole message.
    pub fn comment_unit_span(&self, i: usize) -> (r: Option<(usize, usize)>)
        ensures
            span_view(r) == self@.unit_span(i as nat),
            r matches Some((lo, hi)) ==> lo <= i <= hi && hi < self@.active_len(),
    {
        reveal(AppV::unit_span);

        if self.comment_unit_at(i).is_none() {
            return None;
        }
        let mut lo: usize = i;
        while lo > 0 && self.same_unit(lo - 1, lo)
            invariant
                lo <= i,
                self@.unit_lo(lo as nat) == self@.unit_lo(i as nat),
            decreases lo,
        {
            lo -= 1;
        }
        let len: usize = self.active_len();
        let mut hi: usize = i;
        while hi < len - 1 && self.same_unit(hi + 1, hi)
            invariant
                i <= hi < len,
                len == self@.active_len(),
                self@.unit_hi(hi as nat) == self@.unit_hi(i as nat),
            decreases len - hi,
        {
            hi += 1;
        }
        Some((lo, hi))
    }

    /// The file index a row belongs to (header rows included).
    pub fn row_file_idx(&self, i: usize) -> (r: Option<usize>)
        ensures
            index_view(r) == self@.row_file(i as nat),
    {
        match self.view {
            ViewMode::Unified => {
                if i < self.rows.len() {
                    assert(self@.rows[i as int] == self.rows@[i as int]@);
                    Some(self.rows[i].file_idx)
                } else {
                    None
                }
            },
            ViewMode::Split => {
                if i < self.split_rows.len() {
                    assert(self@.split_rows[i as int] == self.split_rows@[i as int]@);
                    Some(self.split_rows[i].file_idx)
                } else {
                    None
                }
            },
        }
    }

    /// `(file_idx, side, line)` anchor for the row at `i`, if it carries one.
    pub fn anchor_at(&self, i: usize) -> (r: Option<(usize, Side, u32)>)
        ensures
            anchor_view(r) == self@.anchor_at(i as nat),
    {
        match self.view {
            ViewMode::Unified => {
                if i < self.rows.len() {
                    assert(self@.rows[i as int] == self.rows@[i as int]@);
                    match self.rows[i].anchor() {
                        Some((s, l)) => Some((self.rows[i].file_idx, s, l)),
                        None => None,
                    }
                } else {
                    None
                }
            },
            ViewMode::Split => {
                if i < self.split_rows.len() {
                    assert(self@.split_rows[i as int] == self.split_rows@[i as int]@);
                    match self.split_rows[i].anchor() {
                        Some((s, l)) => Some((self.split_rows[i].file_idx, s, l)),
                        None => None,
                    }
                } else {
                    None
                }
            },
        }
    }

    /// Whether the active row at `i` is a line of the inline composer box.
    pub fn is_composer_at(&self, i: usize) -> (r: bool)
        ensures
            r == (self@.composer_at(i as nat) is Some),
    {
        match self.view {
            ViewMode::Unified => {
                if i < self.rows.len() {
                    assert(self@.rows[i as int] == self.rows@[i as int]@);
                    match &self.rows[i].kind {
                        RowKind::Composer(_) => true,
                        _ => false,
                    }
                } else {
                    false
                }
            },
            ViewMode::Split => {
                if i < self.split_rows.len() {
                    assert(self@.split_rows[i as int] == self.split_rows@[i as int]@);
                    match &self.split_rows[i].kind {
                        SplitRowKind::Composer { .. } => true,
                        _ => false,
                    }
                } else {
                    false
                }
            },
        }
    }

    /// Whether the active row at `i` is the composer body row that carries the caret glyph.
    /// The caret can sit on any wrapped body line, so scrolling keys off the glyph itself.
    pub fn is_composer_caret_at(&self, i: usize) -> (r: bool)
        ensures
            r == self@.caret_at(i as nat),
    {
        match self.view {
            ViewMode::Unified => {
                if i < self.rows.len() {
                    assert(self@.rows[i as int] == self.rows@[i as int]@);
                    match &self.rows[i].kind {
                        RowKind::Composer(c) => c.has_caret(),
                        _ => false,
                    }
                } else {
                    false
                }
            },
            ViewMode::Split => {
                if i < self.split_rows.len() {
                    assert(self@.split_rows[i as int] == self.split_rows@[i as int]@);
                    match &self.split_rows[i].kind {
                        SplitRowKind::Composer { line, .. } => line.has_caret(),
                        _ => false,
                    }
                } else {
                    false
                }
            },
        }
    }

    /// Whether a thread on the file of row `i` starts at that row's line.
    fn is_head_at(&self, i: usize) -> (r: bool)
        ensures
            r == self@.head_at(i as nat),
    {
        match self.anchor_at(i) {
            Some((f, side, line)) => {
                if f >= self.changeset.files.len() {
                    return false;
                }
                assert(self.changeset.files@[f as int]@ == self@.files[f as int]);
                let path = self.changeset.files[f].display_path();
                let mut k: usize = 0;
                while k < self.comments.threads.len()
                    invariant
                        0 <= k <= self.comments.threads.len(),
                        f < self.changeset.files.len(),
                        path@ == self@.files[f as int].display_path(),
                        !starts_at(self@.threads, path@, side, line, k as nat),
                        self@.anchor_at(i as nat) == Some((f as nat, side, line)),
                    decreases self.comments.threads.len() - k,
                {
                    let t = &self.comments.threads[k];
                    assert(t@ == self@.threads[k as int]);
                    if t.side == side && t.range.start == line && paths::same_path(
                        t.file.as_str(),
                        path,
                    ) {
                        proof {
                            lemma_starts_at(
                                self@.threads,
                                path@,
                                side,
                                line,
                                k as nat + 1,
                                self@.threads.len(),
                            );
                        }
                        return true;
                    }
                    k += 1;
                }
                false
            },
            None => false,
        }
    }

    /// Whether row `i` is what `p` asks for.
    pub fn holds(&self, p: &Pred, i: usize) -> (r: bool)
        ensures
            r == self@.holds(p@, i as nat),
    {
        reveal(AppV::holds);

        match p {
            Pred::Stop => self.is_stop_at(i),
            Pred::Selectable => self.is_selectable_at(i),
            Pred::Key(k) => match k {
                SelKey::Line(f, s, l) => self.is_selectable_at(i) && match self.anchor_at(i) {
                    Some((af, asd, al)) => af == *f && asd == *s && al == *l,
                    None => false,
                },
                SelKey::Comment(cid) => self.is_stop_at(i) && match self.comment_unit_at(i) {
                    Some((_, c)) => c == *cid,
                    None => false,
                },
            },
            Pred::Thread(t) => match self.comment_at(i) {
                Some(c) => c.thread_id == *t,
                None => false,
            },
            Pred::Composer => self.is_composer_at(i),
            Pred::NoComposer => !self.is_composer_at(i),
            Pred::Caret => self.is_composer_caret_at(i),
            Pred::Head => self.is_head_at(i),
        }
    }

    /// The first row of `[start, end)` that is what `p` asks for.
    pub fn find_first(&self, p: &Pred, start: usize, end: usize) -> (r: Option<usize>)
        ensures
            index_view(r) == self@.first(p@, start as nat, end as nat),
            r matches Some(i) ==> start <= i < end && self@.holds(p@, i as nat),
    {
        let mut i: usize = start;
        while i < end
            invariant
                start <= i,
                self@.first(p@, i as nat, end as nat) == self@.first(p@, start as nat, end as nat),
            decreases end - i,
        {
            if self.holds(p, i) {
                return Some(i);
            }
            i += 1;
        }
        None
    }

    /// The last row of `[start, end)` that is what `p` asks for.
    pub fn find_last(&self, p: &Pred, start: usize, end: usize) -> (r: Option<usize>)
        ensures
            index_view(r) == self@.last(p@, start as nat, end as nat),
            r matches Some(i) ==> start <= i < end && self@.holds(p@, i as nat),
    {
        let mut i: usize = end;
        while i > start
            invariant
                i <= end,
                self@.last(p@, start as nat, i as nat) == self@.last(
                    p@,
                    start as nat,
                    end as nat,
                ),
            decreases i,
        {
            if self.holds(p, i - 1) {
                return Some(i - 1);
            }
            i -= 1;
        }
        None
    }
}

impl crate::ui::render_rows::threads::ComposerLine {
    /// Whether this is the body line with the caret.
    pub fn has_caret(&self) -> (r: bool)
        ensures
            r == (self@ matches ComposerKindV::Body(s) && s.contains(COMPOSER_CARET)),
    {
        match &self.kind {
            crate::ui::render_rows::threads::ComposerKind::Body(s) => has_char(
                s.as_str(),
                COMPOSER_CARET,
            ),
            _ => false,
        }
    }
}

proof fn lemma_starts_at(
    threads: Seq<ThreadV>,
    path: Seq<char>,
    side: Side,
    line: u32,
    n: nat,
    m: nat,
)
    requires
        n <= m,
        starts_at(threads, path, side, line, n),
    ensures
        starts_at(threads, path, side, line, m),
    decreases m - n,
{
    if n < m {
        lemma_starts_at(threads, path, side, line, n + 1, m);
    }
}

} // verus!
