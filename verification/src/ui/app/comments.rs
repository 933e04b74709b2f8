//! Inline composer and comment-thread operations.
use crate::comments::model;
use crate::comments::model::{Comment, LineRange, ThreadV};
use crate::strs;
use crate::ui::app::editor;
use crate::ui::app::editor::{Editor, KeyCode, Mods, TextV};
use crate::ui::app::nav;
use crate::ui::app::state;
use crate::ui::app::state::{
    App, AppV, ComposeTarget, Composer, ComposerStateV, GeomV, Pred, PredV, SelKey, SelKeyV,
    TargetV, ViewMode, COMPOSER_CARET,
};
use crate::ui::app::wrap;
use crate::ui::app::wrap::sat_sub;
use crate::ui::render_rows::rows;
use crate::ui::render_rows::rows::build_rows;
use crate::ui::render_rows::split;
use crate::ui::render_rows::split::build_split_rows;
use crate::ui::render_rows::text;
use crate::ui::render_rows::threads;
use crate::ui::render_rows::threads::{
    has_id, ComposerAnchor, ComposerAnchorV, ComposerSpec, ComposerV,
};
use vstd::prelude::*;

verus! {

// ---- the composer as a box in the row stream ----

/// The lines of a text, with the caret put in at the cursor.
pub open spec fn caret_lines(t: TextV) -> Seq<Seq<char>> {
    Seq::new(
        t.lines.len(),
        |i: int|
            if i == t.cursor.0 {
                editor::before(t.lines[i], t.cursor.1).push(COMPOSER_CARET) + editor::from(
                    t.lines[i],
                    t.cursor.1,
                )
            } else {
                t.lines[i]
            },
    )
}

/// The text of the composer, with the caret put in at the cursor.
pub open spec fn caret_body(t: TextV) -> Seq<char> {
    strs::joined(caret_lines(t), '\n')
}

/// A line with the caret put in at column `col`.
fn with_caret(line: &str, col: usize) -> (r: String)
    ensures
        r@ == editor::before(line@, col).push(COMPOSER_CARET) + editor::from(line@, col),
{
    let v = strs::chars_of(line);
    let n: usize = v.len();
    let at: usize = if col <= n {
        col
    } else {
        n
    };
    let mut r = strs::string_of(&v, 0, at);
    r.push(COMPOSER_CARET);
    let rest = strs::string_of(&v, at, n);
    r.append(rest.as_str());
    assert(line@.subrange(0, at as int) == editor::before(line@, col));
    assert(line@.subrange(at as int, n as int) == editor::from(line@, col));
    r
}

/// The composer body as a single string with the caret glyph spliced in at the cursor
/// position, ready for the row builder to wrap.
pub fn body_with_caret(ta: &Editor) -> (r: String)
    ensures
        r@ == caret_body(editor::text_view(*ta)),
{
    broadcast use strs::lemma_views_push;

    let (row, col) = editor::cursor_of(ta);
    let lines = editor::lines_of(ta);
    let ghost t = editor::text_view(*ta);
    let mut out: Vec<String> = Vec::new();
    let mut i: usize = 0;
    assert(strs::views(out@) == caret_lines(t).take(0));
    while i < lines.len()
        invariant
            t.lines == strs::views(lines@),
            t.cursor == (row, col),
            0 <= i <= lines.len(),
            strs::views(out@) == caret_lines(t).take(i as int),
        decreases lines.len() - i,
    {
        assert(t.lines[i as int] == lines@[i as int]@);
        let line = if i == row {
            with_caret(lines[i].as_str(), col)
        } else {
            lines[i].clone()
        };
        out.push(line);
        assert(caret_lines(t).take(i + 1) == caret_lines(t).take(i as int).push(line@));
        i += 1;
    }
    assert(caret_lines(t).take(lines.len() as int) == caret_lines(t));
    strs::join(&out, '\n')
}

/// Where an open composer shows, with its title and text.
pub open spec fn composer_of(c: Option<ComposerStateV>) -> Option<ComposerV> {
    match c {
        Some(c) => match c.target {
            // Behind the last line of the range, where the thread will show.
            TargetV::NewThread { file_idx, side, start, end } => Some(
                ComposerV {
                    anchor: ComposerAnchorV::NewThread { file_idx, side, line: end },
                    title: " new comment "@,
                    body: caret_body(c.text),
                },
            ),
            TargetV::Reply { thread_id } => Some(
                ComposerV {
                    anchor: ComposerAnchorV::Reply { thread_id },
                    title: " reply "@,
                    body: caret_body(c.text),
                },
            ),
        },
        None => None,
    }
}

/// The view of an optional spec.
pub open spec fn spec_view(c: Option<ComposerSpec>) -> Option<ComposerV> {
    match c {
        Some(c) => Some(c@),
        None => None,
    }
}

/// What a key or a click draws from outside: fresh ids and the time.
pub struct Drawn {
    pub thread_id: Seq<char>,
    pub comment_id: Seq<char>,
    pub created_at: u64,
}

impl AppV {
    /// The rows of the active view as the state has them.
    pub open spec fn fresh_rows(self) -> Seq<rows::RowV> {
        rows::rows_of(
            self.files,
            self.threads,
            self.comment_wrap,
            composer_of(self.composer),
            None,
        )
    }

    /// The rows of the split view as the state has them.
    pub open spec fn fresh_split_rows(self) -> Seq<split::SplitRowV> {
        split::rows_of(
            self.files,
            self.threads,
            self.comment_wrap,
            composer_of(self.composer),
            None,
        )
    }

    /// With the rows of the active view built.
    #[verifier::opaque]
    pub open spec fn view_built(self) -> AppV {
        match self.view {
            ViewMode::Unified => AppV { rows: self.fresh_rows(), unified_dirty: false, ..self },
            ViewMode::Split => AppV {
                split_rows: self.fresh_split_rows(),
                split_dirty: false,
                ..self
            },
        }
    }

    /// With the rows of the other view marked as stale.
    #[verifier::opaque]
    pub open spec fn other_stale(self) -> AppV {
        match self.view {
            ViewMode::Unified => AppV { split_dirty: true, ..self },
            ViewMode::Split => AppV { unified_dirty: true, ..self },
        }
    }

    /// Whether the rows of the active view are stale.
    pub open spec fn stale(self) -> bool {
        match self.view {
            ViewMode::Unified => self.unified_dirty,
            ViewMode::Split => self.split_dirty,
        }
    }

    /// With the rows of the active view built where they were stale.
    #[verifier::opaque]
    pub open spec fn view_ensured(self) -> AppV {
        if self.stale() {
            self.view_built()
        } else {
            self
        }
    }

    /// The row of a key, or else the first stop of the file.
    #[verifier::opaque]
    pub open spec fn row_for(self, k: Option<SelKeyV>) -> nat {
        nav::smaller(
            nav::or_value(nav::or_else(self.find_key(k), self.first_stop()), 0),
            wrap::monus(self.active_len() as int, 1),
        )
    }

    /// With the cursor on the row of a key, or else on the first stop of the file, and the
    /// heights marked as stale.
    #[verifier::opaque]
    pub open spec fn with_cursor_on(self, k: Option<SelKeyV>) -> AppV {
        AppV {
            selected: self.row_for(k),
            geom: GeomV { dirty: true, ..self.geom },
            ..self
        }
    }

    /// With the rows rebuilt and the cursor on what it was on.
    #[verifier::opaque]
    pub open spec fn rebuilt(self) -> AppV {
        let a = self.view_built().other_stale().resynced().with_cursor_on(self.sel_key());
        a.with_file_of(a.selected).with_span().visible()
    }

    /// The other view.
    #[verifier::opaque]
    pub open spec fn with_other_view(self) -> AppV {
        AppV {
            view: match self.view {
                ViewMode::Unified => ViewMode::Split,
                ViewMode::Split => ViewMode::Unified,
            },
            status: match self.view {
                ViewMode::Unified => "split view"@,
                ViewMode::Split => "unified view"@,
            },
            ..self
        }
    }

    /// A handle to the line that the selection is anchored at.
    pub open spec fn anchor_key(self) -> Option<SelKeyV> {
        match self.sel_anchor {
            Some(i) => self.line_key(i),
            None => None,
        }
    }

    /// With the selection anchored at the row of a key, or else dropped.
    #[verifier::opaque]
    pub open spec fn with_anchor_on(self, k: Option<SelKeyV>) -> AppV {
        AppV {
            sel_anchor: self.find_key(k),
            visual: self.visual && self.find_key(k) is Some,
            ..self
        }
    }

    /// Scrolled so that the cursor is about in the middle.
    #[verifier::opaque]
    pub open spec fn recentered(self) -> AppV {
        AppV { scroll: wrap::monus(self.selected as int, (self.height / 2) as int), ..self }
    }

    /// In the other layout, with the cursor on what it was on, and the selection as it was.
    #[verifier::opaque]
    pub open spec fn view_toggled(self) -> AppV {
        let a = self.with_other_view().view_ensured().resynced();
        let b = a.with_cursor_on(self.sel_key()).with_anchor_on(self.anchor_key());
        b.with_file_of(b.selected).with_span().recentered().visible()
    }

    /// The top row that shows the composer box: the row of the caret, and the whole box where
    /// it fits.
    #[verifier::opaque]
    pub open spec fn composer_scroll(self) -> nat {
        let (s, e) = self.file_span;
        match self.first(PredV::Composer, s, e) {
            Some(first) => {
                let last = (nav::or_value(self.first(PredV::NoComposer, first, e), e) - 1) as nat;
                let caret = nav::or_value(self.first(PredV::Caret, first, last + 1), last);
                scroll_to_box(
                    self.scroll,
                    s,
                    first,
                    last,
                    caret,
                    text::at_least_one(self.height),
                )
            },
            None => self.scroll,
        }
    }

    /// Scrolled so that the composer box is in view.
    #[verifier::opaque]
    pub open spec fn composer_shown(self) -> AppV {
        AppV { scroll: self.composer_scroll(), ..self }
    }

    /// With the rows rebuilt and an open composer in view.
    #[verifier::opaque]
    pub open spec fn redrawn(self) -> AppV {
        let a = self.rebuilt();
        if a.composer is Some {
            a.composer_shown()
        } else {
            a
        }
    }

    /// With an empty composer, and no drag.
    #[verifier::opaque]
    pub open spec fn with_composer(self, target: TargetV, status: Seq<char>) -> AppV {
        AppV {
            resizing: false,
            sb_drag: None,
            composer: Some(
                ComposerStateV {
                    target,
                    text: editor::empty_text(),
                    buffer: editor::empty_buffer(),
                },
            ),
            status,
            ..self
        }
    }

    /// With the composer open for a new thread on the selection.
    #[verifier::opaque]
    pub open spec fn new_thread_opened(self) -> AppV {
        match self.selection_range() {
            Some((file_idx, side, start, end)) => self.with_composer(
                TargetV::NewThread { file_idx, side, start, end },
                "new comment — enter for newline, ctrl+s to submit, esc to cancel"@,
            ).rebuilt().composer_shown(),
            None => AppV { status: "put the cursor on a diff line first"@, ..self },
        }
    }

    /// With the composer open for a reply to a thread.
    #[verifier::opaque]
    pub open spec fn reply_opened_to(self, thread_id: Seq<char>) -> AppV {
        self.with_composer(
            TargetV::Reply { thread_id },
            "reply — enter for newline, ctrl+s to submit, esc to cancel"@,
        ).rebuilt().composer_shown()
    }

    /// With the composer open for a reply to the thread that the cursor is on.
    #[verifier::opaque]
    pub open spec fn reply_opened(self) -> AppV {
        match self.focused_thread() {
            Some(t) => self.reply_opened_to(t),
            None => AppV { status: "no comment thread here"@, ..self },
        }
    }

    /// Without composer and selection.
    #[verifier::opaque]
    pub open spec fn cancelled(self) -> AppV {
        AppV { composer: None, visual: false, sel_anchor: None, status: "cancelled"@, ..self }
    }

    /// With another buffer in the composer.
    #[verifier::opaque]
    pub open spec fn with_buffer(self, buffer: Editor) -> AppV {
        match self.composer {
            Some(c) => AppV {
                composer: Some(
                    ComposerStateV { text: editor::text_view(buffer), buffer, ..c },
                ),
                ..self
            },
            None => self,
        }
    }

    /// With what a key makes of the composer's buffer.
    #[verifier::opaque]
    pub open spec fn typed(self, code: KeyCode, mods: Mods) -> AppV {
        match self.composer {
            Some(c) => self.with_buffer(pressed(c.buffer, code, mods)),
            None => self,
        }
    }

    /// After a paste: the text is put into an open composer.
    #[verifier::opaque]
    pub open spec fn pasted(self, s: Seq<char>) -> AppV {
        match self.composer {
            Some(c) => self.with_buffer(filled(c.buffer, s)).rebuilt().composer_shown(),
            None => self,
        }
    }

    /// With a comment as the root of a new thread.
    #[verifier::opaque]
    pub open spec fn thread_added(
        self,
        file_idx: nat,
        side: crate::diff::model::Side,
        range: LineRange,
        body: Seq<char>,
        d: Drawn,
    ) -> AppV {
        if file_idx < self.files.len() {
            AppV {
                threads: self.threads.push(
                    ThreadV {
                        id: d.thread_id,
                        file: self.files[file_idx as int].display_path(),
                        side,
                        range,
                        resolved: false,
                        comments: seq![
                            model::new_comment(d.comment_id, Some("you"@), body, d.created_at),
                        ],
                    },
                ),
                visual: false,
                sel_anchor: None,
                status: "added comment"@,
                ..self
            }
        } else {
            AppV { status: "comment discarded — unknown file"@, ..self }
        }
    }

    /// With a comment behind those of a thread.
    #[verifier::opaque]
    pub open spec fn reply_added(self, thread_id: Seq<char>, body: Seq<char>, d: Drawn) -> AppV {
        match model::find(self.threads, thread_id) {
            Some(i) => AppV {
                threads: self.threads.update(
                    i,
                    model::with_comment(
                        self.threads[i],
                        model::new_comment(d.comment_id, Some("you"@), body, d.created_at),
                    ),
                ),
                status: "added reply"@,
                ..self
            },
            None => AppV { status: "thread no longer exists"@, ..self },
        }
    }

    /// Without composer.
    #[verifier::opaque]
    pub open spec fn closed(self) -> AppV {
        AppV { composer: None, ..self }
    }

    /// With the text of the composer, less the white space at its ends, as a comment: nothing
    /// becomes of an empty one.
    #[verifier::opaque]
    pub open spec fn submitted(self, d: Drawn) -> AppV {
        match self.composer {
            Some(c) => {
                let body = strs::trimmed(strs::joined(c.text.lines, '\n'));
                let a = self.closed();
                if body.len() == 0 {
                    AppV { status: "empty comment discarded"@, ..a }
                } else {
                    match c.target {
                        TargetV::NewThread { file_idx, side, start, end } => {
                            let b = a.thread_added(
                                file_idx,
                                side,
                                LineRange { start, end },
                                body,
                                d,
                            );
                            if file_idx < a.files.len() {
                                b.rebuilt()
                            } else {
                                b
                            }
                        },
                        TargetV::Reply { thread_id } => a.reply_added(
                            thread_id,
                            body,
                            d,
                        ).rebuilt(),
                    }
                }
            },
            None => self,
        }
    }

    /// After a key while the composer is open.
    #[verifier::opaque]
    pub open spec fn compose_key(self, code: KeyCode, mods: Mods, d: Drawn) -> AppV {
        match chord(code, mods) {
            Chord::Cancel => self.cancelled().redrawn(),
            Chord::Submit => self.submitted(d).redrawn(),
            Chord::Head | Chord::End => self.typed(code, mods).redrawn(),
            Chord::Edit => if self.composer is Some {
                self.typed(code, mods).redrawn()
            } else {
                self
            },
        }
    }

    /// With the resolved state of a thread flipped.
    #[verifier::opaque]
    pub open spec fn resolve_toggled(self, id: Seq<char>) -> AppV {
        match model::find(self.threads, id) {
            Some(i) => AppV {
                threads: self.threads.update(
                    i,
                    model::with_resolved(self.threads[i], !self.threads[i].resolved),
                ),
                status: if self.threads[i].resolved {
                    "unresolved thread"@
                } else {
                    "resolved thread"@
                },
                ..self
            }.rebuilt(),
            None => self,
        }
    }

    /// With the resolved state of the thread that the cursor is on flipped.
    #[verifier::opaque]
    pub open spec fn resolve_toggled_here(self) -> AppV {
        match self.focused_thread() {
            Some(t) => self.resolve_toggled(t),
            None => AppV { status: "no comment thread here"@, ..self },
        }
    }

    /// Without a comment, unless it came with the input.
    #[verifier::opaque]
    pub open spec fn comment_deleted(self, thread_id: Seq<char>, comment_id: Seq<char>) -> AppV {
        if self.base_ids.contains(comment_id) {
            AppV { status: "can't delete a comment from the input"@, ..self }
        } else {
            match model::find(self.threads, thread_id) {
                Some(i) => match model::find_comment(self.threads[i].comments, comment_id) {
                    Some(j) => AppV {
                        threads: model::comment_removed(self.threads, i, j),
                        status: "deleted comment"@,
                        ..self
                    }.rebuilt(),
                    None => self,
                },
                None => self,
            }
        }
    }

    /// Without the comment that the cursor is on.
    #[verifier::opaque]
    pub open spec fn comment_deleted_here(self) -> AppV {
        match self.unit_at(self.selected) {
            Some((t, c)) => self.comment_deleted(t, c),
            None => AppV { status: "put the cursor on a comment to delete"@, ..self },
        }
    }
}

/// What a key does while the composer is open.
#[derive(Debug, Clone, Copy, PartialEq, Eq, Structural)]
pub enum Chord {
    Cancel,
    Submit,
    Head,
    End,
    Edit,
}

/// What a key does while the composer is open: Esc and Ctrl-C cancel, Ctrl-S and Ctrl-Enter
/// submit, Ctrl-A and Ctrl-E go to the ends of the line, and all others edit.
pub open spec fn chord(code: KeyCode, mods: Mods) -> Chord {
    if code == KeyCode::Esc || (mods.ctrl && code == KeyCode::Char('c')) {
        Chord::Cancel
    } else if mods.ctrl && (code == KeyCode::Char('s') || code == KeyCode::Enter) {
        Chord::Submit
    } else if mods.ctrl && (code == KeyCode::Char('a') || code == KeyCode::Char('A')) {
        Chord::Head
    } else if mods.ctrl && (code == KeyCode::Char('e') || code == KeyCode::Char('E')) {
        Chord::End
    } else {
        Chord::Edit
    }
}

fn chord_of(code: KeyCode, mods: Mods) -> (r: Chord)
    ensures
        r == chord(code, mods),
{
    match code {
        KeyCode::Esc => Chord::Cancel,
        KeyCode::Enter if mods.ctrl => Chord::Submit,
        KeyCode::Char(c) if mods.ctrl => {
            if c == 'c' {
                Chord::Cancel
            } else if c == 's' {
                Chord::Submit
            } else if c == 'a' || c == 'A' {
                Chord::Head
            } else if c == 'e' || c == 'E' {
                Chord::End
            } else {
                Chord::Edit
            }
        },
        _ => Chord::Edit,
    }
}

/// Whether the cursor stands in the text, with nothing selected.
pub open spec fn settled(t: TextV) -> bool {
    !t.selecting && t.cursor.0 < t.lines.len()
}

/// `t` with `pieces` put in at the cursor is `u`.
pub open spec fn put_in(t: TextV, pieces: Seq<Seq<char>>, u: TextV) -> bool {
    &&& u.lines == editor::spliced(t.lines, t.cursor, pieces)
    &&& (u.cursor.0 as int, u.cursor.1 as int) == editor::behind(t.cursor, pieces)
    &&& !u.selecting
}

/// The buffer that a paste of `s` makes of a buffer.
pub open spec fn filled(ta: Editor, s: Seq<char>) -> Editor {
    editor::after_insert(ta, strs::unix_lines(s))
}

/// What is known of the buffer `ta` that a paste of `s` makes of one with the text `t`: the
/// lines go in at the cursor, and undo takes them out again.
pub open spec fn paste_gives(t: TextV, s: Seq<char>, ta: Editor) -> bool {
    &&& settled(t) ==> put_in(
        t,
        strs::split_on(strs::unix_lines(s), '\n'),
        editor::text_view(ta),
    )
    &&& editor::inside(t) && s.len() > 0 ==> editor::undone_is(ta, t)
}

/// The key that the editor is given. It has the kill to the start of the line on Ctrl-J and
/// undo on Ctrl-U; here they are on Ctrl-U and on Ctrl-_ (which terminals also report as Ctrl-/
/// or Ctrl-7).
pub open spec fn editor_key(code: KeyCode, mods: Mods) -> KeyCode {
    if mods.ctrl && code == KeyCode::Char('u') {
        KeyCode::Char('j')
    } else if mods.ctrl && (code == KeyCode::Char('_') || code == KeyCode::Char('/') || code
        == KeyCode::Char('7')) {
        KeyCode::Char('u')
    } else {
        code
    }
}

fn key_for_editor(code: KeyCode, mods: Mods) -> (r: KeyCode)
    ensures
        r == editor_key(code, mods),
{
    match code {
        KeyCode::Char(c) if mods.ctrl => {
            if c == 'u' {
                KeyCode::Char('j')
            } else if c == '_' || c == '/' || c == '7' {
                KeyCode::Char('u')
            } else {
                code
            }
        },
        _ => code,
    }
}

/// The buffer that a key makes of a buffer: all keys but submit and cancel reach the editor.
pub open spec fn pressed(ta: Editor, code: KeyCode, mods: Mods) -> Editor {
    match chord(code, mods) {
        Chord::Head => editor::after_move(ta, false),
        Chord::End => editor::after_move(ta, true),
        _ => editor::after_key(ta, editor_key(code, mods), mods),
    }
}

/// What is known of the buffer `ta` that a key makes of one with the text `t`: characters and
/// line breaks go in at the cursor, and undo takes them out again; the keys that move it, by
/// words too, or remove text beside it do so.
pub open spec fn key_gives(t: TextV, code: KeyCode, mods: Mods, ta: Editor) -> bool {
    let u = editor::text_view(ta);
    match chord(code, mods) {
        Chord::Head => {
            &&& u.lines == t.lines
            &&& u.cursor == (t.cursor.0, 0usize)
            &&& u.selecting == t.selecting
        },
        Chord::End => {
            &&& u.lines == t.lines
            &&& u.cursor.0 == t.cursor.0
            &&& t.cursor.0 < t.lines.len() ==> u.cursor.1 == t.lines[t.cursor.0 as int].len()
            &&& u.selecting == t.selecting
        },
        Chord::Edit => {
            &&& settled(t) && editor::plain_text(code, mods) is Some ==> put_in(
                t,
                editor::plain_text(code, mods)->0,
                u,
            )
            &&& editor::inside(t) && editor::plain_text(code, mods) is Some ==> editor::undone_is(
                ta,
                t,
            )
            &&& editor::inside(t) ==> (editor::edited(t, editor_key(code, mods), mods) matches Some(
                v,
            ) ==> u == v)
        },
        _ => true,
    }
}

/// Backspace takes back what was typed: a character or a line break, put in at the cursor and
/// then rubbed out, leaves the text and the cursor as they were.
pub proof fn law_backspace_takes_back(
    t: TextV,
    code: KeyCode,
    mods: Mods,
    typed: Editor,
    rubbed: Editor,
)
    requires
        editor::inside(t),
        chord(code, mods) is Edit,
        editor::plain_text(code, mods) is Some,
        key_gives(t, code, mods, typed),
        key_gives(
            editor::text_view(typed),
            KeyCode::Backspace,
            (Mods { ctrl: false, alt: false, shift: false }),
            rubbed,
        ),
    ensures
        editor::text_view(rubbed) == t,
{
    let typed = editor::text_view(typed);
    let rubbed = editor::text_view(rubbed);
    let pieces = editor::plain_text(code, mods)->0;
    let row = t.cursor.0 as int;
    let col = t.cursor.1 as int;
    let line = t.lines[row];
    assert(line.take(col) + line.skip(col) == line);
    if pieces.len() == 1 {
        let c = pieces[0][0];
        let fuller = line.take(col) + seq![c] + line.skip(col);
        assert(typed.lines[row] == fuller);
        assert(fuller.take(col) == line.take(col));
        assert(fuller.skip(col + 1) == line.skip(col));
        assert(rubbed.lines == t.lines);
    } else {
        assert(typed.lines.len() == t.lines.len() + 1);
        assert(typed.lines[row] == line.take(col));
        assert(typed.lines[row + 1] == line.skip(col));
        assert(rubbed.lines == t.lines);
    }
}

/// Undo takes back what was typed, and redo brings it again: behind a character or a line break
/// put in at the cursor, Ctrl-_ leaves the text and the cursor as they were, and Ctrl-R then as
/// they had become.
pub proof fn law_undo_takes_back(t: TextV, code: KeyCode, mods: Mods, typed: Editor)
    requires
        editor::inside(t),
        chord(code, mods) is Edit,
        editor::plain_text(code, mods) is Some,
        key_gives(t, code, mods, typed),
    ensures
        ({
            let undone = pressed(typed, KeyCode::Char('_'), editor::with_ctrl());
            let redone = pressed(undone, KeyCode::Char('r'), editor::with_ctrl());
            editor::text_view(undone) == t && editor::text_view(redone) == editor::text_view(typed)
        }),
{
}

/// Undo takes back what was pasted, all at once, and redo brings it again.
pub proof fn law_undo_takes_back_a_paste(t: TextV, s: Seq<char>, filled: Editor)
    requires
        editor::inside(t),
        s.len() > 0,
        paste_gives(t, s, filled),
    ensures
        ({
            let undone = pressed(filled, KeyCode::Char('_'), editor::with_ctrl());
            let redone = pressed(undone, KeyCode::Char('r'), editor::with_ctrl());
            editor::text_view(undone) == t && editor::text_view(redone) == editor::text_view(filled)
        }),
{
}

/// Whether the ids are ones that a submit draws.
pub open spec fn fresh_ids(d: Drawn) -> bool {
    model::is_uuid(d.thread_id) && model::is_uuid(d.comment_id)
}

/// What is known of what a key gives that reaches the composer: what the editor makes of it,
/// and the ids that a submit draws.
pub open spec fn key_draws(a: AppV, code: KeyCode, mods: Mods, d: Drawn) -> bool {
    a.composer matches Some(c) ==> {
        &&& key_gives(c.text, code, mods, pressed(c.buffer, code, mods))
        &&& chord(code, mods) is Submit ==> fresh_ids(d)
    }
}

/// The top row of a viewport of `h` lines over a file from row `s` on that shows a box of
/// rows `first` to `last`: the caret's row in any case, and the top of the box where the
/// whole box fits.
pub open spec fn scroll_to_box(
    scroll: nat,
    s: nat,
    first: nat,
    last: nat,
    caret: nat,
    h: nat,
) -> nat {
    let s1 = if caret >= scroll + h {
        wrap::larger(wrap::monus(caret as int + 1, h as int), s)
    } else {
        scroll
    };
    let s2 = if caret < s1 {
        wrap::larger(caret, s)
    } else {
        s1
    };
    if first < s2 && last - first < h {
        wrap::larger(first, s)
    } else {
        s2
    }
}

fn larger_of(a: usize, b: usize) -> (r: usize)
    ensures
        r == wrap::larger(a as nat, b as nat),
{
    if a < b {
        b
    } else {
        a
    }
}

fn scrolled_to_box(
    scroll: usize,
    s: usize,
    first: usize,
    last: usize,
    caret: usize,
    h: usize,
) -> (r: usize)
    requires
        first <= last,
        h >= 1,
    ensures
        r == scroll_to_box(
            scroll as nat,
            s as nat,
            first as nat,
            last as nat,
            caret as nat,
            h as nat,
        ),
{
    let mut top: usize = scroll;
    // Caret below the fold: scroll down so it's the last visible row.
    if caret >= h && caret - h >= scroll {
        top = larger_of(caret - h + 1, s);
    }
    // Caret above the viewport (cursor moved up in a tall box): scroll up to it.

    if caret < top {
        top = larger_of(caret, s);
    }
    // When the whole box fits, prefer showing its top.

    if first < top && last - first < h {
        top = larger_of(first, s);
    }
    top
}

impl Composer {
    /// The text typed so far.
    pub fn text(&self) -> (r: String)
        ensures
            r@ == strs::joined(self@.text.lines, '\n'),
    {
        strs::join(&editor::lines_of(&self.textarea), '\n')
    }
}

impl App {
    /// Translate the live composer into a row-stream injection spec (where the box renders
    /// inline + its title), or `None` when no composer is open.
    pub fn composer_spec(&self) -> (r: Option<ComposerSpec>)
        ensures
            spec_view(r) == composer_of(self@.composer),
    {
        match &self.composer {
            Some(c) => {
                let body = body_with_caret(&c.textarea);
                match &c.target {
                    ComposeTarget::NewThread { file_idx, side, start: _, end } => Some(
                        ComposerSpec {
                            anchor: ComposerAnchor::NewThread {
                                file_idx: *file_idx,
                                side: *side,
                                line: *end,
                            },
                            title: strs::owned(" new comment "),
                            body,
                        },
                    ),
                    ComposeTarget::Reply { thread_id } => Some(
                        ComposerSpec {
                            anchor: ComposerAnchor::Reply { thread_id: thread_id.clone() },
                            title: strs::owned(" reply "),
                            body,
                        },
                    ),
                }
            },
            None => None,
        }
    }

    /// Build the active view's row list from the current state, clearing its stale flag.
    fn build_view(&mut self)
        ensures
            final(self)@ == old(self)@.view_built(),
    {
        reveal(AppV::view_built);

        let spec = self.composer_spec();
        let composer: Option<&ComposerSpec> = match &spec {
            Some(c) => Some(c),
            None => None,
        };
        assert(threads::composer_view(composer) == composer_of(self@.composer));
        match self.view {
            ViewMode::Unified => {
                self.rows = build_rows(
                    &self.changeset,
                    &self.comments,
                    self.comment_wrap,
                    composer,
                );
                self.unified_dirty = false;
            },
            ViewMode::Split => {
                self.split_rows = build_split_rows(
                    &self.changeset,
                    &self.comments,
                    self.comment_wrap,
                    composer,
                );
                self.split_dirty = false;
            },
        }
    }

    fn mark_other_stale(&mut self)
        ensures
            final(self)@ == old(self)@.other_stale(),
    {
        reveal(AppV::other_stale);

        match self.view {
            ViewMode::Unified => {
                self.split_dirty = true;
            },
            ViewMode::Split => {
                self.unified_dirty = true;
            },
        }
    }

    /// Ensure the active view's row list is current, rebuilding it when a prior edit left it
    /// stale. A cheap no-op when it's already fresh.
    pub fn ensure_active_view_built(&mut self)
        ensures
            final(self)@ == old(self)@.view_ensured(),
    {
        reveal(AppV::view_ensured);

        let stale = match self.view {
            ViewMode::Unified => self.unified_dirty,
            ViewMode::Split => self.split_dirty,
        };
        if stale {
            self.build_view();
        }
    }

    fn row_for(&self, key: Option<SelKey>) -> (r: usize)
        ensures
            r == self@.row_for(nav::key_view(key)),
    {
        reveal(AppV::row_for);

        let row: usize = match self.find_sel_key(key) {
            Some(i) => i,
            None => match self.first_selectable() {
                Some(i) => i,
                None => 0,
            },
        };
        let last: usize = sat_sub(self.active_len(), 1);
        if row < last {
            row
        } else {
            last
        }
    }

    fn select_key(&mut self, key: Option<SelKey>)
        ensures
            final(self)@ == old(self)@.with_cursor_on(nav::key_view(key)),
    {
        reveal(AppV::with_cursor_on);

        self.selected = self.row_for(key);
        self.geom.dirty = true;
    }

    /// Rebuild the diff row list on screen from the changeset + inline comment threads,
    /// keeping the cursor on the same (file, side, line) anchor. The other list derives from
    /// the same state: it is marked stale and rebuilt on demand.
    pub fn rebuild_rows(&mut self)
        ensures
            final(self)@ == old(self)@.rebuilt(),
    {
        reveal(AppV::rebuilt);

        let key = self.sel_key();
        self.build_view();
        self.mark_other_stale();
        self.resync_file_spans();
        self.select_key(key);
        self.follow_row(self.selected);
        self.recompute_file_span();
        self.ensure_visible();
    }

    fn switch_view(&mut self)
        ensures
            final(self)@ == old(self)@.with_other_view(),
    {
        reveal(AppV::with_other_view);

        match self.view {
            ViewMode::Unified => {
                self.view = ViewMode::Split;
                self.status = strs::owned("split view");
            },
            ViewMode::Split => {
                self.view = ViewMode::Unified;
                self.status = strs::owned("unified view");
            },
        }
    }

    fn anchor_key(&self) -> (r: Option<SelKey>)
        ensures
            nav::key_view(r) == self@.anchor_key(),
    {
        match self.sel_anchor {
            Some(i) => self.line_key(i),
            None => None,
        }
    }

    fn anchor_on(&mut self, key: Option<SelKey>)
        ensures
            final(self)@ == old(self)@.with_anchor_on(nav::key_view(key)),
    {
        reveal(AppV::with_anchor_on);

        self.sel_anchor = self.find_sel_key(key);
        self.visual = self.visual && self.sel_anchor.is_some();
    }

    fn recenter(&mut self)
        ensures
            final(self)@ == old(self)@.recentered(),
    {
        reveal(AppV::recentered);

        self.scroll = sat_sub(self.selected, self.height / 2);
    }

    /// Toggle between unified and split, keeping the cursor on the same line (and preserving
    /// any multi-line visual selection across the switch). An anchor that has no counterpart
    /// in the other view is dropped.
    pub fn toggle_view(&mut self)
        ensures
            final(self)@ == old(self)@.view_toggled(),
    {
        reveal(AppV::view_toggled);

        let key = self.sel_key();
        let anchor_key = self.anchor_key();
        self.switch_view();
        self.ensure_active_view_built();
        self.resync_file_spans();
        self.select_key(key);
        self.anchor_on(anchor_key);
        self.follow_row(self.selected);
        self.recompute_file_span();
        self.recenter();
        self.ensure_visible();
    }

    fn composer_scroll(&self) -> (r: usize)
        ensures
            r == self@.composer_scroll(),
    {
        reveal(AppV::composer_scroll);

        let (s, e) = self.file_span;
        match self.find_first(&Pred::Composer, s, e) {
            Some(first) => {
                reveal(AppV::holds);
                assert(self@.composer_at(first as nat) is Some);
                let end: usize = match self.find_first(&Pred::NoComposer, first, e) {
                    Some(i) => i,
                    None => e,
                };
                assert(end > first);
                let last: usize = end - 1;
                let caret: usize = match self.find_first(&Pred::Caret, first, end) {
                    Some(i) => i,
                    None => last,
                };
                let h: usize = if self.height == 0 {
                    1
                } else {
                    self.height
                };
                scrolled_to_box(self.scroll, s, first, last, caret, h)
            },
            None => self.scroll,
        }
    }

    /// Scroll so the (contiguous) inline composer box is in view, anchored to the body row
    /// carrying the caret. The cursor can be on any line, so when the box is taller than the
    /// viewport the caret row stays on screen rather than the top or the bottom.
    pub fn ensure_composer_visible(&mut self)
        ensures
            final(self)@ == old(self)@.composer_shown(),
    {
        reveal(AppV::composer_shown);

        self.scroll = self.composer_scroll();
    }

    fn redraw(&mut self)
        ensures
            final(self)@ == old(self)@.redrawn(),
    {
        reveal(AppV::redrawn);

        self.rebuild_rows();
        if self.composer.is_some() {
            self.ensure_composer_visible();
        }
    }

    fn open_composer(&mut self, target: ComposeTarget, status: &str)
        ensures
            final(self)@ == old(self)@.with_composer(target@, status@),
    {
        reveal(AppV::with_composer);

        // A drag could be in flight when the composer opens via the keyboard; clear it so the
        // swallowed mouse-up can't leave us stuck mid-drag.
        self.resizing = false;
        self.sb_drag = None;
        let mut lines: Vec<String> = Vec::new();
        lines.push(String::new());
        assert(strs::views(lines@) == seq![Seq::<char>::empty()]);
        self.composer = Some(Composer { target, textarea: editor::new_text(lines) });
        self.status = strs::owned(status);
    }

    fn set_status(&mut self, status: &str)
        ensures
            final(self)@ == (AppV { status: status@, ..old(self)@ }),
    {
        self.status = strs::owned(status);
    }

    /// Open the composer for a new thread anchored to the current selection: the cursor line,
    /// or a multi-line range from visual mode (`v`) or a mouse drag.
    pub fn open_new_thread(&mut self)
        ensures
            final(self)@ == old(self)@.new_thread_opened(),
    {
        reveal(AppV::new_thread_opened);

        match self.selection_range() {
            Some((file_idx, side, start, end)) => {
                self.open_composer(
                    ComposeTarget::NewThread { file_idx, side, start, end },
                    "new comment — enter for newline, ctrl+s to submit, esc to cancel",
                );
                self.rebuild_rows();
                self.ensure_composer_visible();
            },
            None => self.set_status("put the cursor on a diff line first"),
        }
    }

    /// Open the composer to reply to the focused thread (the comment the cursor is on, or the
    /// thread anchored to the focused diff line).
    pub fn open_reply(&mut self)
        ensures
            final(self)@ == old(self)@.reply_opened(),
    {
        reveal(AppV::reply_opened);

        match self.focused_thread_id() {
            Some(id) => self.open_reply_to(id),
            None => self.set_status("no comment thread here"),
        }
    }

    /// Open the composer to reply to a specific thread (used by the reply button, which acts
    /// on the clicked box regardless of cursor position).
    pub fn open_reply_to(&mut self, thread_id: String)
        ensures
            final(self)@ == old(self)@.reply_opened_to(thread_id@),
    {
        reveal(AppV::reply_opened_to);

        self.open_composer(
            ComposeTarget::Reply { thread_id },
            "reply — enter for newline, ctrl+s to submit, esc to cancel",
        );
        self.rebuild_rows();
        self.ensure_composer_visible();
    }

    fn discard(&mut self)
        ensures
            final(self)@ == old(self)@.cancelled(),
    {
        reveal(AppV::cancelled);

        self.composer = None;
        self.visual = false;
        self.sel_anchor = None;
        self.status = strs::owned("cancelled");
    }

    /// Cancel the open composer (button equivalent of Esc).
    pub fn cancel_compose(&mut self)
        ensures
            final(self)@ == old(self)@.cancelled().rebuilt(),
    {
        self.discard();
        self.rebuild_rows();
    }

    fn paste_text(&mut self, s: &str)
        requires
            old(self)@.composer is Some,
        ensures
            final(self)@ == old(self)@.with_buffer(filled(old(self)@.composer->0.buffer, s@)),
            paste_gives(
                old(self)@.composer->0.text,
                s@,
                filled(old(self)@.composer->0.buffer, s@),
            ),
    {
        reveal(AppV::with_buffer);

        let clean = strs::to_unix_lines(s);
        proof {
            lemma_no_return(s@);
        }
        match self.composer.take() {
            Some(c) => {
                let mut c = c;
                editor::insert_text(&mut c.textarea, clean.as_str());
                self.composer = Some(c);
            },
            None => {},
        }
    }

    /// Insert pasted text in one shot (bracketed paste). Only meaningful while the composer
    /// is open; elsewhere a paste is ignored rather than being replayed as commands.
    pub fn on_paste(&mut self, text: String)
        ensures
            final(self)@ == old(self)@.pasted(text@),
            old(self)@.composer matches Some(c) ==> paste_gives(
                c.text,
                text@,
                filled(c.buffer, text@),
            ),
    {
        reveal(AppV::pasted);

        if self.composer.is_none() {
            return ;
        }
        self.paste_text(text.as_str());
        self.rebuild_rows();
        self.ensure_composer_visible();
    }

    fn edit_text(&mut self, code: KeyCode, mods: Mods)
        requires
            old(self)@.composer is Some,
            !(chord(code, mods) is Submit) && !(chord(code, mods) is Cancel),
        ensures
            final(self)@ == old(self)@.typed(code, mods),
            key_gives(
                old(self)@.composer->0.text,
                code,
                mods,
                pressed(old(self)@.composer->0.buffer, code, mods),
            ),
    {
        reveal(AppV::with_buffer);
        reveal(AppV::typed);

        match self.composer.take() {
            Some(c) => {
                let mut c = c;
                // Some terminals report the chords for the ends of the line with the Shift
                // bit set or as uppercase, which the editor does not take; the cursor is moved
                // here, so that the binding does not depend on how the terminal encodes it.
                match chord_of(code, mods) {
                    Chord::Head => editor::move_in_line(&mut c.textarea, false),
                    Chord::End => editor::move_in_line(&mut c.textarea, true),
                    _ => editor::input_key(&mut c.textarea, key_for_editor(code, mods), mods),
                }
                self.composer = Some(c);
            },
            None => {},
        }
    }

    /// Keystrokes while the composer is open. Submit and cancel are handled here; everything
    /// else is forwarded to the editor, which provides readline/emacs editing. The composer
    /// is part of the row stream, so the rows are rebuilt whatever changed, the cursor
    /// included.
    pub fn on_key_compose(&mut self, code: KeyCode, mods: Mods)
        ensures
            exists|d: Drawn|
                #![trigger old(self)@.compose_key(code, mods, d)]
                final(self)@ == old(self)@.compose_key(code, mods, d) && key_draws(
                    old(self)@,
                    code,
                    mods,
                    d,
                ),
    {
        reveal(AppV::compose_key);

        let ghost a = self@;
        let ghost none = drawn(Seq::empty(), Seq::empty(), 0);
        match chord_of(code, mods) {
            Chord::Cancel => {
                self.discard();
                self.redraw();
                assert(self@ == a.compose_key(code, mods, none));
            },
            Chord::Submit => {
                let thread_id = model::fresh_id();
                let comment_id = model::fresh_id();
                let created_at: u64 = model::now_millis();
                let ghost d = drawn(thread_id@, comment_id@, created_at);
                self.submit_with(thread_id, comment_id, created_at);
                self.redraw();
                assert(self@ == a.compose_key(code, mods, d));
            },
            ch => {
                if self.composer.is_some() {
                    self.edit_text(code, mods);
                    self.redraw();
                } else if ch != Chord::Edit {
                    self.redraw();
                    assert(a.typed(code, mods) == a) by {
                        reveal(AppV::typed);
                    }
                }
                assert(self@ == a.compose_key(code, mods, none));
            },
        }
    }

    fn close_composer(&mut self) -> (r: Option<Composer>)
        ensures
            final(self)@ == old(self)@.closed(),
            state::composer_view(r) == old(self)@.composer,
    {
        reveal(AppV::closed);

        self.composer.take()
    }

    fn add_own_thread(
        &mut self,
        file_idx: usize,
        side: crate::diff::model::Side,
        range: LineRange,
        body: String,
        thread_id: String,
        comment_id: String,
        created_at: u64,
    )
        ensures
            final(self)@ == old(self)@.thread_added(
                file_idx as nat,
                side,
                range,
                body@,
                drawn(thread_id@, comment_id@, created_at),
            ),
    {
        reveal(AppV::thread_added);

        if file_idx >= self.changeset.files.len() {
            self.status = strs::owned("comment discarded — unknown file");
            return ;
        }
        assert(self.changeset.files@[file_idx as int]@ == self@.files[file_idx as int]);
        let path = strs::owned(self.changeset.files[file_idx].display_path());
        self.comments.add_thread_with(
            thread_id,
            path,
            side,
            range,
            Comment { id: comment_id, author: Some(strs::owned("you")), body, created_at },
        );
        // Leaving the composer also leaves visual mode.
        self.visual = false;
        self.sel_anchor = None;
        self.status = strs::owned("added comment");
    }

    fn add_own_reply(
        &mut self,
        thread_id: &str,
        body: String,
        comment_id: String,
        created_at: u64,
        Ghost(fresh): Ghost<Seq<char>>,
    )
        ensures
            final(self)@ == old(self)@.reply_added(
                thread_id@,
                body@,
                drawn(fresh, comment_id@, created_at),
            ),
    {
        reveal(AppV::reply_added);

        let c = Comment { id: comment_id, author: Some(strs::owned("you")), body, created_at };
        if self.comments.reply_with(thread_id, c) {
            self.status = strs::owned("added reply");
        } else {
            self.status = strs::owned("thread no longer exists");
        }
    }

    /// Commit the composer's text as a new thread or a reply, with the given ids and time.
    pub fn submit_with(&mut self, thread_id: String, comment_id: String, created_at: u64)
        ensures
            final(self)@ == old(self)@.submitted(drawn(thread_id@, comment_id@, created_at)),
    {
        reveal(AppV::submitted);

        let ghost a = self@;
        match self.close_composer() {
            Some(c) => {
                let body = strs::trim(c.text().as_str());
                if body.as_str().is_empty() {
                    self.set_status("empty comment discarded");
                    return ;
                }
                match c.target {
                    ComposeTarget::NewThread { file_idx, side, start, end } => {
                        let known = file_idx < self.changeset.files.len();
                        self.add_own_thread(
                            file_idx,
                            side,
                            LineRange { start, end },
                            body,
                            thread_id,
                            comment_id,
                            created_at,
                        );
                        if known {
                            self.rebuild_rows();
                        }
                    },
                    ComposeTarget::Reply { thread_id: to } => {
                        self.add_own_reply(
                            to.as_str(),
                            body,
                            comment_id,
                            created_at,
                            Ghost(thread_id@),
                        );
                        self.rebuild_rows();
                    },
                }
            },
            None => {
                reveal(AppV::closed);
                assert(self@ == a);
            },
        }
    }

    /// Commit the composer's text as a new thread or a reply.
    pub fn submit_compose(&mut self)
        ensures
            exists|d: Drawn|
                final(self)@ == #[trigger] old(self)@.submitted(d) && fresh_ids(d),
    {
        let thread_id = model::fresh_id();
        let comment_id = model::fresh_id();
        let created_at: u64 = model::now_millis();
        self.submit_with(thread_id, comment_id, created_at);
    }

    /// Toggle the resolved state of the focused thread.
    pub fn resolve_current_thread(&mut self)
        ensures
            final(self)@ == old(self)@.resolve_toggled_here(),
    {
        reveal(AppV::resolve_toggled_here);

        match self.focused_thread_id() {
            Some(id) => self.toggle_resolved_thread(id),
            None => self.set_status("no comment thread here"),
        }
    }

    /// Toggle resolved on a specific thread (used by the resolve button).
    pub fn toggle_resolved_thread(&mut self, id: String)
        ensures
            final(self)@ == old(self)@.resolve_toggled(id@),
    {
        reveal(AppV::resolve_toggled);

        match self.comments.toggle_resolved(id.as_str()) {
            Some(now) => {
                self.status = if now {
                    strs::owned("resolved thread")
                } else {
                    strs::owned("unresolved thread")
                };
                self.rebuild_rows();
            },
            None => {},
        }
    }

    /// Delete the focused *comment*, but only if it was added in this session. The unit of
    /// deletion is a single comment (e.g. a reply you wrote), never a whole thread; removing
    /// a thread's last comment drops the thread. Comments loaded from the input are
    /// immutable, which is what keeps the action log free of delete actions.
    pub fn delete_current_comment(&mut self)
        ensures
            final(self)@ == old(self)@.comment_deleted_here(),
    {
        reveal(AppV::comment_deleted_here);

        match self.focused_comment() {
            Some((thread_id, comment_id)) => self.delete_comment(thread_id, comment_id),
            None => self.set_status("put the cursor on a comment to delete"),
        }
    }

    /// Delete a specific session-added comment (used by the delete button).
    pub fn delete_comment(&mut self, thread_id: String, comment_id: String)
        ensures
            final(self)@ == old(self)@.comment_deleted(thread_id@, comment_id@),
    {
        reveal(AppV::comment_deleted);

        if has_id(&self.base_comment_ids, comment_id.as_str()) {
            self.set_status("can't delete a comment from the input");
        } else if self.comments.remove_comment(thread_id.as_str(), comment_id.as_str()) {
            self.status = strs::owned("deleted comment");
            self.rebuild_rows();
        }
    }
}

/// Fresh ids and the time.
pub open spec fn drawn(thread_id: Seq<char>, comment_id: Seq<char>, created_at: u64) -> Drawn {
    Drawn { thread_id, comment_id, created_at }
}

proof fn lemma_no_return(s: Seq<char>)
    ensures
        !strs::unix_lines(s).contains('\r'),
        s.len() > 0 ==> strs::unix_lines(s).len() > 0,
    decreases s.len(),
{
    if s.len() > 0 {
        lemma_no_return(s.drop_last());
        let before = strs::unix_lines(s.drop_last());
        let all = strs::unix_lines(s);
        assert forall|i: int| 0 <= i < all.len() implies all[i] != '\r' by {
            if i < before.len() {
                assert(all[i] == before[i]);
                assert(before.contains(before[i]));
            }
        }
    }
}

} // verus!
