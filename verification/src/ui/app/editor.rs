//! The edit model of the composer.
//!
//! The text and the cursor live in a `TextArea`, used purely as an edit model (readline and
//! emacs keys, multi-line cursor, undo): the box is drawn inline in the diff, not by the
//! crate's own widget.
use crate::strs;
use tui_textarea::{CursorMove, Input, Key, TextArea};
use vstd::prelude::*;

verus! {

/// A key, as the terminal reports it.
#[derive(Debug, Clone, Copy, PartialEq, Eq, Structural)]
pub enum KeyCode {
    Char(char),
    F(u8),
    Backspace,
    Enter,
    Left,
    Right,
    Up,
    Down,
    Home,
    End,
    PageUp,
    PageDown,
    Tab,
    Delete,
    Esc,
    Other,
}

/// The modifiers held with a key.
#[derive(Debug, Clone, Copy, PartialEq, Eq, Structural)]
pub struct Mods {
    pub ctrl: bool,
    pub alt: bool,
    pub shift: bool,
}

/// tui-textarea's `TextArea`: a text buffer with a cursor.
#[verifier::external_body]
pub struct Editor {
    area: TextArea<'static>,
}

/// The lines of a buffer.
pub uninterp spec fn text_lines(ta: Editor) -> Seq<Seq<char>>;

/// The cursor of a buffer: its row, and its column in characters.
pub uninterp spec fn text_cursor(ta: Editor) -> (usize, usize);

/// Whether a part of the buffer is selected.
pub uninterp spec fn text_selecting(ta: Editor) -> bool;

/// What a buffer shows: its lines, the cursor, and whether something is selected.
#[verifier::ext_equal]
pub struct TextV {
    pub lines: Seq<Seq<char>>,
    pub cursor: (usize, usize),
    pub selecting: bool,
}

/// What a buffer shows.
pub open spec fn text_view(ta: Editor) -> TextV {
    TextV { lines: text_lines(ta), cursor: text_cursor(ta), selecting: text_selecting(ta) }
}

/// One empty line.
pub open spec fn empty_text() -> TextV {
    TextV { lines: seq![Seq::empty()], cursor: (0, 0), selecting: false }
}

/// The buffer that `TextArea::new` makes of lines: its history and its yanked text are empty.
pub uninterp spec fn buffer_of(lines: Seq<Seq<char>>) -> Editor;

/// The buffer that `TextArea::insert_str` makes of a buffer and a text.
pub uninterp spec fn after_insert(ta: Editor, s: Seq<char>) -> Editor;

/// The buffer that `TextArea::move_cursor` makes of a buffer, to the end of the line or to its
/// start.
pub uninterp spec fn after_move(ta: Editor, end: bool) -> Editor;

/// The buffer that `TextArea::input` makes of a buffer and a key.
pub uninterp spec fn after_key(ta: Editor, code: KeyCode, mods: Mods) -> Editor;

/// A buffer of one empty line, with nothing to undo.
pub open spec fn empty_buffer() -> Editor {
    buffer_of(seq![Seq::empty()])
}

/// Ctrl, and no other modifier.
pub open spec fn with_ctrl() -> Mods {
    Mods { ctrl: true, alt: false, shift: false }
}

/// Whether undo makes the text `t` of a buffer, and redo then the text that it had.
pub open spec fn undone_is(ta: Editor, t: TextV) -> bool {
    let undone = after_key(ta, KeyCode::Char('u'), with_ctrl());
    &&& text_view(undone) == t
    &&& text_view(after_key(undone, KeyCode::Char('r'), with_ctrl())) == text_view(ta)
}

/// `TextArea::new`: a buffer of these lines, or of one empty line where there are none, with
/// the cursor at its start and nothing selected.
#[verifier::external_body]
pub(crate) fn new_text(lines: Vec<String>) -> (r: Editor)
    ensures
        r == buffer_of(strs::views(lines@)),
        text_view(r) == (TextV {
            lines: if lines@.len() == 0 {
                seq![Seq::empty()]
            } else {
                strs::views(lines@)
            },
            cursor: (0, 0),
            selecting: false,
        }),
{
    Editor { area: TextArea::new(lines) }
}

/// `TextArea::lines`: the lines of the buffer, at least one.
#[verifier::external_body]
pub(crate) fn lines_of(ta: &Editor) -> (r: Vec<String>)
    ensures
        strs::views(r@) == text_lines(*ta),
        r@.len() >= 1,
{
    ta.area.lines().to_vec()
}

/// `TextArea::cursor`: row and column of the cursor.
#[verifier::external_body]
pub(crate) fn cursor_of(ta: &Editor) -> (r: (usize, usize))
    ensures
        r == text_cursor(*ta),
{
    ta.area.cursor()
}

/// The characters of a line in front of column `col`.
pub open spec fn before(line: Seq<char>, col: usize) -> Seq<char> {
    if col <= line.len() {
        line.take(col as int)
    } else {
        line
    }
}

/// The characters of a line from column `col` on.
pub open spec fn from(line: Seq<char>, col: usize) -> Seq<char> {
    if col <= line.len() {
        line.skip(col as int)
    } else {
        Seq::empty()
    }
}

/// Lines with `pieces` put in at a place: the first piece joins the text in front of it, the
/// last one the text behind it, and those between are lines of their own.
pub open spec fn spliced(
    lines: Seq<Seq<char>>,
    at: (usize, usize),
    pieces: Seq<Seq<char>>,
) -> Seq<Seq<char>> {
    let row = at.0 as int;
    let line = lines[row];
    let n = pieces.len();
    if n <= 1 {
        lines.update(row, before(line, at.1) + pieces[0] + from(line, at.1))
    } else {
        lines.take(row).push(before(line, at.1) + pieces[0]) + pieces.subrange(1, n - 1) + seq![
            pieces[n - 1] + from(line, at.1),
        ] + lines.skip(row + 1)
    }
}

/// Where the cursor stands behind `pieces` that were put in.
pub open spec fn behind(at: (usize, usize), pieces: Seq<Seq<char>>) -> (int, int) {
    let n = pieces.len();
    if n <= 1 {
        (at.0 as int, at.1 + pieces[0].len())
    } else {
        (at.0 + n - 1, pieces[n - 1].len() as int)
    }
}

/// `TextArea::insert_str`. With nothing selected, and for a text without carriage returns,
/// the lines of the text are put in at the cursor, which then stands behind them; undo takes
/// them out again. What else becomes of the buffer has a name.
#[verifier::external_body]
pub(crate) fn insert_text(ta: &mut Editor, s: &str)
    ensures
        *final(ta) == after_insert(*old(ta), s@),
        !text_selecting(*old(ta)) && !s@.contains('\r') && text_cursor(*old(ta)).0 < text_lines(
            *old(ta),
        ).len() ==> ({
            let pieces = strs::split_on(s@, '\n');
            let at = text_cursor(*old(ta));
            let c = text_cursor(*final(ta));
            &&& text_lines(*final(ta)) == spliced(text_lines(*old(ta)), at, pieces)
            &&& (c.0 as int, c.1 as int) == behind(at, pieces)
            &&& !text_selecting(*final(ta))
        }),
        inside(text_view(*old(ta))) && s@.len() > 0 && !s@.contains('\r') ==> undone_is(
            *final(ta),
            text_view(*old(ta)),
        ),
{
    ta.area.insert_str(s);
}

/// `TextArea::move_cursor` to the end of its line (`CursorMove::End`) or to the start
/// (`CursorMove::Head`). The text stays, and so does a selection's start.
#[verifier::external_body]
pub(crate) fn move_in_line(ta: &mut Editor, end: bool)
    ensures
        *final(ta) == after_move(*old(ta), end),
        text_lines(*final(ta)) == text_lines(*old(ta)),
        text_cursor(*final(ta)).0 == text_cursor(*old(ta)).0,
        !end ==> text_cursor(*final(ta)).1 == 0,
        end && text_cursor(*old(ta)).0 < text_lines(*old(ta)).len() ==> text_cursor(*final(ta)).1
            == text_lines(*old(ta))[text_cursor(*old(ta)).0 as int].len(),
        text_selecting(*final(ta)) == text_selecting(*old(ta)),
{
    ta.area.move_cursor(if end { CursorMove::End } else { CursorMove::Head });
}

/// `TextArea::input`. With nothing selected, a plain character is put in at the cursor, Enter
/// breaks the line there, and undo takes either out again; the keys that move the cursor, by
/// words too, or remove text beside it do so. What else becomes of the buffer (by other keys,
/// with a selection, and what undo, redo and yank will give) has a name.
#[verifier::external_body]
pub(crate) fn input_key(ta: &mut Editor, code: KeyCode, mods: Mods)
    ensures
        *final(ta) == after_key(*old(ta), code, mods),
        !text_selecting(*old(ta)) && text_cursor(*old(ta)).0 < text_lines(*old(ta)).len()
            && plain_text(code, mods) is Some ==> ({
            let pieces = plain_text(code, mods)->0;
            let at = text_cursor(*old(ta));
            let c = text_cursor(*final(ta));
            &&& text_lines(*final(ta)) == spliced(text_lines(*old(ta)), at, pieces)
            &&& (c.0 as int, c.1 as int) == behind(at, pieces)
            &&& !text_selecting(*final(ta))
        }),
        inside(text_view(*old(ta))) && plain_text(code, mods) is Some ==> undone_is(
            *final(ta),
            text_view(*old(ta)),
        ),
        inside(text_view(*old(ta))) ==> (edited(text_view(*old(ta)), code, mods) matches Some(u)
            ==> text_view(*final(ta)) == u),
{
    let Mods { ctrl, alt, shift } = mods;
    let key = match code {
        KeyCode::Char(c) => Key::Char(c), KeyCode::F(n) => Key::F(n),
        KeyCode::Backspace => Key::Backspace, KeyCode::Enter => Key::Enter,
        KeyCode::Left => Key::Left, KeyCode::Right => Key::Right,
        KeyCode::Up => Key::Up, KeyCode::Down => Key::Down,
        KeyCode::Home => Key::Home, KeyCode::End => Key::End,
        KeyCode::PageUp => Key::PageUp, KeyCode::PageDown => Key::PageDown,
        KeyCode::Tab => Key::Tab, KeyCode::Delete => Key::Delete,
        KeyCode::Esc => Key::Esc, KeyCode::Other => Key::Null,
    };
    ta.area.input(Input { key, ctrl, alt, shift });
}

/// The text that a key stands for as it is: a character, or a line break.
pub open spec fn plain_text(code: KeyCode, mods: Mods) -> Option<Seq<Seq<char>>> {
    match code {
        KeyCode::Enter => Some(seq![Seq::empty(), Seq::empty()]),
        KeyCode::Char(c) => if mods.ctrl && !mods.alt && c == 'm' {
            Some(seq![Seq::empty(), Seq::empty()])
        } else if mods.ctrl || mods.alt {
            None
        } else if c == '\n' || c == '\r' {
            Some(seq![Seq::empty(), Seq::empty()])
        } else {
            Some(seq![seq![c]])
        },
        _ => None,
    }
}

/// Whether the cursor stands in the text, with nothing selected.
pub open spec fn inside(t: TextV) -> bool {
    !t.selecting && t.cursor.0 < t.lines.len() && t.cursor.1 <= t.lines[t.cursor.0 as int].len()
}

/// With row `row` joined to the one in front of it, and the cursor where they meet.
pub open spec fn joined_at(t: TextV, row: int) -> TextV {
    TextV {
        lines: t.lines.remove(row).update(row - 1, t.lines[row - 1] + t.lines[row]),
        cursor: ((row - 1) as usize, t.lines[row - 1].len() as usize),
        ..t
    }
}

/// With the characters of the cursor's line from column `from` to column `to` removed, and the
/// cursor there.
pub open spec fn cut(t: TextV, from: int, to: int) -> TextV {
    let row = t.cursor.0 as int;
    TextV {
        lines: t.lines.update(row, t.lines[row].take(from) + t.lines[row].skip(to)),
        cursor: (t.cursor.0, from as usize),
        ..t
    }
}

/// With the character in front of the cursor removed, or the line break.
pub open spec fn rubbed_out(t: TextV) -> TextV {
    if t.cursor.1 > 0 {
        cut(t, t.cursor.1 - 1, t.cursor.1 as int)
    } else if t.cursor.0 > 0 {
        joined_at(t, t.cursor.0 as int)
    } else {
        t
    }
}

/// With the character behind the cursor removed, or the line break.
pub open spec fn deleted(t: TextV) -> TextV {
    let len = t.lines[t.cursor.0 as int].len();
    if t.cursor.1 < len {
        cut(t, t.cursor.1 as int, t.cursor.1 + 1)
    } else if t.cursor.0 + 1 < t.lines.len() {
        joined_at(t, t.cursor.0 + 1)
    } else {
        t
    }
}

/// With the rest of the line removed, or the line break at its end.
pub open spec fn killed_to_end(t: TextV) -> TextV {
    let len = t.lines[t.cursor.0 as int].len();
    if t.cursor.1 < len {
        cut(t, t.cursor.1 as int, len as int)
    } else {
        deleted(t)
    }
}

/// With the line in front of the cursor removed, or the line break in front of it.
pub open spec fn killed_to_start(t: TextV) -> TextV {
    if t.cursor.1 > 0 {
        cut(t, 0, t.cursor.1 as int)
    } else {
        rubbed_out(t)
    }
}

/// With the cursor one character further back.
pub open spec fn moved_back(t: TextV) -> TextV {
    if t.cursor.1 > 0 {
        TextV { cursor: (t.cursor.0, (t.cursor.1 - 1) as usize), ..t }
    } else if t.cursor.0 > 0 {
        let row = (t.cursor.0 - 1) as usize;
        TextV { cursor: (row, t.lines[row as int].len() as usize), ..t }
    } else {
        t
    }
}

/// With the cursor one character further on.
pub open spec fn moved_on(t: TextV) -> TextV {
    if t.cursor.1 < t.lines[t.cursor.0 as int].len() {
        TextV { cursor: (t.cursor.0, (t.cursor.1 + 1) as usize), ..t }
    } else if t.cursor.0 + 1 < t.lines.len() {
        TextV { cursor: ((t.cursor.0 + 1) as usize, 0), ..t }
    } else {
        t
    }
}

/// With the cursor in row `row`, if there is one, at its column or at the end of the row.
pub open spec fn moved_to_row(t: TextV, row: int) -> TextV {
    if 0 <= row < t.lines.len() {
        let len = t.lines[row].len();
        TextV {
            cursor: (
                row as usize,
                if t.cursor.1 <= len {
                    t.cursor.1
                } else {
                    len as usize
                },
            ),
            ..t
        }
    } else {
        t
    }
}

/// What words are made of: characters that are neither white space nor ASCII punctuation, or
/// punctuation alone.
pub enum CharKind {
    Space,
    Punct,
    Other,
}

/// The kind of a character.
pub open spec fn char_kind(c: char) -> CharKind {
    let n = c as u32;
    if strs::is_space(c) {
        CharKind::Space
    } else if 0x21 <= n <= 0x2f || 0x3a <= n <= 0x40 || 0x5b <= n <= 0x60 || 0x7b <= n <= 0x7e {
        CharKind::Punct
    } else {
        CharKind::Other
    }
}

/// Whether a word starts at column `p`.
pub open spec fn word_starts(line: Seq<char>, p: int) -> bool {
    &&& char_kind(line[p]) != CharKind::Space
    &&& p > 0 ==> char_kind(line[p - 1]) != char_kind(line[p])
}

/// Whether a word ends in front of column `p`.
pub open spec fn word_ends(line: Seq<char>, p: int) -> bool {
    &&& char_kind(line[p - 1]) != CharKind::Space
    &&& char_kind(line[p - 1]) != char_kind(line[p])
}

/// The last word that starts in front of column `col`.
pub open spec fn word_before(line: Seq<char>, col: int) -> Option<int>
    decreases col,
{
    if col <= 0 {
        None
    } else if word_starts(line, col - 1) {
        Some(col - 1)
    } else {
        word_before(line, col - 1)
    }
}

/// The first word that starts behind column `col`.
pub open spec fn word_after(line: Seq<char>, col: int) -> Option<int>
    decreases line.len() - col,
{
    if col + 1 >= line.len() {
        None
    } else if word_starts(line, col + 1) {
        Some(col + 1)
    } else {
        word_after(line, col + 1)
    }
}

/// The first end of a word behind column `col`.
pub open spec fn word_end_after(line: Seq<char>, col: int) -> Option<int>
    decreases line.len() - col,
{
    if col + 1 >= line.len() {
        None
    } else if word_ends(line, col + 1) {
        Some(col + 1)
    } else {
        word_end_after(line, col + 1)
    }
}

/// With the cursor in its row, at column `col`.
pub open spec fn moved_to_column(t: TextV, col: int) -> TextV {
    TextV { cursor: (t.cursor.0, col as usize), ..t }
}

/// With the cursor at the start of the word, or at the end of the line above.
pub open spec fn moved_word_back(t: TextV) -> TextV {
    let row = t.cursor.0 as int;
    match word_before(t.lines[row], t.cursor.1 as int) {
        Some(p) => moved_to_column(t, p),
        None => if row > 0 {
            TextV { cursor: ((row - 1) as usize, t.lines[row - 1].len() as usize), ..t }
        } else {
            moved_to_column(t, 0)
        },
    }
}

/// With the cursor at the start of the next word, or else of the next line, or else at the end.
pub open spec fn moved_word_on(t: TextV) -> TextV {
    let row = t.cursor.0 as int;
    match word_after(t.lines[row], t.cursor.1 as int) {
        Some(p) => moved_to_column(t, p),
        None => if row + 1 < t.lines.len() {
            TextV { cursor: ((row + 1) as usize, 0), ..t }
        } else {
            moved_to_column(t, t.lines[row].len() as int)
        },
    }
}

/// With the word in front of the cursor removed, or the white space, or the line break.
pub open spec fn word_rubbed_out(t: TextV) -> TextV {
    let col = t.cursor.1 as int;
    match word_before(t.lines[t.cursor.0 as int], col) {
        Some(p) => cut(t, p, col),
        None => killed_to_start(t),
    }
}

/// With the text up to the end of the word behind the cursor removed, or the rest of the line,
/// or the line break.
pub open spec fn word_deleted(t: TextV) -> TextV {
    let col = t.cursor.1 as int;
    match word_end_after(t.lines[t.cursor.0 as int], col) {
        Some(p) => cut(t, col, p),
        None => killed_to_end(t),
    }
}

/// What a key that moves the cursor or removes text beside it makes of a text.
pub open spec fn edited(t: TextV, code: KeyCode, mods: Mods) -> Option<TextV> {
    let plain = !mods.ctrl && !mods.alt;
    let still = plain && !mods.shift;
    let ctrl = mods.ctrl && !mods.alt;
    let turn = ctrl && !mods.shift;
    let alt = mods.alt && !mods.ctrl;
    let leap = alt && !mods.shift;
    let both = mods.ctrl && mods.alt && !mods.shift;
    let row = t.cursor.0 as int;
    let end = t.lines[row].len() as int;
    match code {
        KeyCode::Backspace => if plain {
            Some(rubbed_out(t))
        } else if alt {
            Some(word_rubbed_out(t))
        } else {
            None
        },
        KeyCode::Delete => if plain {
            Some(deleted(t))
        } else if alt {
            Some(word_deleted(t))
        } else {
            None
        },
        KeyCode::Left => if still {
            Some(moved_back(t))
        } else if turn {
            Some(moved_word_back(t))
        } else if both {
            Some(moved_to_column(t, 0))
        } else {
            None
        },
        KeyCode::Right => if still {
            Some(moved_on(t))
        } else if turn {
            Some(moved_word_on(t))
        } else if both {
            Some(moved_to_column(t, end))
        } else {
            None
        },
        KeyCode::Up => if still {
            Some(moved_to_row(t, row - 1))
        } else if both {
            Some(moved_to_row(t, 0))
        } else {
            None
        },
        KeyCode::Down => if still {
            Some(moved_to_row(t, row + 1))
        } else if both {
            Some(moved_to_row(t, t.lines.len() - 1))
        } else {
            None
        },
        KeyCode::Home => if !mods.shift {
            Some(moved_to_column(t, 0))
        } else {
            None
        },
        KeyCode::End => if !mods.shift {
            Some(moved_to_column(t, end))
        } else {
            None
        },
        KeyCode::Char(c) => if ctrl && c == 'h' {
            Some(rubbed_out(t))
        } else if ctrl && c == 'd' {
            Some(deleted(t))
        } else if ctrl && c == 'k' {
            Some(killed_to_end(t))
        } else if ctrl && c == 'j' {
            Some(killed_to_start(t))
        } else if (ctrl && c == 'w') || (alt && c == 'h') {
            Some(word_rubbed_out(t))
        } else if alt && c == 'd' {
            Some(word_deleted(t))
        } else if turn && c == 'b' {
            Some(moved_back(t))
        } else if turn && c == 'f' {
            Some(moved_on(t))
        } else if turn && c == 'p' {
            Some(moved_to_row(t, row - 1))
        } else if turn && c == 'n' {
            Some(moved_to_row(t, row + 1))
        } else if leap && c == 'b' {
            Some(moved_word_back(t))
        } else if leap && c == 'f' {
            Some(moved_word_on(t))
        } else if leap && c == '<' {
            Some(moved_to_row(t, 0))
        } else if leap && c == '>' {
            Some(moved_to_row(t, t.lines.len() - 1))
        } else {
            None
        },
        _ => None,
    }
}

} // verus!
