//! How a comment is written: what keys and pastes make of its text, and how the text is shown.
use crate::str_laws;
use crate::strs;
use crate::ui::app::comments;
use crate::ui::app::comments::Drawn;
use crate::ui::app::editor;
use crate::ui::app::editor::{KeyCode, Mods, TextV};
use crate::ui::app::laws;
use crate::ui::app::state::{AppV, ComposerStateV, TargetV, COMPOSER_CARET};
use crate::ui::render_rows::threads::ComposerAnchorV;
use vstd::prelude::*;

verus! {

/// Whether the caret is in the text, and nothing is selected.
pub open spec fn caret_in(t: TextV) -> bool {
    !t.selecting && t.cursor.0 < t.lines.len() && t.cursor.1 <= t.lines[t.cursor.0 as int].len()
}

/// The text of a line in front of the caret.
pub open spec fn front(t: TextV) -> Seq<char> {
    t.lines[t.cursor.0 as int].take(t.cursor.1 as int)
}

/// The text of a line behind the caret.
pub open spec fn back(t: TextV) -> Seq<char> {
    t.lines[t.cursor.0 as int].skip(t.cursor.1 as int)
}

/// Whether `u` is `t` but for the line of the caret, which is `x` in front of it and `y` behind.
pub open spec fn line_became(t: TextV, u: TextV, x: Seq<char>, y: Seq<char>) -> bool {
    &&& u.lines == t.lines.update(t.cursor.0 as int, x + y)
    &&& u.cursor.0 == t.cursor.0 && u.cursor.1 == x.len()
    &&& !u.selecting
}

/// The text that is being written after a key.
pub open spec fn text_after(a: AppV, code: KeyCode, mods: Mods, d: Drawn) -> TextV {
    a.keyed(code, mods, d).composer->0.text
}

proof fn lemma_key(a: AppV, code: KeyCode, mods: Mods, d: Drawn)
    requires
        a.composer is Some,
        !(comments::chord(code, mods) is Cancel),
        !(comments::chord(code, mods) is Submit),
    ensures
        a.keyed(code, mods, d).composer is Some,
        text_after(a, code, mods, d) == editor::text_view(
            comments::pressed(a.composer->0.buffer, code, mods),
        ),
{
    reveal(AppV::keyed);
    reveal(AppV::compose_key);
    reveal(AppV::typed);
    reveal(AppV::with_buffer);
    let c = a.composer->0;
    laws::lemma_redrawn(a.with_buffer(comments::pressed(c.buffer, code, mods)));
}

/// A character goes in at the caret, which stands behind it then.
pub proof fn law_characters_go_in_at_the_caret(a: AppV, c: char, d: Drawn)
    requires
        a.composer is Some,
        caret_in(a.composer->0.text),
        c != '\n' && c != '\r',
        comments::key_draws(a, KeyCode::Char(c), laws::bare(), d),
    ensures
        ({
            let t = a.composer->0.text;
            let u = text_after(a, KeyCode::Char(c), laws::bare(), d);
            line_became(t, u, front(t).push(c), back(t))
        }),
{
    let code = KeyCode::Char(c);
    lemma_key(a, code, laws::bare(), d);
    let t = a.composer->0.text;
    assert(front(t) + seq![c] + back(t) == front(t).push(c) + back(t));
}

/// Enter breaks the line at the caret.
pub proof fn law_enter_breaks_the_line(a: AppV, d: Drawn)
    requires
        a.composer is Some,
        caret_in(a.composer->0.text),
        comments::key_draws(a, KeyCode::Enter, laws::bare(), d),
    ensures
        ({
            let t = a.composer->0.text;
            let u = text_after(a, KeyCode::Enter, laws::bare(), d);
            let row = t.cursor.0 as int;
            &&& u.lines == t.lines.take(row) + seq![front(t), back(t)] + t.lines.skip(row + 1)
            &&& u.cursor.0 == row + 1 && u.cursor.1 == 0
        }),
{
    lemma_key(a, KeyCode::Enter, laws::bare(), d);
    let t = a.composer->0.text;
    let row = t.cursor.0 as int;
    let e = Seq::<char>::empty();
    let pieces = seq![e, e];
    assert(front(t) + e == front(t));
    assert(e + back(t) == back(t));
    assert(pieces.subrange(1, 1) == Seq::<Seq<char>>::empty());
    assert(t.lines.take(row).push(front(t)) + Seq::<Seq<char>>::empty() + seq![back(t)]
        + t.lines.skip(row + 1) == t.lines.take(row) + seq![front(t), back(t)] + t.lines.skip(
        row + 1,
    ));
}

/// Backspace takes the character in front of the caret; at the start of a line it joins the line
/// to the one above, and at the start of the text it does nothing.
pub proof fn law_backspace_takes_what_stands_in_front(a: AppV, d: Drawn)
    requires
        a.composer is Some,
        caret_in(a.composer->0.text),
        comments::key_draws(a, KeyCode::Backspace, laws::bare(), d),
    ensures
        ({
            let t = a.composer->0.text;
            let u = text_after(a, KeyCode::Backspace, laws::bare(), d);
            let row = t.cursor.0 as int;
            &&& t.cursor.1 > 0 ==> line_became(t, u, front(t).drop_last(), back(t))
            &&& t.cursor.1 == 0 && row > 0 ==> u.lines == t.lines.take(row - 1) + seq![
                t.lines[row - 1] + t.lines[row],
            ] + t.lines.skip(row + 1)
            &&& t.cursor.1 == 0 && row == 0 ==> u == t
        }),
{
    lemma_key(a, KeyCode::Backspace, laws::bare(), d);
    let t = a.composer->0.text;
    let row = t.cursor.0 as int;
    if t.cursor.1 > 0 {
        assert(t.lines[row].take(t.cursor.1 - 1) == front(t).drop_last());
    } else if row > 0 {
        let x = t.lines[row - 1] + t.lines[row];
        assert(t.lines.remove(row).update(row - 1, x) == t.lines.take(row - 1) + seq![x]
            + t.lines.skip(row + 1));
    }
}

/// Ctrl-U takes what stands in front of the caret on its line, and Ctrl-K what stands behind it.
pub proof fn law_kills_take_a_part_of_the_line(a: AppV, d: Drawn)
    requires
        a.composer is Some,
        caret_in(a.composer->0.text),
        comments::key_draws(a, KeyCode::Char('u'), editor::with_ctrl(), d),
        comments::key_draws(a, KeyCode::Char('k'), editor::with_ctrl(), d),
    ensures
        ({
            let t = a.composer->0.text;
            &&& front(t).len() > 0 ==> line_became(
                t,
                text_after(a, KeyCode::Char('u'), editor::with_ctrl(), d),
                Seq::empty(),
                back(t),
            )
            &&& back(t).len() > 0 ==> line_became(
                t,
                text_after(a, KeyCode::Char('k'), editor::with_ctrl(), d),
                front(t),
                Seq::empty(),
            )
        }),
{
    lemma_key(a, KeyCode::Char('u'), editor::with_ctrl(), d);
    lemma_key(a, KeyCode::Char('k'), editor::with_ctrl(), d);
    let t = a.composer->0.text;
    let l = t.lines[t.cursor.0 as int];
    assert(l.take(0) == Seq::<char>::empty());
    assert(l.skip(l.len() as int) == Seq::<char>::empty());
}

/// A line that is pasted goes in at the caret.
pub proof fn law_pasted_lines_go_in_at_the_caret(a: AppV, s: Seq<char>)
    requires
        a.composer is Some,
        caret_in(a.composer->0.text),
        !s.contains('\n') && !s.contains('\r'),
        comments::paste_gives(
            a.composer->0.text,
            s,
            comments::filled(a.composer->0.buffer, s),
        ),
    ensures
        a.pasted(s).composer is Some,
        ({
            let t = a.composer->0.text;
            line_became(t, a.pasted(s).composer->0.text, front(t) + s, back(t))
        }),
{
    reveal(AppV::pasted);
    reveal(AppV::with_buffer);
    let c = a.composer->0;
    let t = c.text;
    let b = a.with_buffer(comments::filled(c.buffer, s));
    laws::lemma_rebuilt(b);
    laws::lemma_composer_shown(b.rebuilt());
    lemma_no_breaks(s);
    assert(front(t) + s + back(t) == (front(t) + s) + back(t));
}

proof fn lemma_no_breaks(s: Seq<char>)
    requires
        !s.contains('\n') && !s.contains('\r'),
    ensures
        strs::unix_lines(s) == s,
        strs::split_on(s, '\n') == seq![s],
    decreases s.len(),
{
    if s.len() > 0 {
        let p = s.drop_last();
        assert(s[s.len() - 1] != '\n' && s[s.len() - 1] != '\r');
        assert forall|i: int| 0 <= i < p.len() implies p[i] != '\n' && p[i] != '\r' by {
            assert(p[i] == s[i]);
            assert(s.contains(s[i]));
        }
        lemma_no_breaks(p);
        assert(p.push(s.last()) == s);
        assert(seq![p].drop_last().push(p.push(s.last())) == seq![s]);
    } else {
        assert(s == Seq::<char>::empty());
    }
}

/// The text in front of the caret: the lines above, and what stands in front of it on its own.
pub open spec fn all_before(t: TextV) -> Seq<char> {
    str_laws::with_between(t.lines.take(t.cursor.0 as int).push(front(t)), seq!['\n'])
}

/// The text behind the caret: what stands behind it on its line, and the lines below.
pub open spec fn all_behind(t: TextV) -> Seq<char> {
    str_laws::with_between(seq![back(t)] + t.lines.skip(t.cursor.0 as int + 1), seq!['\n'])
}

/// The composer shows the text that is being written, with the caret in its place, behind the
/// last line of the range that the comment is for, or under the thread that it answers.
pub proof fn law_the_composer_shows_the_text(c: ComposerStateV)
    requires
        caret_in(c.text),
    ensures
        comments::composer_of(Some(c)) is Some,
        ({
            let s = comments::composer_of(Some(c))->0;
            &&& s.body == all_before(c.text) + seq![COMPOSER_CARET] + all_behind(c.text)
            &&& s.anchor == (match c.target {
                TargetV::NewThread { file_idx, side, start, end } => ComposerAnchorV::NewThread {
                    file_idx,
                    side,
                    line: end,
                },
                TargetV::Reply { thread_id } => ComposerAnchorV::Reply { thread_id },
            })
        }),
        all_before(c.text) + all_behind(c.text) == str_laws::with_between(
            c.text.lines,
            seq!['\n'],
        ),
{
    let t = c.text;
    let row = t.cursor.0 as int;
    let nl = seq!['\n'];
    let up = t.lines.take(row);
    let down = t.lines.skip(row + 1);
    let mid = front(t).push(COMPOSER_CARET) + back(t);
    let lines = comments::caret_lines(t);
    str_laws::law_join_puts_between(lines, '\n');
    assert(lines == up.push(mid) + down);
    assert(mid == front(t) + seq![COMPOSER_CARET] + back(t));
    lemma_meet(up, front(t), seq![COMPOSER_CARET], back(t), down);
    let e = Seq::<char>::empty();
    lemma_meet(up, front(t), e, back(t), down);
    assert(front(t) + e + back(t) == t.lines[row]);
    assert(t.lines == up.push(t.lines[row]) + down);
    assert(all_before(t) + e + all_behind(t) == all_before(t) + all_behind(t));
}

/// Lines that meet in the middle of one of them.
proof fn lemma_meet(
    up: Seq<Seq<char>>,
    x: Seq<char>,
    m: Seq<char>,
    y: Seq<char>,
    down: Seq<Seq<char>>,
)
    ensures
        str_laws::with_between(up.push(x + m + y) + down, seq!['\n']) == str_laws::with_between(
            up.push(x),
            seq!['\n'],
        ) + m + str_laws::with_between(seq![y] + down, seq!['\n']),
    decreases down.len(),
{
    let nl = seq!['\n'];
    let all = up.push(x + m + y) + down;
    let a = str_laws::with_between(up.push(x), nl);
    let b = str_laws::with_between(seq![y] + down, nl);
    if down.len() == 0 {
        assert(all == up.push(x + m + y));
        assert(seq![y] + down == seq![y]);
        assert(up.push(x).drop_last() == up);
        assert(up.push(x + m + y).drop_last() == up);
        if up.len() == 0 {
            assert(up.push(x) == seq![x]);
            assert(up.push(x + m + y) == seq![x + m + y]);
        } else {
            let u = str_laws::with_between(up, nl);
            assert(u + nl + (x + m + y) == (u + nl + x) + m + y);
        }
    } else {
        lemma_meet(up, x, m, y, down.drop_last());
        let z = down.last();
        assert(all.drop_last() == up.push(x + m + y) + down.drop_last());
        assert((seq![y] + down).drop_last() == seq![y] + down.drop_last());
        let b0 = str_laws::with_between(seq![y] + down.drop_last(), nl);
        assert(b == b0 + nl + z);
        assert((a + m + b0) + nl + z == a + m + (b0 + nl + z));
    }
}

/// The line of the caret is on the screen, and the whole box where it fits and would else begin
/// above.
pub proof fn law_the_caret_is_in_view(
    scroll: nat,
    start: nat,
    first: nat,
    last: nat,
    caret: nat,
    h: nat,
)
    requires
        start <= first <= caret <= last,
        h > 0,
    ensures
        ({
            let to = comments::scroll_to_box(scroll, start, first, last, caret, h);
            &&& to <= caret < to + h
            &&& last - first < h ==> to <= first
            &&& scroll <= first && last < scroll + h ==> to == scroll
        }),
{
}

} // verus!
