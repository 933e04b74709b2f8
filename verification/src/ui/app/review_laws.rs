//! What a review makes of the threads: comments on the selection, replies, resolved threads and
//! deleted comments.
use crate::comments::model;
use crate::comments::model::{CommentV, LineRange, ThreadV};
use crate::diff::model::Side;
use crate::diff::parse_laws;
use crate::paths;
use crate::strs;
use crate::ui::app::comments;
use crate::ui::app::comments::Drawn;
use crate::ui::app::editor::{KeyCode, Mods};
use crate::ui::app::laws;
use crate::ui::app::move_laws;
use crate::ui::app::nav;
use crate::ui::app::state::{AppV, ButtonV, TargetV, ViewMode};
use crate::ui::render_rows::rows::RowKindV;
use crate::ui::render_rows::split::SplitKindV;
use vstd::prelude::*;

verus! {

/// The first row of the selection: that of the cursor, or of the anchor where it is above.
pub open spec fn first_selected(a: AppV) -> int {
    match a.sel_anchor {
        Some(x) => if x < a.selected {
            x as int
        } else {
            a.selected as int
        },
        None => a.selected as int,
    }
}

/// The last row of the selection: that of the cursor, or of the anchor where it is below.
pub open spec fn last_selected(a: AppV) -> int {
    match a.sel_anchor {
        Some(x) => if x > a.selected {
            x as int
        } else {
            a.selected as int
        },
        None => a.selected as int,
    }
}

/// Whether `start` and `end` are the first and the last line that the selection has in a file on
/// a side.
pub open spec fn spans_selection(a: AppV, f: nat, side: Side, start: u32, end: u32) -> bool {
    let (lo, hi) = (first_selected(a), last_selected(a));
    &&& exists|k: int| lo <= k <= hi && #[trigger] move_laws::place(a, k) == Some((f, side, start))
    &&& exists|k: int| lo <= k <= hi && #[trigger] move_laws::place(a, k) == Some((f, side, end))
    &&& forall|k: int|
        lo <= k <= hi ==> (#[trigger] move_laws::place(a, k) matches Some((g, s, l)) ==> (g == f && s
            == side ==> start <= l <= end))
}

proof fn lemma_lines_among(a: AppV, f: nat, side: Side, cur: u32, lo: nat, n: nat)
    ensures
        ({
            let (s, e) = a.lines_among(f, side, cur, lo, n);
            &&& s <= cur <= e
            &&& s != cur ==> exists|k: int|
                lo <= k < n && #[trigger] move_laws::place(a, k) == Some((f, side, s))
            &&& e != cur ==> exists|k: int|
                lo <= k < n && #[trigger] move_laws::place(a, k) == Some((f, side, e))
            &&& forall|k: int|
                lo <= k < n ==> (#[trigger] move_laws::place(a, k) matches Some((g, t, l)) ==> (g
                    == f && t == side ==> s <= l <= e))
        }),
    decreases n,
{
    if n > lo {
        lemma_lines_among(a, f, side, cur, lo, (n - 1) as nat);
        move_laws::lemma_place(a, (n - 1) as nat);
        let (s0, e0) = a.lines_among(f, side, cur, lo, (n - 1) as nat);
        let (s, e) = a.lines_among(f, side, cur, lo, n);
        if s != cur {
            if s == s0 {
                let k = choose|k: int|
                    lo <= k < n - 1 && #[trigger] move_laws::place(a, k) == Some((f, side, s0));
                assert(move_laws::place(a, k) == Some((f, side, s)));
            } else {
                assert(move_laws::place(a, n - 1) == Some((f, side, s)));
            }
        }
        if e != cur {
            if e == e0 {
                let k = choose|k: int|
                    lo <= k < n - 1 && #[trigger] move_laws::place(a, k) == Some((f, side, e0));
                assert(move_laws::place(a, k) == Some((f, side, e)));
            } else {
                assert(move_laws::place(a, n - 1) == Some((f, side, e)));
            }
        }
    }
}

proof fn lemma_selection(a: AppV)
    ensures
        a.selection_range() is Some <==> move_laws::place(a, a.selected as int) is Some,
        a.selection_range() matches Some((f, side, s, e)) ==> (move_laws::place(
            a,
            a.selected as int,
        ) matches Some((g, t, l)) && g == f && t == side && s <= l <= e && spans_selection(
            a,
            f,
            side,
            s,
            e,
        )),
{
    reveal(AppV::selection_range);
    move_laws::lemma_place(a, a.selected);
    if let Some((f, side, cur)) = a.anchor_at(a.selected) {
        let (lo, hi) = a.bounds();
        lemma_lines_among(a, f, side, cur, lo, hi + 1);
        assert(lo == first_selected(a) && hi == last_selected(a));
        assert(move_laws::place(a, a.selected as int) == Some((f, side, cur)));
    }
}

/// `i` opens an empty composer for a thread on the file and side of the cursor's line, from the
/// first to the last line that the selection has there. Off the lines of the diff it opens none.
pub proof fn law_i_comments_on_the_selection(a: AppV, d: Drawn)
    requires
        move_laws::in_diff(a),
    ensures
        ({
            let b = move_laws::pressed(a, 'i', d);
            &&& b.files == a.files
            &&& b.threads == a.threads
            &&& b.composer is Some <==> move_laws::place(a, a.selected as int) is Some
            &&& b.composer matches Some(c) ==> {
                &&& c.text.lines == seq![Seq::<char>::empty()]
                &&& c.target matches TargetV::NewThread { file_idx, side, start, end } && (
                move_laws::place(a, a.selected as int) matches Some((f, s, l)) && f == file_idx && s
                    == side && start <= l <= end) && spans_selection(a, file_idx, side, start, end)
            }
        }),
{
    reveal(AppV::keyed);
    reveal(AppV::diff_key);
    reveal(AppV::new_thread_opened);
    reveal(AppV::with_composer);
    lemma_selection(a);
    if let Some((f, side, start, end)) = a.selection_range() {
        let t = TargetV::NewThread { file_idx: f, side, start, end };
        let e = a.with_composer(
            t,
            "new comment — enter for newline, ctrl+s to submit, esc to cancel"@,
        );
        laws::lemma_rebuilt(e);
        laws::lemma_composer_shown(e.rebuilt());
    }
}

/// Whether a key submits or leaves the composer.
pub open spec fn ends_composing(code: KeyCode, mods: Mods) -> bool {
    code == KeyCode::Esc || (mods.ctrl && (code == KeyCode::Char('c') || code == KeyCode::Char('s')
        || code == KeyCode::Enter))
}

/// Typing and pasting change nothing but the text: what is commented on and all threads stay.
pub proof fn law_typing_changes_only_the_text(
    a: AppV,
    code: KeyCode,
    mods: Mods,
    s: Seq<char>,
    d: Drawn,
)
    requires
        a.composer is Some,
        !ends_composing(code, mods),
    ensures
        ({
            let b = a.keyed(code, mods, d);
            &&& b.composer matches Some(c) && c.target == a.composer->0.target
            &&& b.threads == a.threads && b.files == a.files && b.base_ids == a.base_ids
        }),
        ({
            let b = a.pasted(s);
            &&& b.composer matches Some(c) && c.target == a.composer->0.target
            &&& b.threads == a.threads && b.files == a.files && b.base_ids == a.base_ids
        }),
{
    reveal(AppV::keyed);
    reveal(AppV::compose_key);
    reveal(AppV::typed);
    reveal(AppV::pasted);
    reveal(AppV::with_buffer);
    let c = a.composer->0;
    let t = a.with_buffer(comments::pressed(c.buffer, code, mods));
    laws::lemma_redrawn(t);
    let p = a.with_buffer(comments::filled(c.buffer, s));
    laws::lemma_rebuilt(p);
    laws::lemma_composer_shown(p.rebuilt());
}

/// The text of an open composer: its lines, with line breaks between them.
pub open spec fn composed(a: AppV) -> Seq<char> {
    strs::joined(a.composer->0.text.lines, '\n')
}

/// Whether `b` comes of `a` by a submit: Ctrl-S, Ctrl-Enter, or the button.
pub open spec fn submits(a: AppV, b: AppV, d: Drawn) -> bool {
    let ctrl = Mods { ctrl: true, alt: false, shift: false };
    ||| b == a.keyed(KeyCode::Char('s'), ctrl, d)
    ||| b == a.keyed(KeyCode::Enter, ctrl, d)
    ||| b == a.button_pressed(ButtonV::Submit, d)
}

/// The comment that is submitted: under the drawn id, by the user, and the text but for white
/// space at its ends.
pub open spec fn is_submitted(c: CommentV, a: AppV, d: Drawn) -> bool {
    &&& c.id == d.comment_id
    &&& c.created_at == d.created_at
    &&& c.author == Some("you"@)
    &&& parse_laws::tight(c.body)
    &&& parse_laws::padded_by_space(composed(a), c.body)
}

proof fn lemma_submit_forms(a: AppV, b: AppV, d: Drawn)
    requires
        a.composer is Some,
        submits(a, b, d),
    ensures
        b.threads == a.submitted(d).threads,
        b.composer == a.submitted(d).composer,
        b.files == a.submitted(d).files,
        b.base_ids == a.submitted(d).base_ids,
{
    reveal(AppV::keyed);
    reveal(AppV::compose_key);
    reveal(AppV::button_pressed);
    laws::lemma_redrawn(a.submitted(d));
}

/// A text of white space is no comment: submitting it leaves the composer and all threads as
/// they are.
pub proof fn law_empty_comments_are_dropped(a: AppV, b: AppV, d: Drawn)
    requires
        a.composer is Some,
        submits(a, b, d),
        parse_laws::all_space(composed(a)),
    ensures
        b.threads == a.threads,
        b.composer is None,
{
    lemma_submit_forms(a, b, d);
    parse_laws::lemma_trimmed_space(composed(a));
    reveal(AppV::submitted);
    reveal(AppV::closed);
}

/// Submitting a new comment adds one thread behind all others: on the file, the side and the
/// lines that the composer was opened for, unresolved, with the text as its one comment.
pub proof fn law_submit_adds_the_thread(
    a: AppV,
    b: AppV,
    d: Drawn,
    f: nat,
    side: Side,
    start: u32,
    end: u32,
)
    requires
        a.composer is Some,
        a.composer->0.target == (TargetV::NewThread { file_idx: f, side, start, end }),
        f < a.files.len(),
        submits(a, b, d),
        !parse_laws::all_space(composed(a)),
    ensures
        b.composer is None,
        b.threads.len() == a.threads.len() + 1,
        b.threads.drop_last() == a.threads,
        ({
            let t = b.threads.last();
            &&& t.id == d.thread_id
            &&& t.file == a.files[f as int].display_path()
            &&& t.side == side
            &&& t.range.start == start
            &&& t.range.end == end
            &&& !t.resolved
            &&& t.comments.len() == 1
            &&& is_submitted(t.comments[0], a, d)
        }),
{
    lemma_submit_forms(a, b, d);
    parse_laws::lemma_trimmed(composed(a));
    reveal(AppV::submitted);
    reveal(AppV::closed);
    reveal(AppV::thread_added);
    let body = strs::trimmed(composed(a));
    let c = a.closed().thread_added(f, side, LineRange { start, end }, body, d);
    laws::lemma_rebuilt(c);
    assert(c.threads.drop_last() == a.threads);
}

/// A comment lands on what was selected: where `i` was pressed on a line of the diff, whatever
/// was typed until the submit, the new thread is on the file and the side of that line, from the
/// first to the last line that the selection had there.
pub proof fn law_comments_land_on_the_selection(a: AppV, typed: AppV, b: AppV, d: Drawn)
    requires
        move_laws::in_diff(a),
        move_laws::place(a, a.selected as int) matches Some((f, _, _)) && f < a.files.len(),
        typed.composer is Some,
        typed.composer->0.target == move_laws::pressed(a, 'i', d).composer->0.target,
        typed.files == a.files,
        submits(typed, b, d),
        !parse_laws::all_space(composed(typed)),
    ensures
        b.threads.len() == typed.threads.len() + 1,
        ({
            let t = b.threads.last();
            move_laws::place(a, a.selected as int) matches Some((f, side, l)) && t.file
                == a.files[f as int].display_path() && t.side == side && t.range.start <= l
                <= t.range.end && spans_selection(a, f, side, t.range.start, t.range.end)
        }),
{
    law_i_comments_on_the_selection(a, d);
    let c = move_laws::pressed(a, 'i', d).composer->0;
    match c.target {
        TargetV::NewThread { file_idx, side, start, end } => {
            law_submit_adds_the_thread(typed, b, d, file_idx, side, start, end);
        },
        TargetV::Reply { .. } => {},
    }
}

/// Submitting a reply puts it behind the comments of the thread that it answers, and changes
/// nothing else of the threads.
pub proof fn law_submit_adds_the_reply(a: AppV, b: AppV, d: Drawn, k: int)
    requires
        a.composer is Some,
        0 <= k < a.threads.len(),
        a.composer->0.target == (TargetV::Reply { thread_id: a.threads[k].id }),
        forall|j: int| 0 <= j < k ==> (#[trigger] a.threads[j]).id != a.threads[k].id,
        submits(a, b, d),
        !parse_laws::all_space(composed(a)),
    ensures
        b.composer is None,
        b.threads.len() == a.threads.len(),
        forall|j: int| 0 <= j < a.threads.len() && j != k ==> b.threads[j] == #[trigger] a.threads[j],
        ({
            let t = b.threads[k];
            let was = a.threads[k];
            &&& t.id == was.id && t.file == was.file && t.side == was.side && t.range == was.range
                && t.resolved == was.resolved
            &&& t.comments.len() == was.comments.len() + 1
            &&& t.comments.drop_last() == was.comments
            &&& is_submitted(t.comments.last(), a, d)
        }),
{
    lemma_submit_forms(a, b, d);
    parse_laws::lemma_trimmed(composed(a));
    reveal(AppV::submitted);
    reveal(AppV::closed);
    reveal(AppV::reply_added);
    let id = a.threads[k].id;
    lemma_find_is(a.threads, k);
    let body = strs::trimmed(composed(a));
    let c = a.closed().reply_added(id, body, d);
    laws::lemma_rebuilt(c);
    assert(c.threads[k].comments.drop_last() == a.threads[k].comments);
}

proof fn lemma_find_is(threads: Seq<ThreadV>, k: int)
    requires
        0 <= k < threads.len(),
        forall|j: int| 0 <= j < k ==> (#[trigger] threads[j]).id != threads[k].id,
    ensures
        model::find(threads, threads[k].id) == Some(k),
{
    model::lemma_find(threads, threads[k].id, threads.len());
    let i = model::find(threads, threads[k].id);
    if i is None {
        assert(threads[k].id != threads[k].id);
    }
}

/// Leaving the composer with Esc, Ctrl-C or its button leaves all threads as they are.
pub proof fn law_cancel_changes_no_thread(a: AppV, d: Drawn)
    requires
        a.composer is Some,
    ensures
        ({
            let b = a.keyed(KeyCode::Esc, laws::bare(), d);
            b.composer is None && b.threads == a.threads
        }),
        ({
            let b = move_laws::pressed_ctrl(a, 'c', d);
            b.composer is None && b.threads == a.threads
        }),
        ({
            let b = a.button_pressed(ButtonV::Cancel, d);
            b.composer is None && b.threads == a.threads
        }),
{
    reveal(AppV::keyed);
    reveal(AppV::compose_key);
    reveal(AppV::button_pressed);
    reveal(AppV::cancelled);
    laws::lemma_redrawn(a.cancelled());
    laws::lemma_rebuilt(a.cancelled());
}

/// The thread whose box row `i` is a line of.
pub open spec fn boxed(a: AppV, i: int) -> Option<Seq<char>> {
    match a.view {
        ViewMode::Unified => if 0 <= i < a.rows.len() {
            match a.rows[i].kind {
                RowKindV::Comment(c) => Some(c.thread_id),
                _ => None,
            }
        } else {
            None
        },
        ViewMode::Split => if 0 <= i < a.split_rows.len() {
            match a.split_rows[i].kind {
                SplitKindV::Comment { line, .. } => Some(line.thread_id),
                _ => None,
            }
        } else {
            None
        },
    }
}

/// Whether thread `k` is on the line in row `i`: on its file and side, and its range holds it.
pub open spec fn covers(a: AppV, k: int, i: int) -> bool {
    move_laws::place(a, i) matches Some((f, side, line)) && f < a.files.len() && paths::same(
        a.threads[k].file,
        a.files[f as int].display_path(),
    ) && a.threads[k].side == side && a.threads[k].range.start <= line <= a.threads[k].range.end
}

/// Whether the cursor is on thread `k`: in its box, or on a line of it where no thread before it
/// is on.
pub open spec fn at_thread(a: AppV, k: int) -> bool {
    let i = a.selected as int;
    &&& 0 <= k < a.threads.len()
    &&& match boxed(a, i) {
        Some(id) => id == a.threads[k].id,
        None => covers(a, k, i) && forall|j: int| 0 <= j < k ==> !#[trigger] covers(a, j, i),
    }
}

proof fn lemma_covering(a: AppV, n: nat)
    requires
        n <= a.threads.len(),
        a.anchor_at(a.selected) is Some,
        (a.anchor_at(a.selected)->0).0 < a.files.len(),
    ensures
        ({
            let (f, side, line) = a.anchor_at(a.selected)->0;
            let i = a.selected as int;
            let r = nav::covering(a.threads, a.files[f as int].display_path(), side, line, n);
            match r {
                Some(id) => exists|k: int|
                    n <= k < a.threads.len() && (#[trigger] a.threads[k]).id == id && covers(a, k, i)
                        && forall|j: int| n <= j < k ==> !#[trigger] covers(a, j, i),
                None => forall|j: int| n <= j < a.threads.len() ==> !#[trigger] covers(a, j, i),
            }
        }),
    decreases a.threads.len() - n,
{
    move_laws::lemma_place(a, a.selected);
    let i = a.selected as int;
    if n < a.threads.len() {
        if covers(a, n as int, i) {
            assert(a.threads[n as int].id == a.threads[n as int].id);
        } else {
            lemma_covering(a, n + 1);
            let (f, side, line) = a.anchor_at(a.selected)->0;
            let r = nav::covering(a.threads, a.files[f as int].display_path(), side, line, n + 1);
            if r is Some {
                let k = choose|k: int|
                    n + 1 <= k < a.threads.len() && (#[trigger] a.threads[k]).id == r->0 && covers(
                        a,
                        k,
                        i,
                    ) && forall|j: int| n + 1 <= j < k ==> !#[trigger] covers(a, j, i);
                assert(a.threads[k].id == r->0);
                assert forall|j: int| n <= j < k implies !#[trigger] covers(a, j, i) by {}
            }
        }
    }
}

proof fn lemma_focused(a: AppV, k: int)
    ensures
        at_thread(a, k) ==> a.focused_thread() == Some(a.threads[k].id),
        boxed(a, a.selected as int) is None && (forall|j: int|
            0 <= j < a.threads.len() ==> !#[trigger] covers(a, j, a.selected as int))
            ==> a.focused_thread() is None,
{
    let i = a.selected as int;
    move_laws::lemma_place(a, a.selected);
    assert(boxed(a, i) == match a.comment_at(a.selected) {
        Some(c) => Some(c.thread_id),
        None => None,
    });
    if boxed(a, i) is None {
        if a.anchor_at(a.selected) is Some {
            let (f, side, line) = a.anchor_at(a.selected)->0;
            if f < a.files.len() {
                lemma_covering(a, 0);
                let r = nav::covering(a.threads, a.files[f as int].display_path(), side, line, 0);
                if r is Some {
                    let m = choose|m: int|
                        0 <= m < a.threads.len() && (#[trigger] a.threads[m]).id == r->0 && covers(
                            a,
                            m,
                            i,
                        ) && forall|j: int| 0 <= j < m ==> !#[trigger] covers(a, j, i);
                    assert(covers(a, m, i));
                    if at_thread(a, k) {
                        assert(covers(a, k, i));
                        if m < k {
                            assert(!covers(a, m, i));
                        }
                        if k < m {
                            assert(!covers(a, k, i));
                        }
                    }
                } else if at_thread(a, k) {
                    assert(covers(a, k, i));
                }
            }
        }
    }
}

/// `r` opens an empty composer that answers the thread the cursor is on, and none where it is on
/// no thread.
pub proof fn law_r_answers_the_thread(a: AppV, d: Drawn, k: int)
    requires
        move_laws::in_diff(a),
    ensures
        ({
            let b = move_laws::pressed(a, 'r', d);
            &&& b.threads == a.threads && b.files == a.files
            &&& at_thread(a, k) ==> (b.composer matches Some(c) && c.target == (TargetV::Reply {
                thread_id: a.threads[k].id,
            }) && c.text.lines == seq![Seq::<char>::empty()])
            &&& boxed(a, a.selected as int) is None && (forall|j: int|
                0 <= j < a.threads.len() ==> !#[trigger] covers(a, j, a.selected as int))
                ==> b.composer is None
        }),
{
    reveal(AppV::keyed);
    reveal(AppV::diff_key);
    reveal(AppV::reply_opened);
    reveal(AppV::reply_opened_to);
    reveal(AppV::with_composer);
    lemma_focused(a, k);
    if let Some(t) = a.focused_thread() {
        let e = a.with_composer(
            TargetV::Reply { thread_id: t },
            "reply — enter for newline, ctrl+s to submit, esc to cancel"@,
        );
        laws::lemma_rebuilt(e);
        laws::lemma_composer_shown(e.rebuilt());
    }
}

/// Whether `b` has the threads of `a`, but for thread `k`, which is resolved where it was not,
/// and open where it was resolved.
pub open spec fn flips(a: AppV, b: AppV, k: int) -> bool {
    &&& b.threads.len() == a.threads.len()
    &&& forall|j: int| 0 <= j < a.threads.len() && j != k ==> b.threads[j] == #[trigger] a.threads[j]
    &&& ({
        let t = b.threads[k];
        let was = a.threads[k];
        &&& t.resolved == !was.resolved
        &&& t.id == was.id && t.file == was.file && t.side == was.side && t.range == was.range
            && t.comments == was.comments
    })
}

/// `R` resolves the thread that the cursor is on, or opens it again, and changes nothing else of
/// the threads; the button of a thread does the same to that thread.
pub proof fn law_shift_r_resolves_the_thread(a: AppV, d: Drawn, k: int)
    requires
        0 <= k < a.threads.len(),
        forall|j: int| 0 <= j < k ==> (#[trigger] a.threads[j]).id != a.threads[k].id,
    ensures
        move_laws::in_diff(a) && at_thread(a, k) ==> flips(a, move_laws::pressed(a, 'R', d), k),
        flips(a, a.button_pressed(ButtonV::ToggleResolve(a.threads[k].id), d), k),
{
    reveal(AppV::keyed);
    reveal(AppV::diff_key);
    reveal(AppV::button_pressed);
    reveal(AppV::resolve_toggled_here);
    lemma_focused(a, k);
    lemma_flips(a, k);
    let id = a.threads[k].id;
    let b = a.on_thread(id);
    assert(b.threads == a.threads) by {
        reveal(AppV::on_thread);
        reveal(AppV::with_file_of);
        reveal(AppV::with_span);
        reveal(AppV::with_stop_for);
    }
    lemma_flips(b, k);
}

proof fn lemma_flips(a: AppV, k: int)
    requires
        0 <= k < a.threads.len(),
        forall|j: int| 0 <= j < k ==> (#[trigger] a.threads[j]).id != a.threads[k].id,
    ensures
        flips(a, a.resolve_toggled(a.threads[k].id), k),
{
    reveal(AppV::resolve_toggled);
    lemma_find_is(a.threads, k);
    let t = model::with_resolved(a.threads[k], !a.threads[k].resolved);
    let c = AppV {
        threads: a.threads.update(k, t),
        status: if a.threads[k].resolved {
            "unresolved thread"@
        } else {
            "resolved thread"@
        },
        ..a
    };
    laws::lemma_rebuilt(c);
}

/// Whether the cursor is on comment `j` of thread `k`.
pub open spec fn at_comment(a: AppV, k: int, j: int) -> bool {
    let i = a.selected as int;
    &&& 0 <= k < a.threads.len()
    &&& 0 <= j < a.threads[k].comments.len()
    &&& boxed(a, i) == Some(a.threads[k].id)
    &&& move_laws::message(a, i) == Some(a.threads[k].comments[j].id)
}

/// Whether thread `k` is the first with its id, and comment `j` the first of it with its id.
pub open spec fn found_first(a: AppV, k: int, j: int) -> bool {
    &&& forall|m: int| 0 <= m < k ==> (#[trigger] a.threads[m]).id != a.threads[k].id
    &&& forall|m: int|
        0 <= m < j ==> (#[trigger] a.threads[k].comments[m]).id != a.threads[k].comments[j].id
}

/// `D` deletes the comment that the cursor is on, where it did not come with the input, and
/// nothing else: the thread goes with its last comment. A comment of the input stays.
pub proof fn law_shift_d_deletes_own_comments(a: AppV, d: Drawn, k: int, j: int)
    requires
        move_laws::in_diff(a),
        at_comment(a, k, j),
        found_first(a, k, j),
    ensures
        ({
            let b = move_laws::pressed(a, 'D', d);
            let id = a.threads[k].comments[j].id;
            let was = a.threads[k];
            &&& a.base_ids.contains(id) ==> b.threads == a.threads
            &&& !a.base_ids.contains(id) && was.comments.len() == 1 ==> b.threads
                == a.threads.remove(k)
            &&& !a.base_ids.contains(id) && was.comments.len() > 1 ==> {
                let t = b.threads[k];
                &&& b.threads.len() == a.threads.len()
                &&& forall|m: int|
                    0 <= m < a.threads.len() && m != k ==> b.threads[m] == #[trigger] a.threads[m]
                &&& t.comments == was.comments.remove(j)
                &&& t.id == was.id && t.file == was.file && t.side == was.side && t.range
                    == was.range && t.resolved == was.resolved
            }
        }),
{
    reveal(AppV::keyed);
    reveal(AppV::diff_key);
    reveal(AppV::comment_deleted_here);
    reveal(AppV::comment_deleted);
    move_laws::lemma_place(a, a.selected);
    let t = a.threads[k].id;
    let c = a.threads[k].comments[j].id;
    assert(a.unit_at(a.selected) == Some((t, c)));
    lemma_find_is(a.threads, k);
    model::lemma_find_comment(a.threads[k].comments, c, a.threads[k].comments.len());
    let i = model::find_comment(a.threads[k].comments, c);
    if i is None {
        assert(a.threads[k].comments[j].id != c);
    }
    assert(i == Some(j));
    let n = AppV {
        threads: model::comment_removed(a.threads, k, j),
        status: "deleted comment"@,
        ..a
    };
    laws::lemma_rebuilt(n);
}

} // verus!
