//! What the box of a thread says: every message of it, under its author, in order.
use crate::comments::model::{CommentV, ThreadV};
use crate::strs;
use crate::ui::render_rows::date;
use crate::ui::render_rows::text;
use crate::ui::render_rows::text::Wrap;
use crate::ui::render_rows::threads;
use crate::ui::render_rows::threads::{CommentKindV, CommentLineV};
use vstd::prelude::*;

verus! {

/// The text of the body lines that carry the id of a comment, in order.
pub open spec fn said(lines: Seq<CommentLineV>, id: Seq<char>) -> Seq<char>
    decreases lines.len(),
{
    if lines.len() == 0 {
        Seq::empty()
    } else {
        let before = said(lines.drop_last(), id);
        match lines.last().kind {
            CommentKindV::Body(s) => if lines.last().comment_id == Some(id) {
                before + s
            } else {
                before
            },
            _ => before,
        }
    }
}

/// Whether a message has no control characters besides line breaks.
pub open spec fn printable(s: Seq<char>) -> bool {
    forall|i: int| 0 <= i < s.len() ==> (#[trigger] s[i]) == '\n' || !strs::is_cc(s[i])
}

/// Whether no two comments of a thread share an id.
pub open spec fn own_ids(t: ThreadV) -> bool {
    forall|i: int, j: int|
        0 <= i < j < t.comments.len() ==> (#[trigger] t.comments[i]).id != (
        #[trigger] t.comments[j]).id
}

proof fn lemma_visible_add(a: Seq<char>, b: Seq<char>)
    ensures
        text::visible(a + b) == text::visible(a) + text::visible(b),
    decreases b.len(),
{
    if b.len() == 0 {
        assert(a + b == a);
    } else {
        lemma_visible_add(a, b.drop_last());
        assert((a + b).drop_last() == a + b.drop_last());
        assert((a + b).last() == b.last());
    }
}

proof fn lemma_concat_add(a: Seq<Seq<char>>, b: Seq<Seq<char>>)
    ensures
        strs::concat(a + b) == strs::concat(a) + strs::concat(b),
    decreases b.len(),
{
    if b.len() == 0 {
        assert(a + b == a);
    } else {
        lemma_concat_add(a, b.drop_last());
        assert((a + b).drop_last() == a + b.drop_last());
        assert((a + b).last() == b.last());
    }
}

proof fn lemma_split(s: Seq<char>)
    requires
        printable(s),
    ensures
        forall|k: int|
            0 <= k < strs::split_on(s, '\n').len() ==> text::no_control(
                #[trigger] strs::split_on(s, '\n')[k],
            ),
        text::visible(strs::concat(strs::split_on(s, '\n'))) == text::visible(s),
        strs::split_on(s, '\n').len() >= 1,
    decreases s.len(),
{
    if s.len() > 0 {
        let u = s.drop_last();
        assert forall|i: int| 0 <= i < u.len() implies (#[trigger] u[i]) == '\n' || !strs::is_cc(
            u[i],
        ) by {
            assert(u[i] == s[i]);
        }
        lemma_split(u);
        let r = strs::split_on(u, '\n');
        let all = strs::split_on(s, '\n');
        assert(s[s.len() - 1] == s.last());
        if s.last() == '\n' {
            assert(all.drop_last() == r);
            assert(strs::concat(all) == strs::concat(r));
            assert forall|k: int| 0 <= k < all.len() implies text::no_control(
                #[trigger] all[k],
            ) by {
                if k < r.len() {
                    assert(all[k] == r[k]);
                }
            }
        } else {
            let tail = r.last().push(s.last());
            assert(all.drop_last() == r.drop_last());
            assert(strs::concat(all) == strs::concat(r.drop_last()) + tail);
            assert(strs::concat(all) == strs::concat(r).push(s.last()));
            assert(strs::concat(r).push(s.last()).drop_last() == strs::concat(r));
            assert forall|k: int| 0 <= k < all.len() implies text::no_control(
                #[trigger] all[k],
            ) by {
                if k < r.len() - 1 {
                    assert(all[k] == r[k]);
                } else {
                    assert(text::no_control(r[r.len() - 1]));
                    assert forall|i: int| 0 <= i < tail.len() implies !strs::is_cc(
                        #[trigger] tail[i],
                    ) by {
                        if i < r.last().len() {
                            assert(tail[i] == r.last()[i]);
                        }
                    }
                }
            }
        }
    } else {
        assert(strs::split_on(s, '\n') == seq![Seq::<char>::empty()]);
        assert(strs::concat(seq![Seq::<char>::empty()]) == Seq::<char>::empty()) by {
            assert(seq![Seq::<char>::empty()].drop_last() == Seq::<Seq<char>>::empty());
            assert(strs::concat(Seq::<Seq<char>>::empty()) == Seq::<char>::empty());
        }
    }
}

proof fn lemma_body_among(pieces: Seq<Seq<char>>, n: nat, width: nat, verbatim: bool)
    requires
        n <= pieces.len(),
        forall|k: int| 0 <= k < pieces.len() ==> text::no_control(#[trigger] pieces[k]),
    ensures
        text::visible(strs::concat(threads::body_among(pieces, n, width, verbatim)))
            == text::visible(strs::concat(pieces.take(n as int))),
    decreases n,
{
    if n > 0 {
        lemma_body_among(pieces, (n - 1) as nat, width, verbatim);
        let raw = pieces[n - 1];
        let lines = threads::raw_lines(raw, width, verbatim);
        let before = threads::body_among(pieces, (n - 1) as nat, width, verbatim);
        assert(text::no_control(raw));
        text::law_sanitized_keeps_clean(raw);
        lemma_concat_add(before, lines);
        lemma_visible_add(strs::concat(before), strs::concat(lines));
        assert(pieces.take(n as int).drop_last() == pieces.take(n - 1));
        lemma_visible_add(strs::concat(pieces.take(n - 1)), raw);
        if raw.len() == 0 {
            assert(seq![Seq::<char>::empty()].drop_last() == Seq::<Seq<char>>::empty());
            assert(strs::concat(Seq::<Seq<char>>::empty()) == Seq::<char>::empty());
            assert(lines == seq![Seq::<char>::empty()]);
            assert(strs::concat(lines) == Seq::<char>::empty());
            assert(raw == Seq::<char>::empty());
        } else if verbatim {
            text::law_preserved_keeps_text(raw, width);
        } else {
            text::law_wrapped_keeps_text(raw, width);
        }
    } else {
        assert(pieces.take(0) == Seq::<Seq<char>>::empty());
    }
}

proof fn lemma_body(s: Seq<char>, width: nat, verbatim: bool)
    requires
        printable(s),
    ensures
        text::visible(strs::concat(threads::body(s, width, verbatim))) == text::visible(s),
{
    lemma_split(s);
    let pieces = strs::split_on(s, '\n');
    lemma_body_among(pieces, pieces.len(), width, verbatim);
    assert(pieces.take(pieces.len() as int) == pieces);
}

proof fn lemma_said_add(a: Seq<CommentLineV>, b: Seq<CommentLineV>, id: Seq<char>)
    ensures
        said(a + b, id) == said(a, id) + said(b, id),
    decreases b.len(),
{
    if b.len() == 0 {
        assert(a + b == a);
        assert(said(a, id) + said(b, id) == said(a, id));
    } else {
        lemma_said_add(a, b.drop_last(), id);
        assert((a + b).drop_last() == a + b.drop_last());
        assert((a + b).last() == b.last());
        match b.last().kind {
            CommentKindV::Body(s) => {
                assert(said(a, id) + said(b.drop_last(), id) + s == said(a, id) + (said(
                    b.drop_last(),
                    id,
                ) + s));
            },
            _ => {},
        }
    }
}

proof fn lemma_said_one(l: CommentLineV, id: Seq<char>)
    requires
        !(l.kind is Body),
    ensures
        said(seq![l], id) == Seq::<char>::empty(),
{
    assert(seq![l].drop_last() == Seq::<CommentLineV>::empty());
    assert(said(Seq::<CommentLineV>::empty(), id) == Seq::<char>::empty());
}

proof fn lemma_said_body(t: ThreadV, c: CommentV, lines: Seq<Seq<char>>, id: Seq<char>)
    ensures
        said(threads::content_body(t, c, lines), id) == if c.id == id {
            strs::concat(lines)
        } else {
            Seq::<char>::empty()
        },
    decreases lines.len(),
{
    let all = threads::content_body(t, c, lines);
    if lines.len() > 0 {
        lemma_said_body(t, c, lines.drop_last(), id);
        assert(all.drop_last() == threads::content_body(t, c, lines.drop_last()));
    }
}

proof fn lemma_said_message(t: ThreadV, i: int, width: nat, id: Seq<char>)
    requires
        0 <= i < t.comments.len(),
    ensures
        said(threads::message_lines(t, i, width), id) == if t.comments[i].id == id {
            strs::concat(threads::body(t.comments[i].body, width, false))
        } else {
            Seq::<char>::empty()
        },
{
    let c = t.comments[i];
    let lines = threads::body(c.body, width, false);
    let a = threads::content(
        t,
        c,
        CommentKindV::Author {
            name: threads::author_name(c.author),
            date: date::date_text(c.created_at as nat),
        },
    );
    let body = threads::content_body(t, c, lines);
    lemma_said_one(a, id);
    lemma_said_body(t, c, lines, id);
    lemma_said_add(seq![a], body, id);
    assert(Seq::<char>::empty() + said(body, id) == said(body, id));
    if i + 1 < t.comments.len() {
        let gap = threads::content(t, c, CommentKindV::Gap);
        lemma_said_one(gap, id);
        lemma_said_add(seq![a] + body, seq![gap], id);
        assert((seq![a] + body).push(gap) == seq![a] + body + seq![gap]);
        assert(said(body, id) + Seq::<char>::empty() == said(body, id));
    }
}

proof fn lemma_said_messages(t: ThreadV, n: nat, width: nat, i: int)
    requires
        n <= t.comments.len(),
        0 <= i < t.comments.len(),
        own_ids(t),
    ensures
        said(threads::messages_among(t, n, width), t.comments[i].id) == if i < n {
            strs::concat(threads::body(t.comments[i].body, width, false))
        } else {
            Seq::<char>::empty()
        },
    decreases n,
{
    if n > 0 {
        let id = t.comments[i].id;
        lemma_said_messages(t, (n - 1) as nat, width, i);
        lemma_said_message(t, n - 1, width, id);
        let before = threads::messages_among(t, (n - 1) as nat, width);
        let more = threads::message_lines(t, n - 1, width);
        lemma_said_add(before, more, id);
        if i < n - 1 {
            assert(t.comments[i].id != t.comments[n - 1].id);
        } else if i > n - 1 {
            assert(t.comments[n - 1].id != t.comments[i].id);
        }
        let x = said(before, id);
        let y = said(more, id);
        assert(x + Seq::<char>::empty() == x);
        assert(Seq::<char>::empty() + y == y);
    }
}

/// Every message says what its comment says: but for white space, the body lines that carry the
/// id of a comment spell the body of that comment, whichever of the thread's it is.
pub proof fn law_messages_say_their_comments(t: ThreadV, width: nat, i: int)
    requires
        own_ids(t),
        0 <= i < t.comments.len(),
        printable(t.comments[i].body),
    ensures
        text::visible(said(threads::thread_box(t, width), t.comments[i].id)) == text::visible(
            t.comments[i].body,
        ),
{
    lemma_said_box(t, width, i);
    lemma_body(t.comments[i].body, width, false);
}

proof fn lemma_said_box(t: ThreadV, width: nat, i: int)
    requires
        own_ids(t),
        0 <= i < t.comments.len(),
    ensures
        said(threads::thread_box(t, width), t.comments[i].id) == strs::concat(
            threads::body(t.comments[i].body, width, false),
        ),
{
    let id = t.comments[i].id;
    let top = threads::chrome(t, CommentKindV::Top);
    let head = threads::chrome(t, CommentKindV::Head { replies: t.comments.len() });
    let actions = threads::chrome(t, CommentKindV::Actions);
    let bottom = threads::chrome(t, CommentKindV::Bottom);
    let m = threads::messages_among(t, t.comments.len(), width);
    lemma_said_messages(t, t.comments.len(), width, i);
    let e = Seq::<char>::empty();
    lemma_said_one(top, id);
    lemma_said_one(head, id);
    lemma_said_one(actions, id);
    lemma_said_one(bottom, id);
    lemma_said_add(seq![top], seq![head], id);
    lemma_said_add(seq![actions], seq![bottom], id);
    assert(seq![top] + seq![head] == seq![top, head]);
    assert(seq![actions] + seq![bottom] == seq![actions, bottom]);
    assert(e + e == e);
    lemma_said_add(seq![top, head], m, id);
    lemma_said_add(seq![top, head] + m, seq![actions, bottom], id);
    assert(e + said(m, id) + e == said(m, id));
}

/// The row of the box that comment `i` starts at.
pub open spec fn message_at(t: ThreadV, i: nat, width: nat) -> int {
    2 + threads::messages_among(t, i, width).len() as int
}

proof fn lemma_messages_prefix(t: ThreadV, i: nat, n: nat, width: nat)
    requires
        i < n <= t.comments.len(),
    ensures
        ({
            let all = threads::messages_among(t, n, width);
            let before = threads::messages_among(t, i, width);
            let own = threads::message_lines(t, i as int, width);
            &&& before.len() + own.len() <= all.len()
            &&& all.subrange(before.len() as int, (before.len() + own.len()) as int) == own
        }),
    decreases n,
{
    let all = threads::messages_among(t, n, width);
    let before = threads::messages_among(t, i, width);
    let own = threads::message_lines(t, i as int, width);
    if i == n - 1 {
        assert(all == before + own);
    } else {
        lemma_messages_prefix(t, i, (n - 1) as nat, width);
        let mid = threads::messages_among(t, (n - 1) as nat, width);
        assert(all == mid + threads::message_lines(t, n - 1, width));
        assert(all.subrange(before.len() as int, (before.len() + own.len()) as int)
            == mid.subrange(before.len() as int, (before.len() + own.len()) as int));
    }
}

/// A thread's box has its messages one behind the other, each under the name of its author and
/// the date of its comment, between a head that counts them and the buttons, and all its lines
/// carry the id and the state of the thread.
pub proof fn law_messages_stand_in_order(t: ThreadV, width: nat, i: nat, k: int)
    requires
        i < t.comments.len(),
        0 <= k < threads::thread_box(t, width).len(),
    ensures
        ({
            let lines = threads::thread_box(t, width);
            let c = t.comments[i as int];
            let at = message_at(t, i, width);
            let end = message_at(t, i + 1, width);
            &&& lines[0].kind is Top
            &&& lines[1].kind == (CommentKindV::Head { replies: t.comments.len() })
            &&& lines[lines.len() - 2].kind is Actions
            &&& lines.last().kind is Bottom
            &&& message_at(t, 0, width) == 2
            &&& message_at(t, t.comments.len(), width) == lines.len() - 2
            &&& at < end <= lines.len() - 2
            &&& lines[at].kind == (CommentKindV::Author {
                name: match c.author {
                    Some(a) => a,
                    None => "?"@,
                },
                date: date::date_text(c.created_at as nat),
            })
            &&& at <= k < end ==> lines[k].comment_id == Some(c.id)
            &&& at < k < end - 1 ==> lines[k].kind is Body
            &&& k == end - 1 && i + 1 < t.comments.len() ==> lines[k].kind is Gap
            &&& k == end - 1 && i + 1 == t.comments.len() ==> lines[k].kind is Body || k == at
            &&& lines[k].thread_id == t.id
            &&& lines[k].resolved == t.resolved
        }),
{
    let n = t.comments.len();
    let lines = threads::thread_box(t, width);
    let m = threads::messages_among(t, n, width);
    lemma_messages_prefix(t, i, n, width);
    lemma_same_thread(t, n, width);
    let before = threads::messages_among(t, i, width);
    let own = threads::message_lines(t, i as int, width);
    assert(threads::messages_among(t, i + 1, width) == before + own);
    let at = message_at(t, i, width);
    assert forall|j: int| 0 <= j < own.len() implies lines[at + j] == #[trigger] own[j] by {
        assert(m.subrange(before.len() as int, (before.len() + own.len()) as int)[j] == own[j]);
        assert(lines[at + j] == m[before.len() + j]);
    }
    assert(lines[at + 0] == own[0]);
    if at <= k < at + own.len() {
        assert(lines[at + (k - at)] == own[k - at]);
    }
    if 2 <= k < lines.len() - 2 {
        assert(lines[k] == m[k - 2]);
    }
}

proof fn lemma_same_thread(t: ThreadV, n: nat, width: nat)
    requires
        n <= t.comments.len(),
    ensures
        forall|k: int|
            0 <= k < threads::messages_among(t, n, width).len() ==> (
            #[trigger] threads::messages_among(t, n, width)[k]).thread_id == t.id
                && threads::messages_among(t, n, width)[k].resolved == t.resolved,
    decreases n,
{
    if n > 0 {
        lemma_same_thread(t, (n - 1) as nat, width);
        let before = threads::messages_among(t, (n - 1) as nat, width);
        let all = threads::messages_among(t, n, width);
        assert forall|k: int| 0 <= k < all.len() implies (#[trigger] all[k]).thread_id == t.id
            && all[k].resolved == t.resolved by {
            if k < before.len() {
                assert(all[k] == before[k]);
            }
        }
    }
}

/// Whether a text is words with one space between any two of them, of characters that take
/// cells.
pub open spec fn plain_line(s: Seq<char>) -> bool {
    &&& forall|i: int| 0 <= i < s.len() ==> !strs::is_cc(#[trigger] s[i])
    &&& forall|i: int| 0 <= i < s.len() && strs::is_space(#[trigger] s[i]) ==> s[i] == ' '
    &&& forall|i: int|
        0 <= i < s.len() && !strs::is_space(#[trigger] s[i]) ==> text::cell(s[i]) >= 1
    &&& forall|i: int|
        0 < i < s.len() && strs::is_space(#[trigger] s[i]) ==> !strs::is_space(s[i - 1])
    &&& s.len() > 0 ==> !strs::is_space(s[0]) && !strs::is_space(s.last())
}

proof fn lemma_joined_push(words: Seq<Seq<char>>, w: Seq<char>)
    ensures
        strs::joined(words.push(w), ' ') == if words.len() == 0 {
            w
        } else {
            strs::joined(words, ' ').push(' ') + w
        },
{
    lemma_joined_among(words, words.push(w), words.len());
}

proof fn lemma_joined_among(a: Seq<Seq<char>>, b: Seq<Seq<char>>, n: nat)
    requires
        n <= a.len() <= b.len(),
        forall|i: int| 0 <= i < n ==> a[i] == b[i],
    ensures
        strs::joined_among(a, ' ', n) == strs::joined_among(b, ' ', n),
    decreases n,
{
    if n > 1 {
        lemma_joined_among(a, b, (n - 1) as nat);
    }
}

proof fn lemma_words_join(s: Seq<char>, n: nat)
    requires
        plain_line(s),
        n <= s.len(),
    ensures
        ({
            let (done, cur) = strs::words_acc(s.take(n as int));
            &&& cur.len() > 0 ==> strs::joined(done.push(cur), ' ') == s.take(n as int)
            &&& cur.len() == 0 && n > 0 ==> done.len() > 0 && strs::joined(done, ' ').push(' ')
                == s.take(n as int)
            &&& cur.len() == 0 && n == 0 ==> done.len() == 0
            &&& cur.len() == 0 <==> n == 0 || strs::is_space(s[n - 1])
            &&& forall|i: int| 0 <= i < done.len() ==> wide(#[trigger] done[i])
            &&& cur.len() > 0 ==> wide(cur)
        }),
    decreases n,
{
    let p = s.take(n as int);
    if n > 0 {
        lemma_words_join(s, (n - 1) as nat);
        assert(p.drop_last() == s.take(n - 1));
        let (done, cur) = strs::words_acc(s.take(n - 1));
        let c = s[n - 1];
        assert(p.last() == c);
        if !strs::is_space(c) {
            lemma_joined_push(done, cur.push(c));
            lemma_joined_push(done, cur);
            text::lemma_cells_push(cur, c);
            if cur.len() == 0 {
                assert(cur == Seq::<char>::empty());
                if n == 1 {
                    assert(cur.push(c) == p);
                } else {
                    assert(strs::joined(done, ' ').push(' ') + cur.push(c) == p);
                }
            } else if done.len() == 0 {
                assert(cur.push(c) == p);
            } else {
                assert(strs::joined(done, ' ').push(' ') + cur.push(c) == (strs::joined(
                    done,
                    ' ',
                ).push(' ') + cur).push(c));
                assert(s.take(n - 1).push(c) == p);
            }
            assert forall|i: int| 0 <= i < done.len() implies wide(#[trigger] done[i]) by {}
        } else {
            assert(n > 1);
            assert(!strs::is_space(s[n - 2]));
            assert(c == ' ');
            assert(s.take(n - 1).push(' ') == p);
        }
    } else {
        assert(p.len() == 0);
    }
}

/// Whether a word takes cells.
pub open spec fn wide(w: Seq<char>) -> bool {
    text::cells(w) > 0
}

proof fn lemma_overlong_fits(word: Seq<char>, n: nat, width: nat)
    requires
        n <= word.len(),
        text::cells(word) <= width,
    ensures
        text::overlong(
            word,
            n,
            width,
            (Wrap { out: Seq::empty(), line: Seq::empty(), w: 0 }),
        ) == (Wrap { out: Seq::empty(), line: word.take(n as int), w: text::cells(word.take(n as int)) }),
    decreases n,
{
    if n > 0 {
        lemma_overlong_fits(word, (n - 1) as nat, width);
        assert(word.take(n as int) == word.take(n - 1).push(word[n - 1]));
        text::lemma_cells_push(word.take(n - 1), word[n - 1]);
        assert(word == word.take(n as int) + word.skip(n as int));
        text::lemma_cells_add(word.take(n as int), word.skip(n as int));
    } else {
        assert(word.take(0) == Seq::<char>::empty());
    }
}

proof fn lemma_wrap_one(words: Seq<Seq<char>>, n: nat, width: nat)
    requires
        1 <= n <= words.len(),
        text::cell(' ') == 1,
        forall|i: int| 0 <= i < words.len() ==> wide(#[trigger] words[i]),
        text::cells(strs::joined_among(words, ' ', n)) <= width,
    ensures
        text::wrap_words(words, n, width) == (Wrap {
            out: Seq::empty(),
            line: strs::joined_among(words, ' ', n),
            w: text::cells(strs::joined_among(words, ' ', n)),
        }),
        text::cells(strs::joined_among(words, ' ', n)) > 0,
    decreases n,
{
    let w = words[n - 1];
    assert(wide(w));
    if n == 1 {
        lemma_overlong_fits(w, w.len(), width);
        assert(w.take(w.len() as int) == w);
        assert(text::wrap_words(words, 0, width) == (Wrap {
            out: Seq::empty(),
            line: Seq::empty(),
            w: 0,
        }));
    } else {
        let before = strs::joined_among(words, ' ', (n - 1) as nat);
        text::lemma_cells_push(before, ' ');
        text::lemma_cells_add(before.push(' '), w);
        lemma_wrap_one(words, (n - 1) as nat, width);
    }
}

proof fn lemma_plain_line(s: Seq<char>, width: nat)
    requires
        plain_line(s),
        s.len() > 0,
        text::cell(' ') == 1,
        text::cells(s) <= width,
    ensures
        text::wrapped(s, width) == seq![s],
        text::cells(s) > 0,
{
    lemma_words_join(s, s.len());
    assert(s.take(s.len() as int) == s);
    let (done, cur) = strs::words_acc(s);
    assert(cur.len() > 0);
    let words = strs::words(s);
    assert(words == done.push(cur));
    assert forall|i: int| 0 <= i < words.len() implies wide(#[trigger] words[i]) by {
        if i < done.len() {
            assert(words[i] == done[i]);
        }
    }
    assert(strs::joined(words, ' ') == s);
    text::lemma_cells_add(Seq::empty(), s);
    lemma_wrap_one(words, words.len(), width);
    assert(text::at_least_one(width) == width);
    assert(Seq::<Seq<char>>::empty().push(s) == seq![s]);
}

/// A message that fits is shown as it is: where the body of comment `i` is a line of words that
/// is not wider than the box, its author line is followed by one body line, which is that body.
/// (A space is one column wide: `char_width` says so.)
pub proof fn law_short_messages_are_one_line(t: ThreadV, width: nat, i: nat)
    requires
        i < t.comments.len(),
        text::cell(' ') == 1,
        plain_line(t.comments[i as int].body),
        text::cells(t.comments[i as int].body) <= width,
    ensures
        ({
            let lines = threads::thread_box(t, width);
            let at = message_at(t, i, width);
            &&& lines[at + 1].kind == CommentKindV::Body(t.comments[i as int].body)
            &&& lines[at + 1].comment_id == Some(t.comments[i as int].id)
            &&& !(lines[at + 2].kind is Body)
        }),
{
    let s = t.comments[i as int].body;
    let n = t.comments.len();
    lemma_no_break(s);
    text::law_sanitized_keeps_clean(s);
    let pieces = strs::split_on(s, '\n');
    assert(threads::body_among(pieces, 0, width, false) == Seq::<Seq<char>>::empty());
    if s.len() > 0 {
        lemma_plain_line(s, width);
    } else {
        assert(s == Seq::<char>::empty());
    }
    assert(threads::body(s, width, false) == Seq::<Seq<char>>::empty() + seq![s]);
    assert(Seq::<Seq<char>>::empty() + seq![s] == seq![s]);
    lemma_messages_prefix(t, i, n, width);
    let lines = threads::thread_box(t, width);
    let m = threads::messages_among(t, n, width);
    let before = threads::messages_among(t, i, width);
    let own = threads::message_lines(t, i as int, width);
    let at = message_at(t, i, width);
    assert(own.len() >= 2);
    assert(m.subrange(before.len() as int, (before.len() + own.len()) as int)[1] == own[1]);
    assert(lines[at + 1] == m[before.len() as int + 1]);
    if i + 1 < n {
        assert(m.subrange(before.len() as int, (before.len() + own.len()) as int)[2] == own[2]);
        assert(lines[at + 2] == m[before.len() as int + 2]);
    } else {
        assert(m.len() == before.len() + own.len());
        assert(lines[at + 2] == threads::chrome(t, CommentKindV::Actions));
    }
}

proof fn lemma_no_break(s: Seq<char>)
    requires
        text::no_control(s),
    ensures
        strs::split_on(s, '\n') == seq![s],
    decreases s.len(),
{
    if s.len() > 0 {
        let u = s.drop_last();
        assert forall|i: int| 0 <= i < u.len() implies !strs::is_cc(#[trigger] u[i]) by {
            assert(u[i] == s[i]);
        }
        lemma_no_break(u);
        assert(!strs::is_cc(s[s.len() - 1]));
        let r = seq![u];
        assert(r.drop_last().push(r.last().push(s.last())) == seq![s]) by {
            assert(u.push(s.last()) == s);
        }
    } else {
        assert(s == Seq::<char>::empty());
    }
}

} // verus!
