//! The session's output: the minimal set of review actions that turn the immutable input
//! store into the final one.
//!
//! The input is never written back. Instead the session ends with a compacted action log,
//! a delta that a consumer can replay against the same base. Compaction falls out of
//! comparing: a thread created and deleted in one session is in neither store, so it
//! produces no action; a resolve toggled back to its original state likewise cancels.
use super::model::{CommentStore, CommentV, LineRange, Thread, ThreadV};
use crate::comments::model;
use crate::diff::model::Side;
use crate::strs;
use vstd::prelude::*;

verus! {

/// One review action in the session output log.
#[derive(Debug, Clone, PartialEq, Eq)]
pub enum Action {
    /// A new thread's root comment, anchored to a diff line range. `line` is the thread's
    /// last line; `start_line` is present only for a multi-line range.
    AddComment {
        thread_id: String,
        file: String,
        side: Side,
        start_line: Option<u32>,
        line: u32,
        body: String,
        author: Option<String>,
    },
    /// A comment appended to an existing (or just-added) thread.
    Reply { thread_id: String, body: String, author: Option<String> },
    /// Marked a thread resolved.
    Resolve { thread_id: String },
    /// Marked a thread unresolved.
    Unresolve { thread_id: String },
}

/// What an [`Action`] says.
#[verifier::ext_equal]
pub enum ActionV {
    AddComment {
        thread_id: Seq<char>,
        file: Seq<char>,
        side: Side,
        start_line: Option<u32>,
        line: u32,
        body: Seq<char>,
        author: Option<Seq<char>>,
    },
    Reply { thread_id: Seq<char>, body: Seq<char>, author: Option<Seq<char>> },
    Resolve { thread_id: Seq<char> },
    Unresolve { thread_id: Seq<char> },
}

impl View for Action {
    type V = ActionV;

    open spec fn view(&self) -> ActionV {
        match *self {
            Action::AddComment { thread_id, file, side, start_line, line, body, author } =>
                ActionV::AddComment {
                    thread_id: thread_id@,
                    file: file@,
                    side,
                    start_line,
                    line,
                    body: body@,
                    author: strs::opt_view(author),
                },
            Action::Reply { thread_id, body, author } => ActionV::Reply {
                thread_id: thread_id@,
                body: body@,
                author: strs::opt_view(author),
            },
            Action::Resolve { thread_id } => ActionV::Resolve { thread_id: thread_id@ },
            Action::Unresolve { thread_id } => ActionV::Unresolve { thread_id: thread_id@ },
        }
    }
}

/// The reply that appends `c` to the thread.
pub open spec fn reply_action(thread_id: Seq<char>, c: CommentV) -> ActionV {
    ActionV::Reply { thread_id, body: c.body, author: c.author }
}

/// The first line of a range of several lines.
pub open spec fn start_line(r: LineRange) -> Option<u32> {
    if r.start != r.end {
        Some(r.start)
    } else {
        None
    }
}

/// The action that starts `t`, whose root is `c`.
pub open spec fn add_action(t: ThreadV, c: CommentV) -> ActionV {
    ActionV::AddComment {
        thread_id: t.id,
        file: t.file,
        side: t.side,
        start_line: start_line(t.range),
        line: t.range.end,
        body: c.body,
        author: c.author,
    }
}

/// The actions for the first `n` comments of a new thread: its root, then replies.
pub open spec fn added_comments(t: ThreadV, n: nat) -> Seq<ActionV>
    decreases n,
{
    if n == 0 {
        Seq::empty()
    } else if n == 1 {
        seq![add_action(t, t.comments[0])]
    } else {
        added_comments(t, (n - 1) as nat).push(reply_action(t.id, t.comments[n - 1]))
    }
}

/// The actions for a thread that is new relative to the base.
pub open spec fn added_thread(t: ThreadV) -> Seq<ActionV> {
    let a = added_comments(t, t.comments.len());
    if t.resolved {
        a.push(ActionV::Resolve { thread_id: t.id })
    } else {
        a
    }
}

/// The last of the first `n` threads whose id is `id`: the base thread that stands for it.
pub open spec fn base_among(base: Seq<ThreadV>, id: Seq<char>, n: nat) -> Option<int>
    decreases n,
{
    if n == 0 {
        None
    } else if base[n - 1].id == id {
        Some(n - 1)
    } else {
        base_among(base, id, (n - 1) as nat)
    }
}

/// The replies for those of the first `n` comments of `t` that `old` does not have, by id.
pub open spec fn new_replies(old_comments: Seq<CommentV>, t: ThreadV, n: nat) -> Seq<ActionV>
    decreases n,
{
    if n == 0 {
        Seq::empty()
    } else {
        let before = new_replies(old_comments, t, (n - 1) as nat);
        let c = t.comments[n - 1];
        if model::find_comment(old_comments, c.id) is None {
            before.push(reply_action(t.id, c))
        } else {
            before
        }
    }
}

/// The actions that turn the base thread `b` into `t`: new replies, then the net change of
/// the resolved state.
pub open spec fn changed_thread(b: ThreadV, t: ThreadV) -> Seq<ActionV> {
    let a = new_replies(b.comments, t, t.comments.len());
    if t.resolved == b.resolved {
        a
    } else if t.resolved {
        a.push(ActionV::Resolve { thread_id: t.id })
    } else {
        a.push(ActionV::Unresolve { thread_id: t.id })
    }
}

/// The actions for thread `t` of the final store.
pub open spec fn thread_actions(base: Seq<ThreadV>, t: ThreadV) -> Seq<ActionV> {
    match base_among(base, t.id, base.len()) {
        None => added_thread(t),
        Some(i) => changed_thread(base[i], t),
    }
}

/// The actions for the first `n` threads of the final store.
pub open spec fn log_among(base: Seq<ThreadV>, cur: Seq<ThreadV>, n: nat) -> Seq<ActionV>
    decreases n,
{
    if n == 0 {
        Seq::empty()
    } else {
        log_among(base, cur, (n - 1) as nat) + thread_actions(base, cur[n - 1])
    }
}

/// The action log that turns `base` into `cur`.
pub open spec fn log(base: Seq<ThreadV>, cur: Seq<ThreadV>) -> Seq<ActionV> {
    log_among(base, cur, cur.len())
}

/// Emit the actions for a thread that is new relative to the base.
fn added_thread_actions(t: &Thread, out: &mut Vec<Action>)
    ensures
        strs::views(final(out)@) == strs::views(old(out)@) + added_thread(t@),
{
    broadcast use strs::lemma_views_push;

    let ghost o = strs::views(out@);
    let ghost v = t@;
    let mut i: usize = 0;
    assert(o + added_comments(v, 0) == o);
    while i < t.comments.len()
        invariant
            v == t@,
            0 <= i <= t.comments.len(),
            strs::views(out@) == o + added_comments(v, i as nat),
        decreases t.comments.len() - i,
    {
        let c = &t.comments[i];
        assert(c@ == v.comments[i as int]);
        let ghost before = strs::views(out@);
        if i == 0 {
            let start_line: Option<u32> = if t.range.start != t.range.end {
                Some(t.range.start)
            } else {
                None
            };
            out.push(
                Action::AddComment {
                    thread_id: t.id.clone(),
                    file: t.file.clone(),
                    side: t.side,
                    start_line,
                    line: t.range.end,
                    body: c.body.clone(),
                    author: strs::clone_opt(&c.author),
                },
            );
            assert(before.push(add_action(v, c@)) == o + added_comments(v, 1));
        } else {
            out.push(
                Action::Reply {
                    thread_id: t.id.clone(),
                    body: c.body.clone(),
                    author: strs::clone_opt(&c.author),
                },
            );
            assert(before.push(reply_action(v.id, c@)) == o + added_comments(v, i as nat + 1));
        }
        i += 1;
    }
    if t.resolved {
        out.push(Action::Resolve { thread_id: t.id.clone() });
    }
    assert(strs::views(out@) == o + added_thread(v));
}

/// The base thread that stands for `id`.
fn base_thread<'a>(base: &'a CommentStore, id: &str) -> (r: Option<&'a Thread>)
    ensures
        match r {
            Some(t) => base_among(base@, id@, base@.len()) matches Some(i) && t@ == base@[i],
            None => base_among(base@, id@, base@.len()) is None,
        },
{
    let mut i: usize = base.threads.len();
    while i > 0
        invariant
            i <= base.threads.len(),
            base_among(base@, id@, base@.len()) == base_among(base@, id@, i as nat),
        decreases i,
    {
        assert(base.threads@[i - 1]@ == base@[i - 1]);
        if strs::same_text(base.threads[i - 1].id.as_str(), id) {
            return Some(&base.threads[i - 1]);
        }
        i -= 1;
    }
    None
}

/// The minimal action log transforming `base` into `cur`.
///
/// Threads are matched by their id. For the log to be replayable against the base, the base
/// must carry stable thread ids. There is no delete action: base threads are immutable in
/// the interface, so a base thread is never absent from `cur`.
pub fn diff(base: &CommentStore, cur: &CommentStore) -> (out: Vec<Action>)
    ensures
        strs::views(out@) == log(base@, cur@),
{
    broadcast use strs::lemma_views_push;

    let mut out: Vec<Action> = Vec::new();
    let mut i: usize = 0;
    assert(strs::views(out@) == Seq::<ActionV>::empty());
    while i < cur.threads.len()
        invariant
            0 <= i <= cur.threads.len(),
            strs::views(out@) == log_among(base@, cur@, i as nat),
        decreases cur.threads.len() - i,
    {
        let t = &cur.threads[i];
        let ghost v = t@;
        assert(v == cur@[i as int]);
        let ghost o = strs::views(out@);
        match base_thread(base, t.id.as_str()) {
            None => added_thread_actions(t, &mut out),
            Some(b) => {
                let mut j: usize = 0;
                assert(o + new_replies(b@.comments, v, 0) == o);
                while j < t.comments.len()
                    invariant
                        v == t@,
                        0 <= j <= t.comments.len(),
                        strs::views(out@) == o + new_replies(b@.comments, v, j as nat),
                    decreases t.comments.len() - j,
                {
                    let c = &t.comments[j];
                    assert(c@ == v.comments[j as int]);
                    let ghost before = strs::views(out@);
                    if b.position(c.id.as_str()).is_none() {
                        out.push(
                            Action::Reply {
                                thread_id: t.id.clone(),
                                body: c.body.clone(),
                                author: strs::clone_opt(&c.author),
                            },
                        );
                        assert(before.push(reply_action(v.id, c@)) == o + new_replies(
                            b@.comments,
                            v,
                            j as nat + 1,
                        ));
                    }
                    j += 1;
                }
                let ghost mid = strs::views(out@);
                let ghost a = new_replies(b@.comments, v, v.comments.len());
                assert(mid == o + a);
                if t.resolved != b.resolved {
                    if t.resolved {
                        out.push(Action::Resolve { thread_id: t.id.clone() });
                    } else {
                        out.push(Action::Unresolve { thread_id: t.id.clone() });
                    }
                }
                assert(mid.push(ActionV::Resolve { thread_id: v.id }) == o + a.push(
                    ActionV::Resolve { thread_id: v.id },
                ));
                assert(mid.push(ActionV::Unresolve { thread_id: v.id }) == o + a.push(
                    ActionV::Unresolve { thread_id: v.id },
                ));
                assert(strs::views(out@) == o + changed_thread(b@, v));
            },
        }
        i += 1;
    }
    out
}

/// What a consumer of the log keeps of a thread: its anchor, its state, and who said what.
#[verifier::ext_equal]
pub struct ReviewV {
    pub id: Seq<char>,
    pub file: Seq<char>,
    pub side: Side,
    pub range: LineRange,
    pub resolved: bool,
    pub messages: Seq<(Option<Seq<char>>, Seq<char>)>,
}

/// Who said what in a comment.
pub open spec fn message(c: CommentV) -> (Option<Seq<char>>, Seq<char>) {
    (c.author, c.body)
}

/// A thread as a consumer of the log keeps it.
pub open spec fn review(t: ThreadV) -> ReviewV {
    ReviewV {
        id: t.id,
        file: t.file,
        side: t.side,
        range: t.range,
        resolved: t.resolved,
        messages: Seq::new(t.comments.len(), |i: int| message(t.comments[i])),
    }
}

/// A store as a consumer of the log keeps it.
pub open spec fn reviews(s: Seq<ThreadV>) -> Seq<ReviewV> {
    Seq::new(s.len(), |i: int| review(s[i]))
}

/// One action, replayed.
pub open spec fn apply(s: Seq<ReviewV>, a: ActionV) -> Seq<ReviewV> {
    match a {
        ActionV::AddComment { thread_id, file, side, start_line, line, body, author } => s.push(
            ReviewV {
                id: thread_id,
                file,
                side,
                range: LineRange {
                    start: match start_line {
                        Some(l) => l,
                        None => line,
                    },
                    end: line,
                },
                resolved: false,
                messages: seq![(author, body)],
            },
        ),
        ActionV::Reply { thread_id, body, author } => Seq::new(
            s.len(),
            |i: int|
                if s[i].id == thread_id {
                    ReviewV { messages: s[i].messages.push((author, body)), ..s[i] }
                } else {
                    s[i]
                },
        ),
        ActionV::Resolve { thread_id } => set_resolved(s, thread_id, true),
        ActionV::Unresolve { thread_id } => set_resolved(s, thread_id, false),
    }
}

/// The resolved state of a thread, set.
pub open spec fn set_resolved(s: Seq<ReviewV>, id: Seq<char>, resolved: bool) -> Seq<ReviewV> {
    Seq::new(
        s.len(),
        |i: int|
            if s[i].id == id {
                ReviewV { resolved, ..s[i] }
            } else {
                s[i]
            },
    )
}

/// A log replayed against `s`.
pub open spec fn replay(s: Seq<ReviewV>, a: Seq<ActionV>) -> Seq<ReviewV>
    decreases a.len(),
{
    if a.len() == 0 {
        s
    } else {
        apply(replay(s, a.drop_last()), a.last())
    }
}

/// No two threads share an id.
pub open spec fn distinct_ids(s: Seq<ThreadV>) -> bool {
    forall|i: int, j: int| 0 <= i < j < s.len() ==> #[trigger] s[i].id != #[trigger] s[j].id
}

/// `t` is the base thread `b` with nothing but new replies and another resolved state.
pub open spec fn grown(b: ThreadV, t: ThreadV) -> bool {
    &&& t.id == b.id
    &&& t.file == b.file
    &&& t.side == b.side
    &&& t.range == b.range
    &&& b.comments.len() <= t.comments.len()
    &&& t.comments.take(b.comments.len() as int) == b.comments
    &&& forall|j: int|
        b.comments.len() <= j < t.comments.len() ==> model::find_comment(
            b.comments,
            #[trigger] t.comments[j].id,
        ) is None
}

/// `cur` is what a session makes of `base`: the base threads, grown, and then new threads
/// that have a root comment each.
pub open spec fn session(base: Seq<ThreadV>, cur: Seq<ThreadV>) -> bool {
    &&& distinct_ids(cur)
    &&& base.len() <= cur.len()
    &&& forall|i: int| 0 <= i < base.len() ==> grown(base[i], #[trigger] cur[i])
    &&& forall|i: int| base.len() <= i < cur.len() ==> #[trigger] cur[i].comments.len() > 0
}

proof fn lemma_replay_add(s: Seq<ReviewV>, a: Seq<ActionV>, b: Seq<ActionV>)
    ensures
        replay(s, a + b) == replay(replay(s, a), b),
    decreases b.len(),
{
    if b.len() == 0 {
        assert(a + b == a);
    } else {
        lemma_replay_add(s, a, b.drop_last());
        assert((a + b).drop_last() == a + b.drop_last());
        assert((a + b).last() == b.last());
    }
}

proof fn lemma_replay_push(s: Seq<ReviewV>, a: Seq<ActionV>, x: ActionV)
    ensures
        replay(s, a.push(x)) == apply(replay(s, a), x),
{
    assert(a.push(x).drop_last() == a);
}

proof fn lemma_base_among(base: Seq<ThreadV>, id: Seq<char>, n: nat)
    requires
        n <= base.len(),
    ensures
        match base_among(base, id, n) {
            Some(i) => 0 <= i < n && base[i].id == id,
            None => forall|j: int| 0 <= j < n ==> #[trigger] base[j].id != id,
        },
    decreases n,
{
    if n > 0 {
        lemma_base_among(base, id, (n - 1) as nat);
    }
}

/// Only thread `i` of `s` has the id `id`.
spec fn only_at(s: Seq<ReviewV>, id: Seq<char>, i: int) -> bool {
    0 <= i < s.len() && forall|j: int| 0 <= j < s.len() ==> (#[trigger] s[j].id == id <==> j == i)
}

proof fn lemma_new_replies(s: Seq<ReviewV>, i: int, b: ThreadV, t: ThreadV, n: nat)
    requires
        only_at(s, t.id, i),
        grown(b, t),
        n <= t.comments.len(),
        s[i] == review(b),
    ensures
        ({
            let r = replay(s, new_replies(b.comments, t, n));
            let k = if n < b.comments.len() {
                b.comments.len()
            } else {
                n
            };
            r == s.update(
                i,
                ReviewV {
                    messages: Seq::new(k, |j: int| message(t.comments[j])),
                    ..s[i]
                },
            )
        }),
    decreases n,
{
    let k = if n < b.comments.len() {
        b.comments.len()
    } else {
        n
    };
    assert forall|j: int| 0 <= j < b.comments.len() implies #[trigger] t.comments[j]
        == b.comments[j] by {
        assert(t.comments.take(b.comments.len() as int)[j] == t.comments[j]);
    }
    if n == 0 {
        assert(review(b).messages =~= Seq::new(k, |j: int| message(t.comments[j])));
        assert(s =~= s.update(
            i,
            ReviewV { messages: Seq::new(k, |j: int| message(t.comments[j])), ..s[i] },
        ));
    } else {
        lemma_new_replies(s, i, b, t, (n - 1) as nat);
        let c = t.comments[n - 1];
        let before = new_replies(b.comments, t, (n - 1) as nat);
        if n - 1 < b.comments.len() {
            model::lemma_find_comment(b.comments, c.id, b.comments.len());
            assert(b.comments[n - 1].id == c.id);
        } else {
            lemma_replay_push(s, before, reply_action(t.id, c));
            let r0 = replay(s, before);
            assert(r0[i].messages.push(message(c)) =~= Seq::new(
                k,
                |j: int| message(t.comments[j]),
            ));
            assert(apply(r0, reply_action(t.id, c)) =~= s.update(
                i,
                ReviewV { messages: Seq::new(k, |j: int| message(t.comments[j])), ..s[i] },
            ));
        }
    }
}

proof fn lemma_changed(s: Seq<ReviewV>, i: int, b: ThreadV, t: ThreadV)
    requires
        only_at(s, t.id, i),
        grown(b, t),
        s[i] == review(b),
    ensures
        replay(s, changed_thread(b, t)) == s.update(i, review(t)),
{
    let a = new_replies(b.comments, t, t.comments.len());
    lemma_new_replies(s, i, b, t, t.comments.len());
    let r = replay(s, a);
    assert(r[i].messages =~= review(t).messages);
    if t.resolved == b.resolved {
        assert(r =~= s.update(i, review(t)));
    } else {
        lemma_replay_push(s, a, ActionV::Resolve { thread_id: t.id });
        lemma_replay_push(s, a, ActionV::Unresolve { thread_id: t.id });
        assert(set_resolved(r, t.id, t.resolved) =~= s.update(i, review(t)));
    }
}

proof fn lemma_added_comments(s: Seq<ReviewV>, t: ThreadV, n: nat)
    requires
        1 <= n <= t.comments.len(),
        forall|j: int| 0 <= j < s.len() ==> #[trigger] s[j].id != t.id,
    ensures
        replay(s, added_comments(t, n)) == s.push(
            ReviewV {
                resolved: false,
                messages: Seq::new(n, |j: int| message(t.comments[j])),
                ..review(t)
            },
        ),
    decreases n,
{
    if n == 1 {
        let a = add_action(t, t.comments[0]);
        lemma_replay_push(s, Seq::empty(), a);
        assert(Seq::<ActionV>::empty().push(a) == seq![a]);
        assert(seq![message(t.comments[0])] =~= Seq::new(1, |j: int| message(t.comments[j])));
    } else {
        lemma_added_comments(s, t, (n - 1) as nat);
        let c = t.comments[n - 1];
        let before = added_comments(t, (n - 1) as nat);
        lemma_replay_push(s, before, reply_action(t.id, c));
        let r0 = replay(s, before);
        assert(r0.last().messages.push(message(c)) =~= Seq::new(n, |j: int| message(t.comments[j])));
        assert(apply(r0, reply_action(t.id, c)) =~= s.push(
            ReviewV {
                resolved: false,
                messages: Seq::new(n, |j: int| message(t.comments[j])),
                ..review(t)
            },
        ));
    }
}

proof fn lemma_added(s: Seq<ReviewV>, t: ThreadV)
    requires
        t.comments.len() > 0,
        forall|j: int| 0 <= j < s.len() ==> #[trigger] s[j].id != t.id,
    ensures
        replay(s, added_thread(t)) == s.push(review(t)),
{
    let a = added_comments(t, t.comments.len());
    lemma_added_comments(s, t, t.comments.len());
    let r = replay(s, a);
    assert(r.last().messages =~= review(t).messages);
    if t.resolved {
        lemma_replay_push(s, a, ActionV::Resolve { thread_id: t.id });
        assert(set_resolved(r, t.id, true) =~= s.push(review(t)));
    } else {
        assert(r =~= s.push(review(t)));
    }
}

proof fn lemma_base_of(base: Seq<ThreadV>, cur: Seq<ThreadV>, i: int)
    requires
        session(base, cur),
        0 <= i < cur.len(),
    ensures
        base_among(base, cur[i].id, base.len()) == if i < base.len() {
            Some(i)
        } else {
            None
        },
{
    lemma_base_among(base, cur[i].id, base.len());
    if i < base.len() {
        assert(grown(base[i], cur[i]));
        assert(base[i].id == cur[i].id);
    }
    match base_among(base, cur[i].id, base.len()) {
        Some(k) => {
            assert(grown(base[k], cur[k]));
            assert(cur[k].id == cur[i].id);
        },
        None => {},
    }
}

/// The final reviews of the first `n` threads, and the base's of those behind them.
spec fn half_way(base: Seq<ThreadV>, cur: Seq<ThreadV>, n: nat) -> Seq<ReviewV> {
    Seq::new(
        if n < base.len() {
            base.len()
        } else {
            n
        },
        |i: int|
            if i < n {
                review(cur[i])
            } else {
                review(base[i])
            },
    )
}

proof fn lemma_replay_among(base: Seq<ThreadV>, cur: Seq<ThreadV>, n: nat)
    requires
        session(base, cur),
        n <= cur.len(),
    ensures
        replay(reviews(base), log_among(base, cur, n)) == half_way(base, cur, n),
    decreases n,
{
    if n == 0 {
        assert(half_way(base, cur, 0) =~= reviews(base));
    } else {
        lemma_replay_among(base, cur, (n - 1) as nat);
        let i = n - 1;
        let t = cur[i];
        let s = half_way(base, cur, (n - 1) as nat);
        lemma_replay_add(
            reviews(base),
            log_among(base, cur, (n - 1) as nat),
            thread_actions(base, t),
        );
        lemma_base_of(base, cur, i);
        if i < base.len() {
            assert(grown(base[i], cur[i]));
            assert(only_at(s, t.id, i)) by {
                assert forall|j: int| 0 <= j < s.len() implies (#[trigger] s[j].id == t.id <==> j
                    == i) by {
                    if j < base.len() {
                        assert(grown(base[j], cur[j]));
                    }
                }
            }
            lemma_changed(s, i, base[i], t);
            assert(s.update(i, review(t)) =~= half_way(base, cur, n));
        } else {
            assert forall|j: int| 0 <= j < s.len() implies #[trigger] s[j].id != t.id by {
                if j < base.len() {
                    assert(grown(base[j], cur[j]));
                }
                assert(cur[j].id != cur[i].id);
            }
            lemma_added(s, t);
            assert(s.push(review(t)) =~= half_way(base, cur, n));
        }
    }
}

/// The log is what it is for: replayed against the base, it gives the reviewed state, for
/// every store that a session can make of the base.
pub proof fn law_replay_gives_final_state(base: Seq<ThreadV>, cur: Seq<ThreadV>)
    requires
        session(base, cur),
    ensures
        replay(reviews(base), log(base, cur)) == reviews(cur),
{
    lemma_replay_among(base, cur, cur.len());
    assert(half_way(base, cur, cur.len()) =~= reviews(cur));
}

/// How many messages thread `i` of `r` has that `s` lacks, and one more where its resolved
/// state differs.
spec fn gap_at(s: Seq<ReviewV>, r: Seq<ReviewV>, i: int) -> int {
    let said = if i < s.len() {
        s[i].messages.len() as int
    } else {
        0
    };
    let resolved = i < s.len() && s[i].resolved;
    r[i].messages.len() - said + if r[i].resolved != resolved {
        1int
    } else {
        0int
    }
}

/// How far the first `n` threads of `r` are from `s`.
spec fn gap(s: Seq<ReviewV>, r: Seq<ReviewV>, n: nat) -> int
    decreases n,
{
    if n == 0 {
        0
    } else {
        gap(s, r, (n - 1) as nat) + gap_at(s, r, n - 1)
    }
}

/// The threads of `s` are the first ones of `r`, by their ids.
spec fn on_the_way(s: Seq<ReviewV>, r: Seq<ReviewV>) -> bool {
    s.len() <= r.len() && forall|i: int| 0 <= i < s.len() ==> #[trigger] s[i].id == r[i].id
}

/// No two threads of `r` share an id.
spec fn told_apart(r: Seq<ReviewV>) -> bool {
    forall|i: int, j: int| 0 <= i < j < r.len() ==> #[trigger] r[i].id != #[trigger] r[j].id
}

proof fn lemma_gap_one(s: Seq<ReviewV>, s1: Seq<ReviewV>, r: Seq<ReviewV>, k: int, n: nat)
    requires
        forall|i: int| 0 <= i < n && i != k ==> #[trigger] gap_at(s, r, i) == gap_at(s1, r, i),
        0 <= k < n ==> gap_at(s, r, k) <= gap_at(s1, r, k) + 1,
    ensures
        gap(s, r, n) <= gap(s1, r, n) + if 0 <= k < n {
            1int
        } else {
            0int
        },
    decreases n,
{
    if n > 0 {
        lemma_gap_one(s, s1, r, k, (n - 1) as nat);
        if n - 1 != k {
            assert(gap_at(s, r, n - 1) == gap_at(s1, r, n - 1));
        }
    }
}

proof fn lemma_gap_apply(s: Seq<ReviewV>, x: ActionV, r: Seq<ReviewV>, n: nat)
    requires
        told_apart(r),
        on_the_way(apply(s, x), r),
        n <= r.len(),
    ensures
        on_the_way(s, r),
        gap(s, r, n) <= gap(apply(s, x), r, n) + 1,
{
    let s1 = apply(s, x);
    assert forall|i: int| 0 <= i < s.len() implies #[trigger] s[i].id == r[i].id by {
        assert(s1[i].id == s[i].id);
    }
    let id = match x {
        ActionV::AddComment { thread_id, .. } => thread_id,
        ActionV::Reply { thread_id, .. } => thread_id,
        ActionV::Resolve { thread_id } => thread_id,
        ActionV::Unresolve { thread_id } => thread_id,
    };
    let k = if x is AddComment {
        s.len() as int
    } else if exists|i: int| 0 <= i < s.len() && #[trigger] s[i].id == id {
        choose|i: int| 0 <= i < s.len() && #[trigger] s[i].id == id
    } else {
        -1
    };
    assert forall|i: int| 0 <= i < n && i != k implies #[trigger] gap_at(s, r, i) == gap_at(
        s1,
        r,
        i,
    ) by {
        if i < s.len() && x !is AddComment {
            if s[i].id == id {
                assert(s[k].id == id);
                assert(r[i].id == r[k].id);
            }
            assert(s1[i] == s[i]);
        }
    }
    lemma_gap_one(s, s1, r, k, n);
}

proof fn lemma_gap_replay(s: Seq<ReviewV>, a: Seq<ActionV>, r: Seq<ReviewV>, n: nat)
    requires
        told_apart(r),
        on_the_way(replay(s, a), r),
        n <= r.len(),
    ensures
        gap(s, r, n) <= gap(replay(s, a), r, n) + a.len(),
    decreases a.len(),
{
    if a.len() > 0 {
        lemma_gap_apply(replay(s, a.drop_last()), a.last(), r, n);
        lemma_gap_replay(s, a.drop_last(), r, n);
    }
}

proof fn lemma_no_gap(r: Seq<ReviewV>, n: nat)
    requires
        n <= r.len(),
    ensures
        gap(r, r, n) == 0,
    decreases n,
{
    if n > 0 {
        lemma_no_gap(r, (n - 1) as nat);
    }
}

proof fn lemma_new_replies_len(b: ThreadV, t: ThreadV, n: nat)
    requires
        grown(b, t),
        n <= t.comments.len(),
    ensures
        new_replies(b.comments, t, n).len() == if n < b.comments.len() {
            0
        } else {
            n - b.comments.len()
        },
    decreases n,
{
    if n > 0 {
        lemma_new_replies_len(b, t, (n - 1) as nat);
        if n - 1 < b.comments.len() {
            assert(t.comments.take(b.comments.len() as int)[n - 1] == t.comments[n - 1]);
            model::lemma_find_comment(b.comments, t.comments[n - 1].id, b.comments.len());
        }
    }
}

proof fn lemma_log_fills_gap(base: Seq<ThreadV>, cur: Seq<ThreadV>, n: nat)
    requires
        session(base, cur),
        n <= cur.len(),
    ensures
        log_among(base, cur, n).len() == gap(reviews(base), reviews(cur), n),
    decreases n,
{
    if n > 0 {
        let i = n - 1;
        let t = cur[i];
        lemma_log_fills_gap(base, cur, (n - 1) as nat);
        lemma_base_of(base, cur, i);
        if i < base.len() {
            assert(grown(base[i], cur[i]));
            lemma_new_replies_len(base[i], t, t.comments.len());
        } else {
            lemma_added_comments_about(t, t.comments.len());
        }
    }
}

/// The log is minimal: no log that gives the reviewed state, replayed against the base, is
/// shorter.
pub proof fn law_log_is_minimal(base: Seq<ThreadV>, cur: Seq<ThreadV>, other: Seq<ActionV>)
    requires
        session(base, cur),
        replay(reviews(base), other) == reviews(cur),
    ensures
        log(base, cur).len() <= other.len(),
{
    let r = reviews(cur);
    assert forall|i: int, j: int| 0 <= i < j < r.len() implies #[trigger] r[i].id
        != #[trigger] r[j].id by {
        assert(cur[i].id != cur[j].id);
    }
    lemma_log_fills_gap(base, cur, cur.len());
    lemma_gap_replay(reviews(base), other, r, cur.len());
    lemma_no_gap(r, cur.len());
}

/// The thread that an action is about.
pub open spec fn subject(a: ActionV) -> Seq<char> {
    match a {
        ActionV::AddComment { thread_id, .. } => thread_id,
        ActionV::Reply { thread_id, .. } => thread_id,
        ActionV::Resolve { thread_id } => thread_id,
        ActionV::Unresolve { thread_id } => thread_id,
    }
}

/// Whether `base` has a thread `id`, or one of the actions in front of `p` starts it.
pub open spec fn known(base: Seq<ThreadV>, a: Seq<ActionV>, id: Seq<char>, p: int) -> bool {
    ||| exists|i: int| 0 <= i < base.len() && #[trigger] base[i].id == id
    ||| exists|q: int| 0 <= q < p && (#[trigger] a[q]) is AddComment && subject(a[q]) == id
}

proof fn lemma_new_replies_about(b: ThreadV, t: ThreadV, n: nat)
    requires
        n <= t.comments.len(),
    ensures
        forall|p: int|
            0 <= p < new_replies(b.comments, t, n).len() ==> subject(
                #[trigger] new_replies(b.comments, t, n)[p],
            ) == t.id,
    decreases n,
{
    if n > 0 {
        lemma_new_replies_about(b, t, (n - 1) as nat);
        let before = new_replies(b.comments, t, (n - 1) as nat);
        let all = new_replies(b.comments, t, n);
        assert forall|p: int| 0 <= p < all.len() implies subject(#[trigger] all[p]) == t.id by {
            if p < before.len() {
                assert(all[p] == before[p]);
            }
        }
    }
}

proof fn lemma_added_comments_about(t: ThreadV, n: nat)
    requires
        1 <= n,
    ensures
        added_comments(t, n).len() == n,
        added_comments(t, n)[0] is AddComment,
        forall|p: int|
            0 <= p < n ==> subject(#[trigger] added_comments(t, n)[p]) == t.id,
    decreases n,
{
    if n > 1 {
        lemma_added_comments_about(t, (n - 1) as nat);
    }
}

proof fn lemma_log_known(base: Seq<ThreadV>, cur: Seq<ThreadV>, n: nat)
    requires
        session(base, cur),
        n <= cur.len(),
    ensures
        ({
            let a = log_among(base, cur, n);
            forall|p: int|
                0 <= p < a.len() && (#[trigger] a[p]) !is AddComment ==> known(
                    base,
                    a,
                    subject(a[p]),
                    p,
                )
        }),
    decreases n,
{
    if n > 0 {
        let i = n - 1;
        let t = cur[i];
        let front = log_among(base, cur, (n - 1) as nat);
        let own = thread_actions(base, t);
        let a = front + own;
        lemma_log_known(base, cur, (n - 1) as nat);
        lemma_base_of(base, cur, i);
        if i < base.len() {
            assert(grown(base[i], cur[i]));
            lemma_new_replies_about(base[i], t, t.comments.len());
        } else {
            lemma_added_comments_about(t, t.comments.len());
        }
        assert forall|p: int| 0 <= p < a.len() && (#[trigger] a[p]) !is AddComment implies known(
            base,
            a,
            subject(a[p]),
            p,
        ) by {
            if p < front.len() {
                assert(a[p] == front[p]);
                assert(known(base, front, subject(front[p]), p));
                if !(exists|k: int| 0 <= k < base.len() && #[trigger] base[k].id == subject(a[p])) {
                    let q = choose|q: int|
                        0 <= q < p && (#[trigger] front[q]) is AddComment && subject(front[q])
                            == subject(front[p]);
                    assert(a[q] == front[q]);
                }
            } else {
                assert(a[p] == own[p - front.len()]);
                assert(subject(a[p]) == t.id);
                if i < base.len() {
                    assert(base[i].id == t.id);
                } else {
                    assert(a[front.len() as int] == own[0]);
                }
            }
        }
    }
}

/// Replies and changes of state are about threads that a consumer knows: each refers to a
/// thread of the base, or to one that an earlier action of the log starts.
pub proof fn law_log_refers_to_known_threads(base: Seq<ThreadV>, cur: Seq<ThreadV>, p: int)
    requires
        session(base, cur),
        0 <= p < log(base, cur).len(),
        log(base, cur)[p] !is AddComment,
    ensures
        known(base, log(base, cur), subject(log(base, cur)[p]), p),
{
    lemma_log_known(base, cur, cur.len());
}

/// An untouched session leaves an empty log.
pub proof fn law_untouched_session_logs_nothing(base: Seq<ThreadV>)
    requires
        distinct_ids(base),
    ensures
        session(base, base),
        log(base, base) == Seq::<ActionV>::empty(),
{
    assert forall|i: int| 0 <= i < base.len() implies grown(base[i], #[trigger] base[i]) by {
        assert(base[i].comments.take(base[i].comments.len() as int) == base[i].comments);
    }
    lemma_untouched(base, base, base.len());
}

/// `cur` holds base threads only, each with the base's comments and resolved state.
spec fn unchanged(base: Seq<ThreadV>, cur: Seq<ThreadV>) -> bool {
    &&& distinct_ids(base)
    &&& cur.len() <= base.len()
    &&& forall|i: int| 0 <= i < cur.len() ==> #[trigger] cur[i] == base[i]
}

proof fn lemma_untouched(base: Seq<ThreadV>, cur: Seq<ThreadV>, n: nat)
    requires
        unchanged(base, cur),
        n <= cur.len(),
    ensures
        log_among(base, cur, n) == Seq::<ActionV>::empty(),
    decreases n,
{
    if n > 0 {
        lemma_untouched(base, cur, (n - 1) as nat);
        let t = cur[n - 1];
        lemma_base_among(base, t.id, base.len());
        assert(base[n - 1].id == t.id);
        lemma_no_replies(t, t.comments.len());
        assert(Seq::<ActionV>::empty() + thread_actions(base, t) =~= Seq::<ActionV>::empty());
    }
}

proof fn lemma_no_replies(t: ThreadV, n: nat)
    requires
        n <= t.comments.len(),
    ensures
        new_replies(t.comments, t, n) == Seq::<ActionV>::empty(),
    decreases n,
{
    if n > 0 {
        lemma_no_replies(t, (n - 1) as nat);
        model::lemma_find_comment(t.comments, t.comments[n - 1].id, t.comments.len());
    }
}

/// The id of the new thread is not in use.
pub open spec fn fresh_thread(s: Seq<ThreadV>, id: Seq<char>) -> bool {
    forall|i: int| 0 <= i < s.len() ==> #[trigger] s[i].id != id
}

/// Starting a thread under a fresh id keeps the store one that a session can make.
pub proof fn law_add_thread_keeps_session(base: Seq<ThreadV>, cur: Seq<ThreadV>, t: ThreadV)
    requires
        session(base, cur),
        fresh_thread(cur, t.id),
        t.comments.len() > 0,
    ensures
        session(base, cur.push(t)),
{
    let c2 = cur.push(t);
    assert forall|i: int| 0 <= i < base.len() implies grown(base[i], #[trigger] c2[i]) by {
        assert(grown(base[i], cur[i]));
    }
    assert forall|i: int| base.len() <= i < c2.len() implies #[trigger] c2[i].comments.len() > 0 by {
        if i < cur.len() {
            assert(cur[i].comments.len() > 0);
        }
    }
}

/// Replying to a thread under a comment id that the thread does not have keeps the store one
/// that a session can make.
pub proof fn law_reply_keeps_session(
    base: Seq<ThreadV>,
    cur: Seq<ThreadV>,
    thread_id: Seq<char>,
    c: CommentV,
)
    requires
        session(base, cur),
        model::find(cur, thread_id) matches Some(i) && model::find_comment(
            cur[i].comments,
            c.id,
        ) is None,
    ensures
        ({
            let i = model::find(cur, thread_id)->0;
            session(base, cur.update(i, model::with_comment(cur[i], c)))
        }),
{
    let i = model::find(cur, thread_id)->0;
    model::lemma_find(cur, thread_id, cur.len());
    let t2 = model::with_comment(cur[i], c);
    let c2 = cur.update(i, t2);
    model::lemma_find_comment(cur[i].comments, c.id, cur[i].comments.len());
    assert forall|k: int| 0 <= k < base.len() implies grown(base[k], #[trigger] c2[k]) by {
        assert(grown(base[k], cur[k]));
        if k == i {
            let b = base[k];
            assert(t2.comments.take(b.comments.len() as int) =~= cur[i].comments.take(
                b.comments.len() as int,
            ));
            model::lemma_find_comment(b.comments, c.id, b.comments.len());
            assert forall|j: int|
                b.comments.len() <= j < t2.comments.len() implies model::find_comment(
                b.comments,
                #[trigger] t2.comments[j].id,
            ) is None by {
                if j < cur[i].comments.len() {
                    assert(model::find_comment(b.comments, cur[i].comments[j].id) is None);
                } else {
                    match model::find_comment(b.comments, c.id) {
                        Some(m) => {
                            assert(cur[i].comments.take(b.comments.len() as int)[m]
                                == cur[i].comments[m]);
                            assert(cur[i].comments[m].id == c.id);
                        },
                        None => {},
                    }
                }
            }
        }
    }
    assert forall|k: int| base.len() <= k < c2.len() implies #[trigger] c2[k].comments.len() > 0 by {
        assert(cur[k].comments.len() > 0);
    }
    assert forall|a: int, b: int| 0 <= a < b < c2.len() implies #[trigger] c2[a].id
        != #[trigger] c2[b].id by {
        assert(cur[a].id != cur[b].id);
    }
}

/// Toggling the resolved state keeps the store one that a session can make.
pub proof fn law_toggle_keeps_session(base: Seq<ThreadV>, cur: Seq<ThreadV>, id: Seq<char>)
    requires
        session(base, cur),
        model::find(cur, id) is Some,
    ensures
        ({
            let i = model::find(cur, id)->0;
            session(base, cur.update(i, model::with_resolved(cur[i], !cur[i].resolved)))
        }),
{
    let i = model::find(cur, id)->0;
    model::lemma_find(cur, id, cur.len());
    let t2 = model::with_resolved(cur[i], !cur[i].resolved);
    let c2 = cur.update(i, t2);
    assert forall|k: int| 0 <= k < base.len() implies grown(base[k], #[trigger] c2[k]) by {
        assert(grown(base[k], cur[k]));
    }
    assert forall|k: int| base.len() <= k < c2.len() implies #[trigger] c2[k].comments.len() > 0 by {
        assert(cur[k].comments.len() > 0);
    }
    assert forall|a: int, b: int| 0 <= a < b < c2.len() implies #[trigger] c2[a].id
        != #[trigger] c2[b].id by {
        assert(cur[a].id != cur[b].id);
    }
}

/// Toggling the resolved state twice gives back the store, and so the same log: a resolve
/// toggled back leaves no trace.
pub proof fn law_toggle_twice_cancels(s: Seq<ThreadV>, id: Seq<char>)
    requires
        model::find(s, id) is Some,
    ensures
        ({
            let i = model::find(s, id)->0;
            let once = s.update(i, model::with_resolved(s[i], !s[i].resolved));
            &&& model::find(once, id) == Some(i)
            &&& once.update(i, model::with_resolved(once[i], !once[i].resolved)) == s
        }),
{
    let i = model::find(s, id)->0;
    model::lemma_find(s, id, s.len());
    let once = s.update(i, model::with_resolved(s[i], !s[i].resolved));
    model::lemma_find(once, id, once.len());
    match model::find(once, id) {
        Some(k) => {
            if k < i {
                assert(s[k].id != id);
            }
            if i < k {
                assert(once[i].id != id);
            }
        },
        None => {
            assert(once[i].id != id);
        },
    }
    assert(once.update(i, model::with_resolved(once[i], !once[i].resolved)) =~= s);
}

/// A thread added under a fresh id and emptied again leaves the store as it was, and so no
/// trace in the log.
pub proof fn law_add_then_delete_cancels(s: Seq<ThreadV>, t: ThreadV, c: CommentV)
    requires
        fresh_thread(s, t.id),
        t.comments == seq![c],
    ensures
        ({
            let added = s.push(t);
            &&& model::find(added, t.id) == Some(s.len() as int)
            &&& model::find_comment(t.comments, c.id) == Some(0int)
            &&& model::comment_removed(added, s.len() as int, 0) == s
        }),
{
    let added = s.push(t);
    model::lemma_find(added, t.id, added.len());
    match model::find(added, t.id) {
        Some(i) => {
            if i < s.len() {
                assert(s[i].id != t.id);
            }
        },
        None => {
            assert(added[s.len() as int].id != t.id);
        },
    }
    model::lemma_find_comment(t.comments, c.id, t.comments.len());
    match model::find_comment(t.comments, c.id) {
        Some(j) => {},
        None => {
            assert(t.comments[0].id != c.id);
        },
    }
    assert(added.remove(s.len() as int) =~= s);
}

/// Deleting a comment that the base does not have keeps the store one that a session can
/// make: base threads and base comments stay.
pub proof fn law_delete_keeps_session(
    base: Seq<ThreadV>,
    cur: Seq<ThreadV>,
    thread_id: Seq<char>,
    comment_id: Seq<char>,
)
    requires
        session(base, cur),
        model::find(cur, thread_id) matches Some(i) && {
            &&& model::find_comment(cur[i].comments, comment_id) is Some
            &&& i < base.len() ==> model::find_comment(base[i].comments, comment_id) is None
            &&& i < base.len() ==> base[i].comments.len() > 0
        },
    ensures
        ({
            let i = model::find(cur, thread_id)->0;
            let j = model::find_comment(cur[i].comments, comment_id)->0;
            session(base, model::comment_removed(cur, i, j))
        }),
{
    let i = model::find(cur, thread_id)->0;
    let j = model::find_comment(cur[i].comments, comment_id)->0;
    model::lemma_find(cur, thread_id, cur.len());
    model::lemma_find_comment(cur[i].comments, comment_id, cur[i].comments.len());
    let c2 = model::comment_removed(cur, i, j);
    if cur[i].comments.len() == 1 {
        if i < base.len() {
            assert(grown(base[i], cur[i]));
            assert(cur[i].comments.take(base[i].comments.len() as int)[0] == cur[i].comments[0]);
            model::lemma_find_comment(base[i].comments, comment_id, base[i].comments.len());
            assert(base[i].comments[0].id != comment_id);
        } else {
            assert forall|k: int| 0 <= k < base.len() implies grown(base[k], #[trigger] c2[k]) by {
                assert(grown(base[k], cur[k]));
            }
            assert forall|k: int| base.len() <= k < c2.len() implies #[trigger] c2[k].comments.len()
                > 0 by {
                assert(cur[if k < i { k } else { k + 1 }].comments.len() > 0);
            }
        }
    } else {
        let t2 = model::without_comment(cur[i], j);
        assert forall|k: int| 0 <= k < base.len() implies grown(base[k], #[trigger] c2[k]) by {
            assert(grown(base[k], cur[k]));
            if k == i {
                let b = base[k];
                model::lemma_find_comment(b.comments, comment_id, b.comments.len());
                if j < b.comments.len() {
                    assert(cur[i].comments.take(b.comments.len() as int)[j] == cur[i].comments[j]);
                    assert(b.comments[j].id != comment_id);
                }
                assert(t2.comments.take(b.comments.len() as int) =~= cur[i].comments.take(
                    b.comments.len() as int,
                ));
                assert forall|m: int|
                    b.comments.len() <= m < t2.comments.len() implies model::find_comment(
                    b.comments,
                    #[trigger] t2.comments[m].id,
                ) is None by {
                    let m0 = if m < j { m } else { m + 1 };
                    assert(model::find_comment(b.comments, cur[i].comments[m0].id) is None);
                }
            }
        }
        assert forall|k: int| base.len() <= k < c2.len() implies #[trigger] c2[k].comments.len()
            > 0 by {
            assert(cur[k].comments.len() > 0);
        }
        assert forall|a: int, b: int| 0 <= a < b < c2.len() implies #[trigger] c2[a].id
            != #[trigger] c2[b].id by {
            assert(cur[a].id != cur[b].id);
        }
    }
}

} // verus!
