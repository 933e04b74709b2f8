//! What the actions of a log say of the reviewed store.
use crate::comments::actions;
use crate::comments::actions::ActionV;
use crate::comments::model::{CommentV, ThreadV};
use vstd::prelude::*;

verus! {

/// Whether a store has a thread with an id.
pub open spec fn knows(base: Seq<ThreadV>, id: Seq<char>) -> bool {
    exists|i: int| 0 <= i < base.len() && (#[trigger] base[i]).id == id
}

/// Whether a thread has a comment that says `body`, of that author.
pub open spec fn says(t: ThreadV, body: Seq<char>, author: Option<Seq<char>>) -> bool {
    exists|j: int|
        0 <= j < t.comments.len() && (#[trigger] t.comments[j]).body == body && t.comments[j].author
            == author
}

/// Whether an action is true of a thread. One that starts it gives its file, its side and its
/// last line, with the first line only where that is another, and what its first comment says;
/// one that answers it says what a comment of it says; and one that resolves it or opens it
/// again gives the state that it is in.
pub open spec fn true_of(base: Seq<ThreadV>, t: ThreadV, a: ActionV) -> bool {
    match a {
        ActionV::AddComment { thread_id, file, side, start_line, line, body, author } => {
            &&& thread_id == t.id && !knows(base, t.id)
            &&& file == t.file && side == t.side && line == t.range.end
            &&& start_line == (if t.range.start == t.range.end {
                None
            } else {
                Some(t.range.start)
            })
            &&& t.comments.len() > 0 && body == t.comments[0].body && author
                == t.comments[0].author
        },
        ActionV::Reply { thread_id, body, author } => thread_id == t.id && says(t, body, author),
        ActionV::Resolve { thread_id } => thread_id == t.id && t.resolved,
        ActionV::Unresolve { thread_id } => thread_id == t.id && !t.resolved,
    }
}

spec fn all_true(base: Seq<ThreadV>, t: ThreadV, s: Seq<ActionV>) -> bool {
    forall|p: int| 0 <= p < s.len() ==> true_of(base, t, #[trigger] s[p])
}

proof fn lemma_added(base: Seq<ThreadV>, t: ThreadV, n: nat)
    requires
        n <= t.comments.len(),
        !knows(base, t.id),
    ensures
        all_true(base, t, actions::added_comments(t, n)),
    decreases n,
{
    if n > 1 {
        lemma_added(base, t, (n - 1) as nat);
        let before = actions::added_comments(t, (n - 1) as nat);
        let all = actions::added_comments(t, n);
        let c = t.comments[n - 1];
        assert(says(t, c.body, c.author));
        assert forall|p: int| 0 <= p < all.len() implies true_of(base, t, #[trigger] all[p]) by {
            if p < before.len() {
                assert(all[p] == before[p]);
            }
        }
    }
}

proof fn lemma_replies(base: Seq<ThreadV>, old: Seq<CommentV>, t: ThreadV, n: nat)
    requires
        n <= t.comments.len(),
    ensures
        all_true(base, t, actions::new_replies(old, t, n)),
    decreases n,
{
    if n > 0 {
        lemma_replies(base, old, t, (n - 1) as nat);
        let before = actions::new_replies(old, t, (n - 1) as nat);
        let all = actions::new_replies(old, t, n);
        let c = t.comments[n - 1];
        assert(says(t, c.body, c.author));
        assert forall|p: int| 0 <= p < all.len() implies true_of(base, t, #[trigger] all[p]) by {
            if p < before.len() {
                assert(all[p] == before[p]);
            }
        }
    }
}

proof fn lemma_base_among(base: Seq<ThreadV>, id: Seq<char>, n: nat)
    requires
        n <= base.len(),
    ensures
        actions::base_among(base, id, n) is None ==> forall|i: int|
            0 <= i < n ==> (#[trigger] base[i]).id != id,
    decreases n,
{
    if n > 0 {
        lemma_base_among(base, id, (n - 1) as nat);
    }
}

proof fn lemma_thread(base: Seq<ThreadV>, t: ThreadV)
    ensures
        all_true(base, t, actions::thread_actions(base, t)),
{
    lemma_base_among(base, t.id, base.len());
    let all = actions::thread_actions(base, t);
    match actions::base_among(base, t.id, base.len()) {
        None => {
            lemma_added(base, t, t.comments.len());
            let a = actions::added_comments(t, t.comments.len());
            assert forall|p: int| 0 <= p < all.len() implies true_of(
                base,
                t,
                #[trigger] all[p],
            ) by {
                if p < a.len() {
                    assert(all[p] == a[p]);
                }
            }
        },
        Some(i) => {
            let old = base[i].comments;
            lemma_replies(base, old, t, t.comments.len());
            let a = actions::new_replies(old, t, t.comments.len());
            assert forall|p: int| 0 <= p < all.len() implies true_of(
                base,
                t,
                #[trigger] all[p],
            ) by {
                if p < a.len() {
                    assert(all[p] == a[p]);
                }
            }
        },
    }
}

/// Every action of the log is true of a thread of the reviewed store.
pub proof fn law_the_log_tells_the_truth(base: Seq<ThreadV>, cur: Seq<ThreadV>, p: int)
    requires
        0 <= p < actions::log(base, cur).len(),
    ensures
        exists|i: int|
            0 <= i < cur.len() && true_of(base, #[trigger] cur[i], actions::log(base, cur)[p]),
{
    lemma_log(base, cur, cur.len(), p);
}

proof fn lemma_log(base: Seq<ThreadV>, cur: Seq<ThreadV>, n: nat, p: int)
    requires
        n <= cur.len(),
        0 <= p < actions::log_among(base, cur, n).len(),
    ensures
        exists|i: int|
            0 <= i < n && true_of(base, #[trigger] cur[i], actions::log_among(base, cur, n)[p]),
    decreases n,
{
    if n > 0 {
        let before = actions::log_among(base, cur, (n - 1) as nat);
        let own = actions::thread_actions(base, cur[n - 1]);
        let all = actions::log_among(base, cur, n);
        lemma_thread(base, cur[n - 1]);
        if p < before.len() {
            lemma_log(base, cur, (n - 1) as nat, p);
            assert(all[p] == before[p]);
            let i = choose|i: int|
                0 <= i < n - 1 && true_of(base, #[trigger] cur[i], before[p]);
            assert(true_of(base, cur[i], all[p]));
        } else {
            assert(all[p] == own[p - before.len()]);
            assert(true_of(base, cur[n - 1], all[p]));
        }
    }
}

} // verus!
