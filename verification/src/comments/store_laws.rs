//! What the operations on the store of threads leave as it was.
use crate::comments::model;
use crate::comments::model::{CommentV, ThreadV};
use vstd::prelude::*;

verus! {

/// Whether a thread of a store has an id.
pub open spec fn holds_id(s: Seq<ThreadV>, id: Seq<char>) -> bool {
    exists|i: int| 0 <= i < s.len() && (#[trigger] s[i]).id == id
}

/// A thread is found where the store has its id, and it is the first with it.
pub proof fn law_the_first_is_found(s: Seq<ThreadV>, id: Seq<char>)
    ensures
        model::find(s, id) is Some <==> holds_id(s, id),
        model::find(s, id) matches Some(i) ==> 0 <= i < s.len() && s[i].id == id && forall|j: int|
            0 <= j < i ==> (#[trigger] s[j]).id != id,
{
    model::lemma_find(s, id, s.len());
    if let Some(i) = model::find(s, id) {
        assert(s[i].id == id);
    }
}

/// Removing a thread takes those with its id out of the store, and leaves all others in their
/// order.
pub proof fn law_removing_leaves_the_others(s: Seq<ThreadV>, id: Seq<char>)
    ensures
        model::others(s, id, s.len()) == s.filter(|t: ThreadV| t.id != id),
        !holds_id(model::others(s, id, s.len()), id),
        !holds_id(s, id) ==> model::others(s, id, s.len()) == s,
{
    lemma_others(s, id, s.len());
    assert(s.take(s.len() as int) == s);
    let r = model::others(s, id, s.len());
    lemma_others_lack(s, id, s.len());
    if !holds_id(s, id) {
        lemma_others_all(s, id, s.len());
    }
}

proof fn lemma_others(s: Seq<ThreadV>, id: Seq<char>, n: nat)
    requires
        n <= s.len(),
    ensures
        model::others(s, id, n) == s.take(n as int).filter(|t: ThreadV| t.id != id),
    decreases n,
{
    reveal(Seq::filter);
    if n > 0 {
        lemma_others(s, id, (n - 1) as nat);
        assert(s.take(n as int).drop_last() == s.take(n - 1));
    }
}

proof fn lemma_others_lack(s: Seq<ThreadV>, id: Seq<char>, n: nat)
    requires
        n <= s.len(),
    ensures
        forall|i: int|
            0 <= i < model::others(s, id, n).len() ==> (#[trigger] model::others(s, id, n)[i]).id
                != id,
    decreases n,
{
    if n > 0 {
        lemma_others_lack(s, id, (n - 1) as nat);
    }
}

proof fn lemma_others_all(s: Seq<ThreadV>, id: Seq<char>, n: nat)
    requires
        n <= s.len(),
        !holds_id(s, id),
    ensures
        model::others(s, id, n) == s.take(n as int),
    decreases n,
{
    if n > 0 {
        lemma_others_all(s, id, (n - 1) as nat);
        assert(s[n - 1].id != id);
        assert(s.take(n as int) == s.take(n - 1).push(s[n - 1]));
    }
}

/// Removing a comment takes that comment alone, and the thread with it where it was the last.
pub proof fn law_removing_a_comment_leaves_the_rest(s: Seq<ThreadV>, i: int, j: int, k: int)
    requires
        0 <= i < s.len(),
        0 <= j < s[i].comments.len(),
        0 <= k < s.len(),
        k != i,
    ensures
        ({
            let r = model::comment_removed(s, i, j);
            let one = s[i].comments.len() == 1;
            &&& r.len() == (if one {
                s.len() - 1
            } else {
                s.len() as int
            })
            &&& r[if one && k > i {
                k - 1
            } else {
                k
            }] == s[k]
            &&& !one ==> {
                &&& r[i].id == s[i].id && r[i].file == s[i].file && r[i].side == s[i].side
                &&& r[i].range == s[i].range && r[i].resolved == s[i].resolved
                &&& r[i].comments == s[i].comments.take(j) + s[i].comments.skip(j + 1)
            }
        }),
{
    let c = s[i].comments;
    assert(c.remove(j) == c.take(j) + c.skip(j + 1));
}

/// A comment is added behind the others of its thread, and a change of state changes only the
/// state.
pub proof fn law_threads_change_in_one_thing(t: ThreadV, c: CommentV, resolved: bool)
    ensures
        ({
            let a = model::with_comment(t, c);
            &&& a == (ThreadV { comments: a.comments, ..t })
            &&& a.comments.last() == c && a.comments.drop_last() == t.comments
        }),
        ({
            let a = model::with_resolved(t, resolved);
            a.resolved == resolved && a == (ThreadV { resolved, ..t })
        }),
{
    assert(t.comments.push(c).drop_last() == t.comments);
}

} // verus!
