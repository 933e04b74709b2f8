//! Review comments, kept in one store and edited in place.
//!
//! The store is the single in-memory source of truth: the interface changes it through the
//! methods of [`CommentStore`]; at the end it is compared with the immutable base to give
//! the action log (see [`super::actions`]).
use crate::diff::model::Side;
use crate::strs;
use std::time::{Duration, SystemTime, UNIX_EPOCH};
use uuid::Uuid;
use vstd::prelude::*;

verus! {

#[derive(Debug, Clone, Copy, PartialEq, Eq, Structural)]
pub struct LineRange {
    pub start: u32,
    pub end: u32,
}

impl LineRange {
    /// Whether `line` is one of the range's lines.
    pub fn contains(&self, line: u32) -> (r: bool)
        ensures
            r == (self.start <= line <= self.end),
    {
        line >= self.start && line <= self.end
    }
}

/// A single message in a thread (root or reply). `created_at` is in milliseconds since the
/// start of 1970.
#[derive(Debug)]
pub struct Comment {
    pub id: String,
    pub author: Option<String>,
    pub body: String,
    pub created_at: u64,
}

/// A review thread anchored to a line range. `comments[0]` is the root.
#[derive(Debug)]
pub struct Thread {
    pub id: String,
    pub file: String,
    pub side: Side,
    pub range: LineRange,
    pub resolved: bool,
    pub comments: Vec<Comment>,
}

/// Owns every thread.
#[derive(Debug)]
pub struct CommentStore {
    pub threads: Vec<Thread>,
}

/// What a [`Comment`] says.
#[verifier::ext_equal]
pub struct CommentV {
    pub id: Seq<char>,
    pub author: Option<Seq<char>>,
    pub body: Seq<char>,
    pub created_at: u64,
}

/// What a [`Thread`] says.
#[verifier::ext_equal]
pub struct ThreadV {
    pub id: Seq<char>,
    pub file: Seq<char>,
    pub side: Side,
    pub range: LineRange,
    pub resolved: bool,
    pub comments: Seq<CommentV>,
}

impl View for Comment {
    type V = CommentV;

    open spec fn view(&self) -> CommentV {
        CommentV {
            id: self.id@,
            author: strs::opt_view(self.author),
            body: self.body@,
            created_at: self.created_at,
        }
    }
}

impl View for Thread {
    type V = ThreadV;

    open spec fn view(&self) -> ThreadV {
        ThreadV {
            id: self.id@,
            file: self.file@,
            side: self.side,
            range: self.range,
            resolved: self.resolved,
            comments: strs::views(self.comments@),
        }
    }
}

impl View for CommentStore {
    type V = Seq<ThreadV>;

    open spec fn view(&self) -> Seq<ThreadV> {
        strs::views(self.threads@)
    }
}

/// The first of the first `n` threads whose id is `id`.
pub open spec fn find_among(s: Seq<ThreadV>, id: Seq<char>, n: nat) -> Option<int>
    decreases n,
{
    if n == 0 {
        None
    } else {
        match find_among(s, id, (n - 1) as nat) {
            Some(i) => Some(i),
            None => if s[n - 1].id == id {
                Some(n - 1)
            } else {
                None
            },
        }
    }
}

/// The first thread whose id is `id`.
pub open spec fn find(s: Seq<ThreadV>, id: Seq<char>) -> Option<int> {
    find_among(s, id, s.len())
}

/// The first of the first `n` comments whose id is `id`.
pub open spec fn find_comment_among(s: Seq<CommentV>, id: Seq<char>, n: nat) -> Option<int>
    decreases n,
{
    if n == 0 {
        None
    } else {
        match find_comment_among(s, id, (n - 1) as nat) {
            Some(i) => Some(i),
            None => if s[n - 1].id == id {
                Some(n - 1)
            } else {
                None
            },
        }
    }
}

/// The first comment whose id is `id`.
pub open spec fn find_comment(s: Seq<CommentV>, id: Seq<char>) -> Option<int> {
    find_comment_among(s, id, s.len())
}

/// The threads among the first `n` whose id is not `id`.
pub open spec fn others(s: Seq<ThreadV>, id: Seq<char>, n: nat) -> Seq<ThreadV>
    decreases n,
{
    if n == 0 {
        Seq::empty()
    } else {
        let before = others(s, id, (n - 1) as nat);
        if s[n - 1].id == id {
            before
        } else {
            before.push(s[n - 1])
        }
    }
}

/// A found thread is the first with its id; where none is found, none has the id.
pub proof fn lemma_find(s: Seq<ThreadV>, id: Seq<char>, n: nat)
    requires
        n <= s.len(),
    ensures
        match find_among(s, id, n) {
            Some(i) => 0 <= i < n && s[i].id == id && forall|j: int|
                0 <= j < i ==> #[trigger] s[j].id != id,
            None => forall|j: int| 0 <= j < n ==> #[trigger] s[j].id != id,
        },
    decreases n,
{
    if n > 0 {
        lemma_find(s, id, (n - 1) as nat);
    }
}

/// A found comment is the first with its id; where none is found, none has the id.
pub proof fn lemma_find_comment(s: Seq<CommentV>, id: Seq<char>, n: nat)
    requires
        n <= s.len(),
    ensures
        match find_comment_among(s, id, n) {
            Some(i) => 0 <= i < n && s[i].id == id && forall|j: int|
                0 <= j < i ==> #[trigger] s[j].id != id,
            None => forall|j: int| 0 <= j < n ==> #[trigger] s[j].id != id,
        },
    decreases n,
{
    if n > 0 {
        lemma_find_comment(s, id, (n - 1) as nat);
    }
}

/// A thread with one more comment.
pub open spec fn with_comment(t: ThreadV, c: CommentV) -> ThreadV {
    ThreadV { comments: t.comments.push(c), ..t }
}

/// A thread with another resolved state.
pub open spec fn with_resolved(t: ThreadV, resolved: bool) -> ThreadV {
    ThreadV { resolved, ..t }
}

/// A thread without its comment at index `i`.
pub open spec fn without_comment(t: ThreadV, i: int) -> ThreadV {
    ThreadV { comments: t.comments.remove(i), ..t }
}

/// The store after the comment is deleted from the thread: a thread that loses its last
/// comment goes with it.
pub open spec fn comment_removed(s: Seq<ThreadV>, i: int, j: int) -> Seq<ThreadV> {
    if s[i].comments.len() == 1 {
        s.remove(i)
    } else {
        s.update(i, without_comment(s[i], j))
    }
}

/// The time, as std gives it.
#[verifier::external_type_specification]
#[verifier::external_body]
pub struct ExSystemTime(SystemTime);

/// Whether a character is a lowercase hexadecimal digit.
pub open spec fn is_hex(c: char) -> bool {
    ('0' <= c && c <= '9') || ('a' <= c && c <= 'f')
}

/// Whether a text is an id in its written form: 36 characters, lowercase hexadecimal digits
/// with four hyphens between them.
pub open spec fn is_uuid(s: Seq<char>) -> bool {
    &&& s.len() == 36
    &&& forall|i: int|
        0 <= i < 36 ==> if i == 8 || i == 13 || i == 18 || i == 23 {
            #[trigger] s[i] == '-'
        } else {
            is_hex(s[i])
        }
}

/// `Uuid::new_v4`, written out with hyphens: a fresh random id.
#[verifier::external_body]
pub(crate) fn fresh_id() -> (r: String)
    ensures
        is_uuid(r@),
{
    Uuid::new_v4().to_string()
}

/// `SystemTime::now`: the clock's time. Nothing is claimed of it.
#[verifier::external_body]
fn clock() -> (t: SystemTime)
{
    SystemTime::now()
}

/// `SystemTime::duration_since` the start of 1970, for a time that is no earlier. Nothing is
/// claimed of it: the time itself is opaque.
#[verifier::external_body]
fn since_epoch(t: SystemTime) -> (d: Option<Duration>)
{
    t.duration_since(UNIX_EPOCH).ok()
}

/// `Duration::as_millis`: whole milliseconds. Nothing is claimed of it: the span itself is
/// opaque.
#[verifier::external_body]
fn millis(d: Duration) -> (ms: u128)
{
    d.as_millis()
}

/// The time stamp for a clock that is so many milliseconds past the start of 1970, modulo 2^64;
/// 0 for a clock that is set before it.
pub fn stamp(since: Option<u128>) -> (ms: u64)
    ensures
        since matches Some(m) ==> ms as int == m as int % 0x1_0000_0000_0000_0000,
        since is None ==> ms == 0,
{
    match since {
        Some(m) => {
            assert(m as u64 == m % 0x1_0000_0000_0000_0000) by (bit_vector);
            #[verifier::truncate]
            (m as u64)
        },
        None => 0,
    }
}

/// Now, in milliseconds since the start of 1970; 0 for an earlier time. The clock decides, and
/// any number can come of it: nothing is stated of the result. What becomes of each reading of
/// the clock, [`stamp`] says.
pub(crate) fn now_millis() -> (ms: u64)
{
    let since = match since_epoch(clock()) {
        Some(d) => Some(millis(d)),
        None => None,
    };
    stamp(since)
}

impl Clone for Comment {
    fn clone(&self) -> (r: Comment)
        ensures
            r@ == self@,
    {
        Comment {
            id: self.id.clone(),
            author: strs::clone_opt(&self.author),
            body: self.body.clone(),
            created_at: self.created_at,
        }
    }
}

impl Clone for Thread {
    fn clone(&self) -> (r: Thread)
        ensures
            r@ == self@,
    {
        broadcast use strs::lemma_views_push;

        let mut comments: Vec<Comment> = Vec::new();
        let mut i: usize = 0;
        while i < self.comments.len()
            invariant
                0 <= i <= self.comments.len(),
                strs::views(comments@) == strs::views(self.comments@).take(i as int),
            decreases self.comments.len() - i,
        {
            comments.push(self.comments[i].clone());
            assert(strs::views(self.comments@).take(i + 1) == strs::views(self.comments@).take(
                i as int,
            ).push(self.comments@[i as int]@));
            i += 1;
        }
        Thread {
            id: self.id.clone(),
            file: self.file.clone(),
            side: self.side,
            range: self.range,
            resolved: self.resolved,
            comments,
        }
    }
}

impl Thread {
    /// The index of the first comment with this id.
    pub fn position(&self, comment_id: &str) -> (r: Option<usize>)
        ensures
            match r {
                Some(j) => find_comment(self@.comments, comment_id@) == Some(j as int) && j
                    < self.comments.len(),
                None => find_comment(self@.comments, comment_id@) is None,
            },
    {
        let mut i: usize = 0;
        while i < self.comments.len()
            invariant
                0 <= i <= self.comments.len(),
                find_comment_among(self@.comments, comment_id@, i as nat) is None,
            decreases self.comments.len() - i,
        {
            if strs::same_text(self.comments[i].id.as_str(), comment_id) {
                proof {
                    lemma_first_comment(self@.comments, comment_id@, i as nat + 1, i as int);
                }
                return Some(i);
            }
            i += 1;
        }
        None
    }
}

proof fn lemma_first_comment(s: Seq<CommentV>, id: Seq<char>, n: nat, i: int)
    requires
        n <= s.len(),
        find_comment_among(s, id, n) == Some(i),
    ensures
        find_comment(s, id) == Some(i),
    decreases s.len() - n,
{
    if n < s.len() {
        lemma_first_comment(s, id, n + 1, i);
    }
}

proof fn lemma_first_thread(s: Seq<ThreadV>, id: Seq<char>, n: nat, i: int)
    requires
        n <= s.len(),
        find_among(s, id, n) == Some(i),
    ensures
        find(s, id) == Some(i),
    decreases s.len() - n,
{
    if n < s.len() {
        lemma_first_thread(s, id, n + 1, i);
    }
}

impl Default for CommentStore {
    fn default() -> (r: Self)
        ensures
            r@ == Seq::<ThreadV>::empty(),
    {
        CommentStore { threads: Vec::new() }
    }
}

impl Clone for CommentStore {
    fn clone(&self) -> (r: Self)
        ensures
            r@ == self@,
    {
        broadcast use strs::lemma_views_push;

        let mut threads: Vec<Thread> = Vec::new();
        let mut i: usize = 0;
        while i < self.threads.len()
            invariant
                0 <= i <= self.threads.len(),
                strs::views(threads@) == strs::views(self.threads@).take(i as int),
            decreases self.threads.len() - i,
        {
            threads.push(self.threads[i].clone());
            assert(strs::views(self.threads@).take(i + 1) == strs::views(self.threads@).take(
                i as int,
            ).push(self.threads@[i as int]@));
            i += 1;
        }
        CommentStore { threads }
    }
}

impl CommentStore {
    /// The index of the first thread with this id.
    pub fn position(&self, id: &str) -> (r: Option<usize>)
        ensures
            match r {
                Some(i) => find(self@, id@) == Some(i as int) && i < self.threads.len(),
                None => find(self@, id@) is None,
            },
    {
        let mut i: usize = 0;
        while i < self.threads.len()
            invariant
                0 <= i <= self.threads.len(),
                find_among(self@, id@, i as nat) is None,
            decreases self.threads.len() - i,
        {
            if strs::same_text(self.threads[i].id.as_str(), id) {
                proof {
                    lemma_first_thread(self@, id@, i as nat + 1, i as int);
                }
                return Some(i);
            }
            i += 1;
        }
        None
    }

    /// Start a new thread with the given ids and time.
    pub fn add_thread_with(
        &mut self,
        id: String,
        file: String,
        side: Side,
        range: LineRange,
        root: Comment,
    )
        ensures
            final(self)@ == old(self)@.push(
                ThreadV {
                    id: id@,
                    file: file@,
                    side,
                    range,
                    resolved: false,
                    comments: seq![root@],
                },
            ),
    {
        broadcast use strs::lemma_views_push;

        let mut comments: Vec<Comment> = Vec::new();
        comments.push(root);
        assert(strs::views(comments@) == seq![root@]);
        self.threads.push(Thread { id, file, side, range, resolved: false, comments });
    }

    /// Start a new thread anchored to `(file, side, range)` with a root comment, returning
    /// its thread id. This is the single write path used by the composer.
    pub fn add_thread(
        &mut self,
        file: String,
        side: Side,
        range: LineRange,
        author: Option<String>,
        body: String,
    ) -> (id: String)
        ensures
            is_uuid(id@),
            exists|comment_id: Seq<char>, created_at: u64|
                is_uuid(comment_id) && final(self)@ == old(self)@.push(
                    (ThreadV {
                        id: id@,
                        file: file@,
                        side,
                        range,
                        resolved: false,
                        comments: seq![
                            #[trigger] new_comment(
                                comment_id,
                                strs::opt_view(author),
                                body@,
                                created_at,
                            ),
                        ],
                    }),
                ),
    {
        let id = fresh_id();
        let comment_id = fresh_id();
        let created_at: u64 = now_millis();
        let r = id.clone();
        let ghost c = new_comment(comment_id@, strs::opt_view(author), body@, created_at);
        self.add_thread_with(
            id,
            file,
            side,
            range,
            Comment { id: comment_id, author, body, created_at },
        );
        assert(self.view().last().comments == seq![c]);
        r
    }

    /// Append a reply with the given id and time to the first thread with id `thread_id`.
    /// Returns `false` when no such thread exists.
    pub fn reply_with(&mut self, thread_id: &str, c: Comment) -> (r: bool)
        ensures
            match find(old(self)@, thread_id@) {
                Some(i) => r && final(self)@ == old(self)@.update(
                    i,
                    with_comment(old(self)@[i], c@),
                ),
                None => !r && final(self)@ == old(self)@,
            },
    {
        broadcast use strs::lemma_views_push;

        match self.position(thread_id) {
            Some(i) => {
                let ghost s = self@;
                self.threads[i].comments.push(c);
                assert(self@ == s.update(i as int, with_comment(s[i as int], c@)));
                true
            },
            None => false,
        }
    }

    /// Append a reply to the thread with `thread_id`. Returns `false` when no such thread
    /// exists.
    pub fn reply(&mut self, thread_id: &str, author: Option<String>, body: String) -> (r: bool)
        ensures
            r == (find(old(self)@, thread_id@) is Some),
            !r ==> final(self)@ == old(self)@,
            find(old(self)@, thread_id@) matches Some(i) ==> exists|
                comment_id: Seq<char>,
                created_at: u64,
            |
                is_uuid(comment_id) && final(self)@ == old(self)@.update(
                    i,
                    with_comment(
                        old(self)@[i],
                        #[trigger] new_comment(
                            comment_id,
                            strs::opt_view(author),
                            body@,
                            created_at,
                        ),
                    ),
                ),
    {
        let id = fresh_id();
        let created_at: u64 = now_millis();
        let ghost c = new_comment(id@, strs::opt_view(author), body@, created_at);
        self.reply_with(thread_id, Comment { id, author, body, created_at })
    }

    /// Remove the threads with `id`. Returns `true` when one was removed.
    pub fn remove_thread(&mut self, id: &str) -> (r: bool)
        ensures
            final(self)@ == others(old(self)@, id@, old(self)@.len()),
            r == (find(old(self)@, id@) is Some),
    {
        broadcast use strs::lemma_views_push;

        let ghost s = self@;
        let mut kept: Vec<Thread> = Vec::new();
        let mut removed = false;
        let mut i: usize = 0;
        assert(strs::views(kept@) == Seq::<ThreadV>::empty());
        while i < self.threads.len()
            invariant
                self@ == s,
                0 <= i <= self.threads.len(),
                strs::views(kept@) == others(s, id@, i as nat),
                removed == (find_among(s, id@, i as nat) is Some),
            decreases self.threads.len() - i,
        {
            assert(self.threads@[i as int]@ == s[i as int]);
            if strs::same_text(self.threads[i].id.as_str(), id) {
                removed = true;
            } else {
                kept.push(self.threads[i].clone());
            }
            i += 1;
        }
        self.threads = kept;
        removed
    }

    /// Flip the resolved flag on the thread with `id`, returning the new state (or `None`
    /// when no such thread exists).
    pub fn toggle_resolved(&mut self, id: &str) -> (r: Option<bool>)
        ensures
            match find(old(self)@, id@) {
                Some(i) => r == Some(!old(self)@[i].resolved) && final(self)@ == old(self)@.update(
                    i,
                    with_resolved(old(self)@[i], !old(self)@[i].resolved),
                ),
                None => r is None && final(self)@ == old(self)@,
            },
    {
        match self.position(id) {
            Some(i) => {
                let ghost s = self@;
                let b = !self.threads[i].resolved;
                self.threads[i].resolved = b;
                assert(self@ == s.update(i as int, with_resolved(s[i as int], b)));
                Some(b)
            },
            None => None,
        }
    }

    /// Remove one comment from a thread. A thread that loses its last comment goes too.
    /// Returns whether there was such a comment.
    pub fn remove_comment(&mut self, thread_id: &str, comment_id: &str) -> (r: bool)
        ensures
            match find(old(self)@, thread_id@) {
                Some(i) => match find_comment(old(self)@[i].comments, comment_id@) {
                    Some(j) => r && final(self)@ == comment_removed(old(self)@, i, j),
                    None => !r && final(self)@ == old(self)@,
                },
                None => !r && final(self)@ == old(self)@,
            },
    {
        let ghost s = self@;
        match self.position(thread_id) {
            Some(i) => {
                assert(self.threads@[i as int]@ == s[i as int]);
                match self.threads[i].position(comment_id) {
                    Some(j) => {
                        if self.threads[i].comments.len() == 1 {
                            self.threads.remove(i);
                            assert(self@ == s.remove(i as int));
                        } else {
                            let ghost cs = self.threads@[i as int].comments@;
                            self.threads[i].comments.remove(j);
                            assert(strs::views(cs.remove(j as int)) == strs::views(cs).remove(
                                j as int,
                            ));
                            assert(self@ == s.update(
                                i as int,
                                without_comment(s[i as int], j as int),
                            ));
                        }
                        true
                    },
                    None => false,
                }
            },
            None => false,
        }
    }
}

/// A comment made in this session.
pub open spec fn new_comment(
    id: Seq<char>,
    author: Option<Seq<char>>,
    body: Seq<char>,
    created_at: u64,
) -> CommentV {
    CommentV { id, author, body, created_at }
}

} // verus!
