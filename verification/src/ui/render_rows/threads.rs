//! Comment-thread and composer line layout: text to visual box lines.
//!
//! Pure layout shared by the unified and the split row builders: threads and composers
//! expanded into wrapped box lines, and threads found by path and anchor.
use super::date::fmt_date;
use super::text::{sanitize_line, wrap_preserve, wrap_text};
use crate::comments::model::{Comment, CommentStore, CommentV, LineRange, Thread, ThreadV};
use crate::diff::model::{Changeset, DiffFile, DiffFileV, DiffLine, DiffLineV, HunkV, Side};
use crate::paths;
use crate::strs;
use crate::strs::{same_text, split_char};
use crate::ui::render_rows::date;
use crate::ui::render_rows::text;
use vstd::prelude::*;

verus! {

/// One visual line of an inline-expanded comment thread.
#[derive(Debug)]
pub enum CommentKind {
    /// Top rounded border of the thread box.
    Top,
    /// Thread header: message count (resolved state lives on `CommentLine`).
    Head { replies: usize },
    /// A message author line (`@name`) with its formatted date.
    Author { name: String, date: String },
    /// A (pre-wrapped) body line.
    Body(String),
    /// Blank spacer between messages.
    Gap,
    /// The action-button row (reply / resolve / delete) above the bottom border.
    Actions,
    /// Bottom rounded border of the thread box.
    Bottom,
}

/// One visual line of a thread box, tagged with the thread's `resolved` state so the whole
/// box can be dimmed when resolved, plus identity so the line can be selected. `comment_id`
/// is the owning message for content lines and `None` for thread chrome, so a message
/// (author and body lines) forms one selectable unit.
#[derive(Debug)]
pub struct CommentLine {
    pub kind: CommentKind,
    pub resolved: bool,
    pub thread_id: String,
    pub comment_id: Option<String>,
}

/// Where an open inline composer attaches in the row stream.
#[derive(Debug)]
pub enum ComposerAnchor {
    /// A new thread, anchored to a line of the selected diff range.
    NewThread { file_idx: usize, side: Side, line: u32 },
    /// A reply, injected just below an existing thread's box.
    Reply { thread_id: String },
}

/// An open inline composer to inject into the row stream while typing.
#[derive(Debug)]
pub struct ComposerSpec {
    pub anchor: ComposerAnchor,
    pub title: String,
    pub body: String,
}

/// One visual line of the inline composer box.
#[derive(Debug)]
pub enum ComposerKind {
    /// Top rounded border, carrying the box title.
    Top { title: String },
    /// A (pre-wrapped) body line; the line at the cursor carries the caret glyph.
    Body(String),
    /// The one-line key hint above the bottom border.
    Hint,
    /// Bottom rounded border.
    Bottom,
}

#[derive(Debug)]
pub struct ComposerLine {
    pub kind: ComposerKind,
}

/// A row injected after a code line: a line of an existing comment thread, or a line of the
/// live composer box.
#[derive(Debug)]
pub enum Injected {
    Comment(CommentLine),
    Composer(ComposerLine),
}

/// What a [`CommentKind`] says.
#[verifier::ext_equal]
pub enum CommentKindV {
    Top,
    Head { replies: nat },
    Author { name: Seq<char>, date: Seq<char> },
    Body(Seq<char>),
    Gap,
    Actions,
    Bottom,
}

/// What a [`CommentLine`] says.
#[verifier::ext_equal]
pub struct CommentLineV {
    pub kind: CommentKindV,
    pub resolved: bool,
    pub thread_id: Seq<char>,
    pub comment_id: Option<Seq<char>>,
}

/// What a [`ComposerAnchor`] says.
#[verifier::ext_equal]
pub enum ComposerAnchorV {
    NewThread { file_idx: nat, side: Side, line: u32 },
    Reply { thread_id: Seq<char> },
}

/// What a [`ComposerSpec`] says.
#[verifier::ext_equal]
pub struct ComposerV {
    pub anchor: ComposerAnchorV,
    pub title: Seq<char>,
    pub body: Seq<char>,
}

/// What a [`ComposerLine`] says.
#[verifier::ext_equal]
pub enum ComposerKindV {
    Top { title: Seq<char> },
    Body(Seq<char>),
    Hint,
    Bottom,
}

/// What an [`Injected`] row says.
#[verifier::ext_equal]
pub enum InjectedV {
    Comment(CommentLineV),
    Composer(ComposerKindV),
}

impl View for CommentKind {
    type V = CommentKindV;

    open spec fn view(&self) -> CommentKindV {
        match *self {
            CommentKind::Top => CommentKindV::Top,
            CommentKind::Head { replies } => CommentKindV::Head { replies: replies as nat },
            CommentKind::Author { name, date } => CommentKindV::Author { name: name@, date: date@ },
            CommentKind::Body(s) => CommentKindV::Body(s@),
            CommentKind::Gap => CommentKindV::Gap,
            CommentKind::Actions => CommentKindV::Actions,
            CommentKind::Bottom => CommentKindV::Bottom,
        }
    }
}

impl View for CommentLine {
    type V = CommentLineV;

    open spec fn view(&self) -> CommentLineV {
        CommentLineV {
            kind: self.kind@,
            resolved: self.resolved,
            thread_id: self.thread_id@,
            comment_id: strs::opt_view(self.comment_id),
        }
    }
}

impl View for ComposerAnchor {
    type V = ComposerAnchorV;

    open spec fn view(&self) -> ComposerAnchorV {
        match *self {
            ComposerAnchor::NewThread { file_idx, side, line } => ComposerAnchorV::NewThread {
                file_idx: file_idx as nat,
                side,
                line,
            },
            ComposerAnchor::Reply { thread_id } => ComposerAnchorV::Reply {
                thread_id: thread_id@,
            },
        }
    }
}

impl View for ComposerSpec {
    type V = ComposerV;

    open spec fn view(&self) -> ComposerV {
        ComposerV { anchor: self.anchor@, title: self.title@, body: self.body@ }
    }
}

impl View for ComposerLine {
    type V = ComposerKindV;

    open spec fn view(&self) -> ComposerKindV {
        match self.kind {
            ComposerKind::Top { title } => ComposerKindV::Top { title: title@ },
            ComposerKind::Body(s) => ComposerKindV::Body(s@),
            ComposerKind::Hint => ComposerKindV::Hint,
            ComposerKind::Bottom => ComposerKindV::Bottom,
        }
    }
}

impl View for Injected {
    type V = InjectedV;

    open spec fn view(&self) -> InjectedV {
        match *self {
            Injected::Comment(c) => InjectedV::Comment(c@),
            Injected::Composer(c) => InjectedV::Composer(c@),
        }
    }
}

/// The view of an optional composer.
pub open spec fn composer_view(c: Option<&ComposerSpec>) -> Option<ComposerV> {
    match c {
        Some(s) => Some(s@),
        None => None,
    }
}

/// The visual lines of one line of a message: an empty one stays, any other is wrapped.
pub open spec fn raw_lines(raw: Seq<char>, width: nat, verbatim: bool) -> Seq<Seq<char>> {
    let s = text::sanitized(raw);
    if s.len() == 0 {
        seq![Seq::<char>::empty()]
    } else if verbatim {
        text::preserved(s, width)
    } else {
        text::wrapped(s, width)
    }
}

/// The visual lines of the first `n` lines of a message.
pub open spec fn body_among(
    pieces: Seq<Seq<char>>,
    n: nat,
    width: nat,
    verbatim: bool,
) -> Seq<Seq<char>>
    decreases n,
{
    if n == 0 {
        Seq::empty()
    } else {
        body_among(pieces, (n - 1) as nat, width, verbatim) + raw_lines(
            pieces[n - 1],
            width,
            verbatim,
        )
    }
}

/// The visual lines of a message: sanitized, and wrapped to `width`.
pub open spec fn body(s: Seq<char>, width: nat, verbatim: bool) -> Seq<Seq<char>> {
    let pieces = strs::split_on(s, '\n');
    body_among(pieces, pieces.len(), width, verbatim)
}

/// The visual lines of a message: sanitized, and wrapped to `width`, with every character
/// kept where `verbatim` says so.
fn body_lines(s: &str, width: usize, verbatim: bool) -> (r: Vec<String>)
    ensures
        strs::views(r@) == body(s@, width as nat, verbatim),
{
    let pieces = split_char(s, '\n');
    let mut out: Vec<String> = Vec::new();
    let mut i: usize = 0;
    assert(strs::views(out@) == Seq::<Seq<char>>::empty());
    while i < pieces.len()
        invariant
            0 <= i <= pieces.len(),
            strs::views(out@) == body_among(
                strs::views(pieces@),
                i as nat,
                width as nat,
                verbatim,
            ),
        decreases pieces.len() - i,
    {
        assert(pieces@[i as int]@ == strs::views(pieces@)[i as int]);
        let s = sanitize_line(pieces[i].as_str());
        let mut lines = if s.as_str().is_empty() {
            let mut one: Vec<String> = Vec::new();
            one.push(String::new());
            assert(strs::views(one@) == seq![Seq::<char>::empty()]);
            one
        } else if verbatim {
            wrap_preserve(s.as_str(), width)
        } else {
            wrap_text(s.as_str(), width)
        };
        let ghost a = out@;
        let ghost b = lines@;
        out.append(&mut lines);
        assert(strs::views(a + b) == strs::views(a) + strs::views(b));
        i += 1;
    }
    out
}

/// The body lines of a composer box.
pub open spec fn composer_body(lines: Seq<Seq<char>>) -> Seq<ComposerKindV> {
    Seq::new(lines.len(), |i: int| ComposerKindV::Body(lines[i]))
}

/// The lines of a composer box: the title, the live text, a key hint and the border.
pub open spec fn composer_box(c: ComposerV, width: nat) -> Seq<ComposerKindV> {
    seq![ComposerKindV::Top { title: c.title }] + composer_body(body(c.body, width, true)) + seq![
        ComposerKindV::Hint,
        ComposerKindV::Bottom,
    ]
}

/// Expand an open composer into wrapped visual lines: a rounded box with the title, the
/// live text with its caret, and a key hint.
pub fn composer_lines(spec: &ComposerSpec, width: usize) -> (out: Vec<ComposerLine>)
    ensures
        strs::views(out@) == composer_box(spec@, width as nat),
{
    broadcast use strs::lemma_views_push;

    let lines = body_lines(spec.body.as_str(), width, true);
    let mut out: Vec<ComposerLine> = Vec::new();
    out.push(ComposerLine { kind: ComposerKind::Top { title: spec.title.clone() } });
    let ghost top = seq![ComposerKindV::Top { title: spec@.title }];
    let ghost all = composer_body(strs::views(lines@));
    let mut i: usize = 0;
    assert(strs::views(out@) == top + all.take(0));
    while i < lines.len()
        invariant
            0 <= i <= lines.len(),
            all == composer_body(strs::views(lines@)),
            strs::views(out@) == top + all.take(i as int),
        decreases lines.len() - i,
    {
        let ghost before = out@;
        out.push(ComposerLine { kind: ComposerKind::Body(lines[i].clone()) });
        assert(strs::views(out@) == strs::views(before).push(all[i as int]));
        assert(all.take(i + 1) == all.take(i as int).push(all[i as int]));
        assert(all[i as int] == ComposerKindV::Body(lines@[i as int]@));
        assert(strs::views(out@) == top + all.take(i + 1));
        i += 1;
    }
    out.push(ComposerLine { kind: ComposerKind::Hint });
    out.push(ComposerLine { kind: ComposerKind::Bottom });
    assert(all.take(lines.len() as int) == all);
    assert(strs::views(out@) == composer_box(spec@, width as nat));
    out
}

/// Whether the composer starts a new thread at exactly this line.
pub open spec fn composes_at(c: Option<ComposerV>, file_idx: nat, side: Side, line: u32) -> bool {
    match c {
        Some(spec) => spec.anchor == (ComposerAnchorV::NewThread { file_idx, side, line }),
        None => false,
    }
}

/// The composer box for a new thread at this line, unless it is out already.
pub open spec fn new_thread_box(
    c: Option<ComposerV>,
    composed: bool,
    file_idx: nat,
    side: Side,
    line: u32,
    width: nat,
) -> Seq<ComposerKindV> {
    if !composed && composes_at(c, file_idx, side, line) {
        composer_box(c->0, width)
    } else {
        Seq::empty()
    }
}

/// Composer lines for a new thread anchored exactly at `(file_idx, side, line)`, emitted at
/// most once per build (tracked via `emitted`).
pub fn new_thread_composer(
    composer: Option<&ComposerSpec>,
    emitted: &mut bool,
    file_idx: usize,
    side: Side,
    line: u32,
    width: usize,
) -> (r: Vec<ComposerLine>)
    ensures
        strs::views(r@) == new_thread_box(
            composer_view(composer),
            *old(emitted),
            file_idx as nat,
            side,
            line,
            width as nat,
        ),
        *final(emitted) == (*old(emitted) || composes_at(
            composer_view(composer),
            file_idx as nat,
            side,
            line,
        )),
{
    let none: Vec<ComposerLine> = Vec::new();
    assert(strs::views(none@) == Seq::<ComposerKindV>::empty());
    if *emitted {
        return none;
    }
    if let Some(spec) = composer {
        if let ComposerAnchor::NewThread { file_idx: f, side: s, line: l } = spec.anchor {
            if f == file_idx && s == side && l == line {
                *emitted = true;
                return composer_lines(spec, width);
            }
        }
    }
    none
}

/// The name shown for an author.
pub open spec fn author_name(author: Option<Seq<char>>) -> Seq<char> {
    match author {
        Some(a) => a,
        None => "?"@,
    }
}

/// A line of the frame of the thread's box.
pub open spec fn chrome(t: ThreadV, kind: CommentKindV) -> CommentLineV {
    CommentLineV { kind, resolved: t.resolved, thread_id: t.id, comment_id: None }
}

/// A line of comment `c` of the thread.
pub open spec fn content(t: ThreadV, c: CommentV, kind: CommentKindV) -> CommentLineV {
    CommentLineV { kind, resolved: t.resolved, thread_id: t.id, comment_id: Some(c.id) }
}

/// The body lines of comment `c`.
pub open spec fn content_body(t: ThreadV, c: CommentV, lines: Seq<Seq<char>>) -> Seq<CommentLineV> {
    Seq::new(lines.len(), |i: int| content(t, c, CommentKindV::Body(lines[i])))
}

/// The lines of comment `i`: its author, its body, and a gap where another one follows.
pub open spec fn message_lines(t: ThreadV, i: int, width: nat) -> Seq<CommentLineV> {
    let c = t.comments[i];
    let a = content(
        t,
        c,
        CommentKindV::Author { name: author_name(c.author), date: date::date_text(c.created_at as nat) },
    );
    let b = seq![a] + content_body(t, c, body(c.body, width, false));
    if i + 1 < t.comments.len() {
        b.push(content(t, c, CommentKindV::Gap))
    } else {
        b
    }
}

/// The lines of the first `n` comments.
pub open spec fn messages_among(t: ThreadV, n: nat, width: nat) -> Seq<CommentLineV>
    decreases n,
{
    if n == 0 {
        Seq::empty()
    } else {
        messages_among(t, (n - 1) as nat, width) + message_lines(t, n - 1, width)
    }
}

/// The box of a thread.
pub open spec fn thread_box(t: ThreadV, width: nat) -> Seq<CommentLineV> {
    seq![
        chrome(t, CommentKindV::Top),
        chrome(t, CommentKindV::Head { replies: t.comments.len() }),
    ] + messages_among(t, t.comments.len(), width) + seq![
        chrome(t, CommentKindV::Actions),
        chrome(t, CommentKindV::Bottom),
    ]
}

fn line_of(t: &Thread, c: Option<&Comment>, kind: CommentKind) -> (r: CommentLine)
    ensures
        r@ == (match c {
            Some(c) => content(t@, c@, kind@),
            None => chrome(t@, kind@),
        }),
{
    CommentLine {
        kind,
        resolved: t.resolved,
        thread_id: t.id.clone(),
        comment_id: match c {
            Some(c) => Some(c.id.clone()),
            None => None,
        },
    }
}

fn push_message(t: &Thread, i: usize, width: usize, out: &mut Vec<CommentLine>)
    requires
        i < t.comments.len(),
    ensures
        strs::views(final(out)@) == strs::views(old(out)@) + message_lines(
            t@,
            i as int,
            width as nat,
        ),
{
    broadcast use strs::lemma_views_push;

    let c = &t.comments[i];
    assert(c@ == t@.comments[i as int]);
    let name = match &c.author {
        Some(a) => a.clone(),
        None => strs::owned("?"),
    };
    let ghost o = strs::views(out@);
    let ghost a = content(
        t@,
        c@,
        CommentKindV::Author { name: author_name(c@.author), date: date::date_text(c@.created_at as nat) },
    );
    out.push(line_of(t, Some(c), CommentKind::Author { name, date: fmt_date(c.created_at) }));
    let lines = body_lines(c.body.as_str(), width, false);
    let ghost all = content_body(t@, c@, strs::views(lines@));
    let mut k: usize = 0;
    assert(strs::views(out@) == o + (seq![a] + all.take(0)));
    while k < lines.len()
        invariant
            0 <= k <= lines.len(),
            all == content_body(t@, c@, strs::views(lines@)),
            strs::views(out@) == o + (seq![a] + all.take(k as int)),
        decreases lines.len() - k,
    {
        let ghost before = out@;
        out.push(line_of(t, Some(c), CommentKind::Body(lines[k].clone())));
        assert(strs::views(out@) == strs::views(before).push(all[k as int]));
        assert(all[k as int] == content(t@, c@, CommentKindV::Body(lines@[k as int]@)));
        assert(all.take(k + 1) == all.take(k as int).push(all[k as int]));
        assert(strs::views(out@) == o + (seq![a] + all.take(k + 1)));
        k += 1;
    }
    assert(all.take(lines.len() as int) == all);
    if i + 1 < t.comments.len() {
        out.push(line_of(t, Some(c), CommentKind::Gap));
    }
    assert(strs::views(out@) == o + message_lines(t@, i as int, width as nat));
}

/// Expand a thread into wrapped visual lines.
pub fn thread_lines(t: &Thread, width: usize) -> (out: Vec<CommentLine>)
    ensures
        strs::views(out@) == thread_box(t@, width as nat),
{
    broadcast use strs::lemma_views_push;

    let mut out: Vec<CommentLine> = Vec::new();
    out.push(line_of(t, None, CommentKind::Top));
    out.push(line_of(t, None, CommentKind::Head { replies: t.comments.len() }));
    let ghost head = seq![
        chrome(t@, CommentKindV::Top),
        chrome(t@, CommentKindV::Head { replies: t@.comments.len() }),
    ];
    let mut i: usize = 0;
    assert(strs::views(out@) == head + messages_among(t@, 0, width as nat));
    while i < t.comments.len()
        invariant
            0 <= i <= t.comments.len(),
            strs::views(out@) == head + messages_among(t@, i as nat, width as nat),
        decreases t.comments.len() - i,
    {
        let ghost before = messages_among(t@, i as nat, width as nat);
        push_message(t, i, width, &mut out);
        assert(head + before + message_lines(t@, i as int, width as nat) == head + (before
            + message_lines(t@, i as int, width as nat)));
        i += 1;
    }
    out.push(line_of(t, None, CommentKind::Actions));
    out.push(line_of(t, None, CommentKind::Bottom));
    assert(strs::views(out@) == thread_box(t@, width as nat));
    out
}

/// `here` tells of every thread whether it is on the file shown under `path`.
pub open spec fn on_path(threads: Seq<ThreadV>, path: Seq<char>, here: Seq<bool>) -> bool {
    &&& here.len() == threads.len()
    &&& forall|i: int|
        0 <= i < threads.len() ==> #[trigger] here[i] == paths::same(threads[i].file, path)
}

/// Whether thread `i` is on the file shown under `path`, for every `i`.
pub fn threads_on(comments: &CommentStore, path: &str) -> (r: Vec<bool>)
    ensures
        on_path(comments@, path@, r@),
{
    let mut r: Vec<bool> = Vec::new();
    let mut i: usize = 0;
    while i < comments.threads.len()
        invariant
            0 <= i <= comments.threads.len(),
            r@.len() == i,
            forall|k: int|
                0 <= k < i ==> #[trigger] r@[k] == paths::same(comments@[k].file, path@),
        decreases comments.threads.len() - i,
    {
        assert(comments.threads@[i as int]@ == comments@[i as int]);
        r.push(paths::same_path(comments.threads[i].file.as_str(), path));
        i += 1;
    }
    r
}

/// The line's number on a side.
pub open spec fn line_on(l: DiffLineV, side: Side) -> Option<u32> {
    match side {
        Side::Old => l.old_line,
        Side::New => l.new_line,
    }
}

/// The larger of `best` and the line's number, where that lies in the range.
pub open spec fn better(best: Option<u32>, l: Option<u32>, range: LineRange) -> Option<u32> {
    match l {
        Some(n) => if range.start <= n <= range.end && (best is None || best->0 < n) {
            Some(n)
        } else {
            best
        },
        None => best,
    }
}

/// The largest of `best` and the numbers in range of the first `n` lines.
pub open spec fn best_in_lines(
    lines: Seq<DiffLineV>,
    n: nat,
    side: Side,
    range: LineRange,
    best: Option<u32>,
) -> Option<u32>
    decreases n,
{
    if n == 0 {
        best
    } else {
        better(
            best_in_lines(lines, (n - 1) as nat, side, range, best),
            line_on(lines[n - 1], side),
            range,
        )
    }
}

/// The largest line number in range of the first `n` hunks.
pub open spec fn best_in_hunks(hunks: Seq<HunkV>, n: nat, side: Side, range: LineRange) -> Option<
    u32,
>
    decreases n,
{
    if n == 0 {
        None
    } else {
        let h = hunks[n - 1];
        best_in_lines(
            h.lines,
            h.lines.len(),
            side,
            range,
            best_in_hunks(hunks, (n - 1) as nat, side, range),
        )
    }
}

/// The last line of a thread's range that is present in the diff of `file`.
pub open spec fn last_line(file: DiffFileV, t: ThreadV) -> Option<u32> {
    best_in_hunks(file.hunks, file.hunks.len(), t.side, t.range)
}

/// Where a thread's box goes: its id, and the line it stands behind.
#[derive(Debug)]
pub struct Anchored {
    pub id: String,
    pub side: Side,
    pub line: u32,
}

/// What an [`Anchored`] says.
#[verifier::ext_equal]
pub struct AnchoredV {
    pub id: Seq<char>,
    pub side: Side,
    pub line: u32,
}

impl View for Anchored {
    type V = AnchoredV;

    open spec fn view(&self) -> AnchoredV {
        AnchoredV { id: self.id@, side: self.side, line: self.line }
    }
}

/// The anchors of those of the first `n` threads that are on `file` and have a line in it.
pub open spec fn anchors_in_file(file: DiffFileV, threads: Seq<ThreadV>, n: nat) -> Seq<AnchoredV>
    decreases n,
{
    if n == 0 {
        Seq::empty()
    } else {
        let before = anchors_in_file(file, threads, (n - 1) as nat);
        let t = threads[n - 1];
        if paths::same(t.file, file.display_path()) && last_line(file, t) is Some {
            before.push(AnchoredV { id: t.id, side: t.side, line: last_line(file, t)->0 })
        } else {
            before
        }
    }
}

/// The anchors of the threads in the first `n` files.
pub open spec fn anchors_in(files: Seq<DiffFileV>, threads: Seq<ThreadV>, n: nat) -> Seq<AnchoredV>
    decreases n,
{
    if n == 0 {
        Seq::empty()
    } else {
        anchors_in(files, threads, (n - 1) as nat) + anchors_in_file(
            files[n - 1],
            threads,
            threads.len(),
        )
    }
}

/// The anchor of the thread with this id: the last one found for it.
pub open spec fn anchor_of(last: Seq<AnchoredV>, id: Seq<char>) -> Option<(Side, u32)>
    decreases last.len(),
{
    if last.len() == 0 {
        None
    } else if last.last().id == id {
        Some((last.last().side, last.last().line))
    } else {
        anchor_of(last.drop_last(), id)
    }
}

fn line_number(l: &DiffLine, side: Side) -> (r: Option<u32>)
    ensures
        r == line_on(l@, side),
{
    match side {
        Side::Old => l.old_line,
        Side::New => l.new_line,
    }
}

/// The last line of a thread's range that is present in the diff of `file`.
fn last_line_in(file: &DiffFile, t: &Thread) -> (r: Option<u32>)
    ensures
        r == last_line(file@, t@),
{
    let mut best: Option<u32> = None;
    let mut h: usize = 0;
    while h < file.hunks.len()
        invariant
            0 <= h <= file.hunks.len(),
            best == best_in_hunks(file@.hunks, h as nat, t.side, t.range),
        decreases file.hunks.len() - h,
    {
        let hunk = &file.hunks[h];
        assert(hunk@ == file@.hunks[h as int]);
        let ghost start = best;
        let mut i: usize = 0;
        while i < hunk.lines.len()
            invariant
                0 <= i <= hunk.lines.len(),
                best == best_in_lines(hunk@.lines, i as nat, t.side, t.range, start),
            decreases hunk.lines.len() - i,
        {
            assert(hunk.lines@[i as int]@ == hunk@.lines[i as int]);
            if let Some(n) = line_number(&hunk.lines[i], t.side) {
                let larger = match best {
                    Some(b) => b < n,
                    None => true,
                };
                if t.range.contains(n) && larger {
                    best = Some(n);
                }
            }
            i += 1;
        }
        h += 1;
    }
    best
}

/// The last anchor in the diff of `file` of each thread on it: a range comment renders
/// after this line, so its box sits below the last selected line.
pub fn last_anchor_lines_for(file: &DiffFile, comments: &CommentStore) -> (r: Vec<Anchored>)
    ensures
        strs::views(r@) == anchors_in_file(file@, comments@, comments@.len()),
{
    broadcast use strs::lemma_views_push;

    let here = threads_on(comments, file.display_path());
    let mut out: Vec<Anchored> = Vec::new();
    let mut i: usize = 0;
    assert(strs::views(out@) == Seq::<AnchoredV>::empty());
    while i < comments.threads.len()
        invariant
            on_path(comments@, file@.display_path(), here@),
            0 <= i <= comments.threads.len(),
            strs::views(out@) == anchors_in_file(file@, comments@, i as nat),
        decreases comments.threads.len() - i,
    {
        let t = &comments.threads[i];
        assert(t@ == comments@[i as int]);
        assert(here@[i as int] == paths::same(comments@[i as int].file, file@.display_path()));
        if here[i] {
            if let Some(l) = last_line_in(file, t) {
                out.push(Anchored { id: t.id.clone(), side: t.side, line: l });
            }
        }
        i += 1;
    }
    out
}

/// The last anchor of each thread across the whole changeset.
pub fn last_anchor_lines(changeset: &Changeset, comments: &CommentStore) -> (r: Vec<Anchored>)
    ensures
        strs::views(r@) == anchors_in(changeset@, comments@, changeset@.len()),
{
    let mut out: Vec<Anchored> = Vec::new();
    let mut i: usize = 0;
    assert(strs::views(out@) == Seq::<AnchoredV>::empty());
    while i < changeset.files.len()
        invariant
            0 <= i <= changeset.files.len(),
            strs::views(out@) == anchors_in(changeset@, comments@, i as nat),
        decreases changeset.files.len() - i,
    {
        assert(changeset.files@[i as int]@ == changeset@[i as int]);
        let mut more = last_anchor_lines_for(&changeset.files[i], comments);
        let ghost a = out@;
        let ghost b = more@;
        out.append(&mut more);
        assert(strs::views(a + b) == strs::views(a) + strs::views(b));
        i += 1;
    }
    out
}

/// The anchor of the thread with this id.
fn anchor_for(last: &Vec<Anchored>, id: &str) -> (r: Option<(Side, u32)>)
    ensures
        r == anchor_of(strs::views(last@), id@),
{
    let mut i: usize = last.len();
    let ghost v = strs::views(last@);
    assert(v.take(v.len() as int) == v);
    while i > 0
        invariant
            v == strs::views(last@),
            i <= last.len(),
            anchor_of(v, id@) == anchor_of(v.take(i as int), id@),
        decreases i,
    {
        let a = &last[i - 1];
        assert(v.take(i as int).drop_last() == v.take(i - 1));
        assert(v.take(i as int).last() == a@);
        if same_text(a.id.as_str(), id) {
            return Some((a.side, a.line));
        }
        i -= 1;
    }
    None
}

/// What a build of rows goes by.
#[verifier::ext_equal]
pub struct BuildV {
    pub threads: Seq<ThreadV>,
    pub last: Seq<AnchoredV>,
    pub width: nat,
    pub composer: Option<ComposerV>,
}

/// Whether thread `t` belongs behind a row with these anchors; without anchors, anywhere.
pub open spec fn belongs(b: BuildV, anchors: Option<Seq<(Side, u32)>>, t: ThreadV) -> bool {
    match anchors {
        Some(a) => match anchor_of(b.last, t.id) {
            Some(at) => a.contains(at),
            None => false,
        },
        None => true,
    }
}

/// The lines of a thread's box as rows to inject on its side.
pub open spec fn comment_rows(t: ThreadV, lines: Seq<CommentLineV>) -> Seq<(Side, InjectedV)> {
    Seq::new(lines.len(), |i: int| (t.side, InjectedV::Comment(lines[i])))
}

/// The lines of a composer's box as rows to inject on the thread's side.
pub open spec fn composer_rows(t: ThreadV, lines: Seq<ComposerKindV>) -> Seq<(Side, InjectedV)> {
    Seq::new(lines.len(), |i: int| (t.side, InjectedV::Composer(lines[i])))
}

/// Whether the composer replies to the thread.
pub open spec fn replies_to(c: Option<ComposerV>, t: ThreadV) -> bool {
    match c {
        Some(spec) => spec.anchor == (ComposerAnchorV::Reply { thread_id: t.id }),
        None => false,
    }
}

/// The rows of a thread: its box, and directly under it the composer that replies to it.
pub open spec fn thread_rows(b: BuildV, t: ThreadV) -> Seq<(Side, InjectedV)> {
    let rows = comment_rows(t, thread_box(t, b.width));
    if replies_to(b.composer, t) {
        rows + composer_rows(t, composer_box(b.composer->0, b.width))
    } else {
        rows
    }
}

/// The rows of those of the first `n` threads that are on `path`, are not out already and
/// belong here, and the ids that are out then.
pub open spec fn inject_among(
    b: BuildV,
    path: Seq<char>,
    anchors: Option<Seq<(Side, u32)>>,
    n: nat,
    ids: Seq<Seq<char>>,
) -> (Seq<(Side, InjectedV)>, Seq<Seq<char>>)
    decreases n,
{
    if n == 0 {
        (Seq::empty(), ids)
    } else {
        let (rows, out) = inject_among(b, path, anchors, (n - 1) as nat, ids);
        let t = b.threads[n - 1];
        if paths::same(t.file, path) && !out.contains(t.id) && belongs(b, anchors, t) {
            (rows + thread_rows(b, t), out.push(t.id))
        } else {
            (rows, out)
        }
    }
}

/// The rows of the threads to inject, and the ids that are out then.
pub open spec fn inject(
    b: BuildV,
    path: Seq<char>,
    anchors: Option<Seq<(Side, u32)>>,
    ids: Seq<Seq<char>>,
) -> (Seq<(Side, InjectedV)>, Seq<Seq<char>>) {
    inject_among(b, path, anchors, b.threads.len(), ids)
}

/// The inputs of a build of rows.
pub struct Build<'a> {
    pub comments: &'a CommentStore,
    pub last: Vec<Anchored>,
    pub width: usize,
    pub composer: Option<&'a ComposerSpec>,
}

impl<'a> View for Build<'a> {
    type V = BuildV;

    open spec fn view(&self) -> BuildV {
        BuildV {
            threads: self.comments@,
            last: strs::views(self.last@),
            width: self.width as nat,
            composer: composer_view(self.composer),
        }
    }
}

/// Views of rows to inject.
pub open spec fn injected(s: Seq<(Side, Injected)>) -> Seq<(Side, InjectedV)> {
    Seq::new(s.len(), |i: int| (s[i].0, s[i].1@))
}

/// Whether `ids` holds `id`.
pub fn has_id(ids: &Vec<String>, id: &str) -> (r: bool)
    ensures
        r == strs::views(ids@).contains(id@),
{
    let mut i: usize = 0;
    while i < ids.len()
        invariant
            0 <= i <= ids.len(),
            forall|k: int| 0 <= k < i ==> #[trigger] strs::views(ids@)[k] != id@,
        decreases ids.len() - i,
    {
        assert(strs::views(ids@)[i as int] == ids@[i as int]@);
        if same_text(ids[i].as_str(), id) {
            return true;
        }
        i += 1;
    }
    false
}

fn has_anchor(anchors: &Vec<(Side, u32)>, at: (Side, u32)) -> (r: bool)
    ensures
        r == anchors@.contains(at),
{
    let mut i: usize = 0;
    while i < anchors.len()
        invariant
            0 <= i <= anchors.len(),
            forall|k: int| 0 <= k < i ==> #[trigger] anchors@[k] != at,
        decreases anchors.len() - i,
    {
        let a = anchors[i];
        if a.0 == at.0 && a.1 == at.1 {
            assert(anchors@[i as int] == at);
            return true;
        }
        i += 1;
    }
    false
}

/// The optional anchors of a row.
pub open spec fn anchors_view(a: Option<&Vec<(Side, u32)>>) -> Option<Seq<(Side, u32)>> {
    match a {
        Some(v) => Some(v@),
        None => None,
    }
}

fn push_thread_rows(b: &Build, t: &Thread, out: &mut Vec<(Side, Injected)>)
    ensures
        injected(final(out)@) == injected(old(out)@) + thread_rows(b@, t@),
{
    let ghost o = injected(out@);
    let lines = thread_lines(t, b.width);
    let ghost all = comment_rows(t@, strs::views(lines@));
    let ghost n = lines@.len() as int;
    let ghost vs = lines@;
    assert(o + all.take(0) == o);
    for line in it: lines
        invariant
            it.seq() == vs,
            n == vs.len(),
            all == comment_rows(t@, strs::views(vs)),
            injected(out@) == o + all.take(it.index() as int),
    {
        let ghost before = out@;
        out.push((t.side, Injected::Comment(line)));
        let ghost k = it.index() as int;
        assert(all.take(k + 1) == all.take(k).push(all[k]));
        assert(all[k] == (t.side, InjectedV::Comment(line@)));
        assert(injected(out@) == injected(before).push(all[k]));
        assert(injected(out@) == o + all.take(k + 1));
    }
    assert(all.take(n) == all);
    if let Some(spec) = b.composer {
        let replies = match &spec.anchor {
            ComposerAnchor::Reply { thread_id } => same_text(thread_id.as_str(), t.id.as_str()),
            _ => false,
        };
        if replies {
            let lines = composer_lines(spec, b.width);
            let ghost o2 = injected(out@);
            let ghost all2 = composer_rows(t@, strs::views(lines@));
            let ghost n = lines@.len() as int;
            let ghost vs = lines@;
            assert(o2 + all2.take(0) == o2);
            for line in it: lines
                invariant
                    it.seq() == vs,
                    n == vs.len(),
                    all2 == composer_rows(t@, strs::views(vs)),
                    injected(out@) == o2 + all2.take(it.index() as int),
            {
                let ghost before = out@;
                out.push((t.side, Injected::Composer(line)));
                let ghost k = it.index() as int;
                assert(all2.take(k + 1) == all2.take(k).push(all2[k]));
                assert(all2[k] == (t.side, InjectedV::Composer(line@)));
                assert(injected(out@) == injected(before).push(all2[k]));
                assert(injected(out@) == o2 + all2.take(k + 1));
            }
            assert(all2.take(n) == all2);
            assert(o + all + all2 == o + (all + all2));
        }
    }
}

fn inject_threads(
    b: &Build,
    here: &Vec<bool>,
    path: Ghost<Seq<char>>,
    anchors: Option<&Vec<(Side, u32)>>,
    emitted: &mut Vec<String>,
) -> (out: Vec<(Side, Injected)>)
    requires
        on_path(b@.threads, path@, here@),
    ensures
        (injected(out@), strs::views(final(emitted)@)) == inject(
            b@,
            path@,
            anchors_view(anchors),
            strs::views(old(emitted)@),
        ),
{
    broadcast use strs::lemma_views_push;

    let ghost ids = strs::views(emitted@);
    let ghost a = anchors_view(anchors);
    let mut out: Vec<(Side, Injected)> = Vec::new();
    let mut i: usize = 0;
    assert(injected(out@) == Seq::<(Side, InjectedV)>::empty());
    while i < b.comments.threads.len()
        invariant
            a == anchors_view(anchors),
            on_path(b@.threads, path@, here@),
            0 <= i <= b.comments.threads.len(),
            (injected(out@), strs::views(emitted@)) == inject_among(b@, path@, a, i as nat, ids),
        decreases b.comments.threads.len() - i,
    {
        let t = &b.comments.threads[i];
        assert(t@ == b@.threads[i as int]);
        assert(here@[i as int] == paths::same(b@.threads[i as int].file, path@));
        if here[i] && !has_id(emitted, t.id.as_str()) {
            let fits = match anchors {
                Some(v) => match anchor_for(&b.last, t.id.as_str()) {
                    Some(at) => has_anchor(v, at),
                    None => false,
                },
                None => true,
            };
            if fits {
                emitted.push(t.id.clone());
                push_thread_rows(b, t, &mut out);
            }
        }
        i += 1;
    }
    out
}

/// Inline-comment lines to inject after a code row, for every thread on `path` whose last
/// in-diff anchor line is one of the row's `(side, line)` anchors. `emitted` guards against
/// a repeated emit.
pub(crate) fn comment_rows_for(
    b: &Build,
    here: &Vec<bool>,
    path: Ghost<Seq<char>>,
    anchors: &Vec<(Side, u32)>,
    emitted: &mut Vec<String>,
) -> (out: Vec<(Side, Injected)>)
    requires
        on_path(b@.threads, path@, here@),
    ensures
        (injected(out@), strs::views(final(emitted)@)) == inject(
            b@,
            path@,
            Some(anchors@),
            strs::views(old(emitted)@),
        ),
{
    inject_threads(b, here, path, Some(anchors), emitted)
}

/// Threads on `path` that never matched a visible diff line. Their anchor sits outside
/// every shown hunk. Such a thread is still counted by the sidebar's comment dot, so without
/// this it would be advertised yet unreachable. Emitted once, after the file's hunks.
pub(crate) fn orphan_thread_rows(
    b: &Build,
    here: &Vec<bool>,
    path: Ghost<Seq<char>>,
    emitted: &mut Vec<String>,
) -> (out: Vec<(Side, Injected)>)
    requires
        on_path(b@.threads, path@, here@),
    ensures
        (injected(out@), strs::views(final(emitted)@)) == inject(
            b@,
            path@,
            None,
            strs::views(old(emitted)@),
        ),
{
    inject_threads(b, here, path, None, emitted)
}

} // verus!
