//! Parse a unified diff into the normalized [`Changeset`] model.
//!
//! Text hunks (`@@` headers, line prefixes, `\ No newline at end of file`, etc.) are read by
//! the `patch` crate. A small scan for hunk-less git metadata entries (pure renames,
//! mode-only changes, empty-file adds/deletes) supplements it, so they do not disappear.
use crate::diff::grammar;
use crate::diff::grammar::is_readable;
use crate::diff::model::{Changeset, DiffFile, DiffFileV, DiffLine, DiffLineV, Hunk, HunkV, LineKind};
use crate::strs;
use crate::strs::{cut_prefix, cut_suffix, has_prefix, lines_of, part, split_text, split_words};
use vstd::prelude::*;

verus! {

/// A hunk as it is read: first line and number of lines on either side, what stands behind
/// the second `@@`, and the lines with their prefix: `+`, `-` or a space.
#[derive(Debug)]
pub struct RawHunk {
    pub old: (u64, u64),
    pub new: (u64, u64),
    pub hint: String,
    pub lines: Vec<String>,
}

/// A patch as it is read.
#[derive(Debug)]
pub struct RawPatch {
    pub old: String,
    pub new: String,
    pub hunks: Vec<RawHunk>,
}

/// What a [`RawHunk`] says.
#[verifier::ext_equal]
pub struct RawHunkV {
    pub old: (u64, u64),
    pub new: (u64, u64),
    pub hint: Seq<char>,
    pub lines: Seq<Seq<char>>,
}

/// What a [`RawPatch`] says.
#[verifier::ext_equal]
pub struct RawPatchV {
    pub old: Seq<char>,
    pub new: Seq<char>,
    pub hunks: Seq<RawHunkV>,
}

impl View for RawHunk {
    type V = RawHunkV;

    open spec fn view(&self) -> RawHunkV {
        RawHunkV { old: self.old, new: self.new, hint: self.hint@, lines: strs::views(self.lines@) }
    }
}

impl View for RawPatch {
    type V = RawPatchV;

    open spec fn view(&self) -> RawPatchV {
        RawPatchV { old: self.old@, new: self.new@, hunks: strs::views(self.hunks@) }
    }
}

/// What `patch::Patch::from_multiple` gives for a text: the patches, or the message of its
/// error.
pub uninterp spec fn patches_in(input: Seq<char>) -> Result<Seq<RawPatchV>, Seq<char>>;

/// The view of what was read.
pub open spec fn read_view(r: Result<Vec<RawPatch>, String>) -> Result<Seq<RawPatchV>, Seq<char>> {
    match r {
        Ok(v) => Ok(strs::views(v@)),
        Err(e) => Err(e@),
    }
}

/// `patch::Patch::from_multiple`: the patches of a text that it can read without a panic. It
/// gives an error exactly where the text holds no patch.
#[verifier::external_body]
fn read_patches(input: &str) -> (r: Result<Vec<RawPatch>, String>)
    requires
        grammar::readable(input@),
    ensures
        read_view(r) == patches_in(input@),
        r is Err <==> grammar::patches(input@) is Fail,
{
    let hunk = |h: &patch::Hunk| RawHunk {
        old: (h.old_range.start, h.old_range.count),
        new: (h.new_range.start, h.new_range.count),
        hint: h.range_hint.to_string(),
        lines: h.lines.iter().map(|l| l.to_string()).collect() };
    let file = |p: &patch::Patch| RawPatch {
        old: p.old.path.to_string(),
        new: p.new.path.to_string(),
        hunks: p.hunks.iter().map(hunk).collect() };
    patch::Patch::from_multiple(input)
        .map(|v| v.iter().map(file).collect())
        .map_err(|e| e.to_string())
}

/// A path without white space around it and without git's `a/` or `b/` in front.
pub open spec fn clean_path(path: Seq<char>) -> Seq<char> {
    let p = strs::trimmed(path);
    match strs::without_prefix(p, "a/"@) {
        Some(r) => r,
        None => match strs::without_prefix(p, "b/"@) {
            Some(r) => r,
            None => p,
        },
    }
}

fn strip_prefix(path: &str) -> (r: String)
    ensures
        r@ == clean_path(path@),
{
    let p = strs::trim(path);
    match cut_prefix(p.as_str(), "a/") {
        Some(r) => r,
        None => match cut_prefix(p.as_str(), "b/") {
            Some(r) => r,
            None => p,
        },
    }
}

/// The line number behind `n`.
pub open spec fn after(n: u32) -> u32 {
    if n == u32::MAX {
        0
    } else {
        (n + 1) as u32
    }
}

/// The kind of a line, by its prefix.
pub open spec fn line_kind(line: Seq<char>) -> LineKind {
    if line.len() > 0 && line[0] == '+' {
        LineKind::Addition
    } else if line.len() > 0 && line[0] == '-' {
        LineKind::Deletion
    } else {
        LineKind::Context
    }
}

/// A line without its prefix.
pub open spec fn line_text(line: Seq<char>) -> Seq<char> {
    if line.len() > 0 {
        line.skip(1)
    } else {
        line
    }
}

/// The first `n` lines of a hunk with their line numbers, and the numbers that come next.
pub open spec fn numbered(
    lines: Seq<Seq<char>>,
    n: nat,
    old_start: u32,
    new_start: u32,
) -> (Seq<DiffLineV>, u32, u32)
    decreases n,
{
    if n == 0 {
        (Seq::empty(), old_start, new_start)
    } else {
        let (before, o, w) = numbered(lines, (n - 1) as nat, old_start, new_start);
        let kind = line_kind(lines[n - 1]);
        let text = line_text(lines[n - 1]);
        match kind {
            LineKind::Context => (
                before.push(DiffLineV { kind, old_line: Some(o), new_line: Some(w), text }),
                after(o),
                after(w),
            ),
            LineKind::Deletion => (
                before.push(DiffLineV { kind, old_line: Some(o), new_line: None, text }),
                after(o),
                w,
            ),
            LineKind::Addition => (
                before.push(DiffLineV { kind, old_line: None, new_line: Some(w), text }),
                o,
                after(w),
            ),
        }
    }
}

/// The heading behind the second `@@`, if there is one.
pub open spec fn section(hint: Seq<char>) -> Option<Seq<char>> {
    let h = strs::trimmed(hint);
    if h.len() == 0 {
        None
    } else {
        Some(h)
    }
}

/// A hunk as it is read, in the model. Numbers are taken modulo 2^32.
pub open spec fn hunk_of(h: RawHunkV) -> HunkV {
    let old_start = h.old.0 as u32;
    let new_start = h.new.0 as u32;
    HunkV {
        old_start,
        old_count: h.old.1 as u32,
        new_start,
        new_count: h.new.1 as u32,
        section: section(h.hint),
        lines: numbered(h.lines, h.lines.len(), old_start, new_start).0,
    }
}

/// A patch as it is read, in the model.
pub open spec fn file_of(p: RawPatchV) -> DiffFileV {
    DiffFileV {
        old_path: clean_path(p.old),
        new_path: clean_path(p.new),
        hunks: Seq::new(p.hunks.len(), |i: int| hunk_of(p.hunks[i])),
        is_binary: false,
    }
}

/// Patches as they are read, in the model.
pub open spec fn files_of(ps: Seq<RawPatchV>) -> Seq<DiffFileV> {
    Seq::new(ps.len(), |i: int| file_of(ps[i]))
}

pub(crate) fn next_number(n: u32) -> (r: u32)
    ensures
        r == after(n),
{
    if n == u32::MAX {
        0
    } else {
        n + 1
    }
}

pub(crate) fn hint_section(hint: &str) -> (r: Option<String>)
    ensures
        strs::opt_view(r) == section(hint@),
{
    let h = strs::trim(hint);
    if h.as_str().is_empty() {
        None
    } else {
        Some(h)
    }
}

fn part_line(line: &str) -> (r: (LineKind, String))
    ensures
        r.0 == line_kind(line@),
        r.1@ == line_text(line@),
{
    let chars = strs::chars_of(line);
    if chars.len() == 0 {
        return (LineKind::Context, String::new());
    }
    let kind = if chars[0] == '+' {
        LineKind::Addition
    } else if chars[0] == '-' {
        LineKind::Deletion
    } else {
        LineKind::Context
    };
    let mut text = String::new();
    let mut i: usize = 1;
    assert(text@ == chars@.subrange(1, 1));
    while i < chars.len()
        invariant
            1 <= i <= chars.len(),
            text@ == chars@.subrange(1, i as int),
        decreases chars.len() - i,
    {
        text.push(chars[i]);
        assert(chars@.subrange(1, i + 1) == chars@.subrange(1, i as int).push(chars@[i as int]));
        i += 1;
    }
    assert(chars@.subrange(1, i as int) == line@.skip(1));
    (kind, text)
}

fn convert_hunk(h: &RawHunk) -> (r: Hunk)
    ensures
        r@ == hunk_of(h@),
{
    broadcast use strs::lemma_views_push;

    let old_start: u32 = #[verifier::truncate]
    (h.old.0 as u32);
    let new_start: u32 = #[verifier::truncate]
    (h.new.0 as u32);
    let mut old_no: u32 = old_start;
    let mut new_no: u32 = new_start;
    let mut lines: Vec<DiffLine> = Vec::new();
    let mut i: usize = 0;
    assert(strs::views(lines@) == Seq::<DiffLineV>::empty());
    while i < h.lines.len()
        invariant
            0 <= i <= h.lines.len(),
            (strs::views(lines@), old_no, new_no) == numbered(
                h@.lines,
                i as nat,
                old_start,
                new_start,
            ),
        decreases h.lines.len() - i,
    {
        assert(h.lines@[i as int]@ == h@.lines[i as int]);
        let (kind, text) = part_line(h.lines[i].as_str());
        let (old_line, new_line) = match kind {
            LineKind::Context => {
                let r = (Some(old_no), Some(new_no));
                old_no = next_number(old_no);
                new_no = next_number(new_no);
                r
            },
            LineKind::Deletion => {
                let r = (Some(old_no), None);
                old_no = next_number(old_no);
                r
            },
            LineKind::Addition => {
                let r = (None, Some(new_no));
                new_no = next_number(new_no);
                r
            },
        };
        let ghost before = lines@;
        lines.push(DiffLine { kind, old_line, new_line, text });
        assert(strs::views(lines@) == strs::views(before).push(
            DiffLineV { kind, old_line, new_line, text: text@ },
        ));
        i += 1;
    }
    Hunk {
        old_start,
        old_count: #[verifier::truncate]
        (h.old.1 as u32),
        new_start,
        new_count: #[verifier::truncate]
        (h.new.1 as u32),
        section: hint_section(h.hint.as_str()),
        lines,
    }
}

fn convert(p: &RawPatch) -> (r: DiffFile)
    ensures
        r@ == file_of(p@),
{
    broadcast use strs::lemma_views_push;

    let ghost all = file_of(p@).hunks;
    let mut hunks: Vec<Hunk> = Vec::new();
    let mut i: usize = 0;
    while i < p.hunks.len()
        invariant
            all == file_of(p@).hunks,
            0 <= i <= p.hunks.len(),
            strs::views(hunks@) == all.take(i as int),
        decreases p.hunks.len() - i,
    {
        assert(p.hunks@[i as int]@ == p@.hunks[i as int]);
        let ghost before = hunks@;
        hunks.push(convert_hunk(&p.hunks[i]));
        assert(strs::views(hunks@) == strs::views(before).push(all[i as int]));
        assert(all.take(i + 1) == all.take(i as int).push(all[i as int]));
        i += 1;
    }
    assert(all.take(all.len() as int) == all);
    DiffFile {
        old_path: strip_prefix(p.old.as_str()),
        new_path: strip_prefix(p.new.as_str()),
        hunks,
        is_binary: false,
    }
}

/// Whether a line marks a text as a unified diff.
pub open spec fn patch_line(l: Seq<char>) -> bool {
    strs::starts_with(l, "--- "@) || strs::starts_with(l, "diff --git "@) || strs::starts_with(
        l,
        "@@ -"@,
    )
}

/// Whether a text has a line that marks it as a unified diff.
pub open spec fn patch_like(input: Seq<char>) -> bool {
    exists|i: int| 0 <= i < strs::lines(input).len() && patch_line(#[trigger] strs::lines(input)[i])
}

/// Heuristic: does `input` contain a line that marks it as a unified diff? `@@ -` is the real
/// hunk-header prefix; a bare `@@` also starts other texts (email quotes, logs).
fn looks_like_patch(input: &str) -> (r: bool)
    ensures
        r == patch_like(input@),
{
    let lines = lines_of(input);
    let ghost lv = strs::lines(input@);
    let mut i: usize = 0;
    while i < lines.len()
        invariant
            lv == strs::lines(input@),
            lv == strs::views(lines@),
            0 <= i <= lines.len(),
            forall|k: int| 0 <= k < i ==> !patch_line(#[trigger] lv[k]),
        decreases lines.len() - i,
    {
        let l = lines[i].as_str();
        assert(l@ == lv[i as int]);
        if has_prefix(l, "--- ") || has_prefix(l, "diff --git ") || has_prefix(l, "@@ -") {
            return true;
        }
        i += 1;
    }
    assert(lv.len() == lines@.len());
    false
}

/// A file without hunks.
pub open spec fn bare_file(old_path: Seq<char>, new_path: Seq<char>, is_binary: bool) -> DiffFileV {
    DiffFileV { old_path, new_path, hunks: Seq::empty(), is_binary }
}

fn file_without_hunks(old_path: String, new_path: String, is_binary: bool) -> (r: DiffFile)
    ensures
        r@ == bare_file(old_path@, new_path@, is_binary),
{
    let r = DiffFile { old_path, new_path, hunks: Vec::new(), is_binary };
    assert(r@.hunks == Seq::<HunkV>::empty());
    r
}

/// The binary file that a line speaks of: `Binary files a/x and b/y differ`.
pub open spec fn binary_in(line: Seq<char>) -> Option<DiffFileV> {
    match strs::without_prefix(strs::trimmed(line), "Binary files "@) {
        Some(r) => match strs::without_suffix(r, " differ"@) {
            Some(rest) => match strs::parted(rest, " and "@) {
                Some((a, b)) => Some(bare_file(clean_path(a), clean_path(b), true)),
                None => None,
            },
            None => None,
        },
        None => None,
    }
}

/// The binary files that the first `n` lines speak of.
pub open spec fn binaries_among(lines: Seq<Seq<char>>, n: nat) -> Seq<DiffFileV>
    decreases n,
{
    if n == 0 {
        Seq::empty()
    } else {
        let before = binaries_among(lines, (n - 1) as nat);
        match binary_in(lines[n - 1]) {
            Some(f) => before.push(f),
            None => before,
        }
    }
}

/// The binary files that a text speaks of.
pub open spec fn binaries(input: Seq<char>) -> Seq<DiffFileV> {
    binaries_among(strs::lines(input), strs::lines(input).len())
}

/// The view of an optional file.
pub open spec fn opt_file(f: Option<DiffFile>) -> Option<DiffFileV> {
    match f {
        Some(f) => Some(f@),
        None => None,
    }
}

fn binary_of(line: &str) -> (r: Option<DiffFile>)
    ensures
        opt_file(r) == binary_in(line@),
{
    let t = strs::trim(line);
    let r = match cut_prefix(t.as_str(), "Binary files ") {
        Some(r) => r,
        None => return None,
    };
    let rest = match cut_suffix(r.as_str(), " differ") {
        Some(r) => r,
        None => return None,
    };
    match part(rest.as_str(), " and ") {
        Some((a, b)) => Some(
            file_without_hunks(strip_prefix(a.as_str()), strip_prefix(b.as_str()), true),
        ),
        None => None,
    }
}

/// Scan for git's `Binary files a/x and b/y differ` markers and turn each into a hunk-less
/// binary [`DiffFile`]. A `/dev/null` side encodes an add/delete.
fn binary_files(input: &str) -> (r: Vec<DiffFile>)
    ensures
        strs::views(r@) == binaries(input@),
{
    let lines = lines_of(input);
    let ghost lv = strs::lines(input@);
    let mut out: Vec<DiffFile> = Vec::new();
    let mut i: usize = 0;
    assert(strs::views(out@) == Seq::<DiffFileV>::empty());
    while i < lines.len()
        invariant
            lv == strs::views(lines@),
            0 <= i <= lines.len(),
            strs::views(out@) == binaries_among(lv, i as nat),
        decreases lines.len() - i,
    {
        assert(lines@[i as int]@ == lv[i as int]);
        if let Some(f) = binary_of(lines[i].as_str()) {
            let ghost before = out@;
            out.push(f);
            assert(strs::views(out@) == strs::views(before).push(f@));
        }
        i += 1;
    }
    assert(lv.len() == lines@.len());
    out
}

/// `s` without any number of `p` in front.
pub open spec fn without_all(s: Seq<char>, p: Seq<char>) -> Seq<char>
    decreases s.len(),
{
    if p.len() > 0 && strs::starts_with(s, p) {
        without_all(s.skip(p.len() as int), p)
    } else {
        s
    }
}

fn strip_all(s: &str, p: &str) -> (r: String)
    requires
        p@.len() > 0,
    ensures
        r@ == without_all(s@, p@),
{
    let mut rest = strs::owned(s);
    let mut more = true;
    while more
        invariant
            p@.len() > 0,
            without_all(rest@, p@) == without_all(s@, p@),
            !more ==> rest@ == without_all(s@, p@),
        decreases
            rest@.len(),
            if more {
                1int
            } else {
                0int
            },
    {
        match cut_prefix(rest.as_str(), p) {
            Some(r) => {
                rest = r;
            },
            None => {
                more = false;
            },
        }
    }
    rest
}

/// The paths of a `diff --git` line: its first two words, with `a/` and `b/` in front.
pub open spec fn header_paths(header: Seq<char>) -> Option<(Seq<char>, Seq<char>)> {
    let w = strs::words(header);
    if w.len() >= 2 && strs::starts_with(w[0], "a/"@) && strs::starts_with(w[1], "b/"@) {
        Some((clean_path(w[0]), clean_path(w[1])))
    } else {
        None
    }
}

fn parse_git_header(header: &str) -> (r: Option<(String, String)>)
    ensures
        strs::pair_view(r) == header_paths(header@),
{
    let w = split_words(header);
    assert(strs::views(w@).len() == w@.len());
    if w.len() < 2 {
        return None;
    }
    assert(strs::views(w@)[0] == w@[0]@);
    assert(strs::views(w@)[1] == w@[1]@);
    if !has_prefix(w[0].as_str(), "a/") || !has_prefix(w[1].as_str(), "b/") {
        return None;
    }
    Some((strip_prefix(w[0].as_str()), strip_prefix(w[1].as_str())))
}

/// What is known of a file from its git metadata.
#[verifier::ext_equal]
pub struct Meta {
    pub old_path: Seq<char>,
    pub new_path: Seq<char>,
    /// There are hunks, or a binary marker: the file is found otherwise.
    pub content: bool,
    pub added: bool,
    pub deleted: bool,
}

/// The path that a line gives behind its first word, and behind any number of `word`.
pub open spec fn path_behind(line: Seq<char>, word: Seq<char>) -> Seq<char> {
    match strs::parted(line, " "@) {
        Some((a, b)) => clean_path(without_all(b, word)),
        None => Seq::empty(),
    }
}

/// What a line adds to what is known.
pub open spec fn meta_line(m: Meta, line: Seq<char>) -> Meta {
    let starts = |p: Seq<char>| strs::starts_with(line, p);
    if starts("@@ -"@) || starts("--- "@) || starts("+++ "@) || strs::starts_with(
        strs::trimmed(line),
        "Binary files "@,
    ) {
        Meta { content: true, ..m }
    } else if starts("rename from "@) || starts("copy from "@) {
        Meta { old_path: path_behind(line, "from "@), ..m }
    } else if starts("rename to "@) || starts("copy to "@) {
        Meta { new_path: path_behind(line, "to "@), ..m }
    } else if starts("new file mode "@) {
        Meta { added: true, ..m }
    } else if starts("deleted file mode "@) {
        Meta { deleted: true, ..m }
    } else {
        m
    }
}

/// What the lines from the second to the `n`th add.
pub open spec fn meta_among(m: Meta, lines: Seq<Seq<char>>, n: nat) -> Meta
    decreases n,
{
    if n <= 1 {
        m
    } else {
        meta_line(meta_among(m, lines, (n - 1) as nat), lines[n - 1])
    }
}

/// The file that metadata describe, where there is nothing else of it.
pub open spec fn meta_file(m: Meta) -> Option<DiffFileV> {
    if m.content {
        None
    } else {
        Some(
            bare_file(
                if m.added {
                    "/dev/null"@
                } else {
                    m.old_path
                },
                if !m.added && m.deleted {
                    "/dev/null"@
                } else {
                    m.new_path
                },
                false,
            ),
        )
    }
}

/// The file without content that a block behind `diff --git ` describes.
pub open spec fn block_file(block: Seq<char>) -> Option<DiffFileV> {
    let lines = strs::lines(block);
    if lines.len() == 0 {
        None
    } else {
        match header_paths(strs::trimmed(lines[0])) {
            Some((old_path, new_path)) => meta_file(
                meta_among(
                    Meta { old_path, new_path, content: false, added: false, deleted: false },
                    lines,
                    lines.len(),
                ),
            ),
            None => None,
        }
    }
}

/// What is known of a file from its git metadata.
struct Facts {
    old_path: String,
    new_path: String,
    content: bool,
    added: bool,
    deleted: bool,
}

impl View for Facts {
    type V = Meta;

    closed spec fn view(&self) -> Meta {
        Meta {
            old_path: self.old_path@,
            new_path: self.new_path@,
            content: self.content,
            added: self.added,
            deleted: self.deleted,
        }
    }
}

fn named_path(line: &str, word: &str) -> (r: String)
    requires
        word@.len() > 0,
    ensures
        r@ == path_behind(line@, word@),
{
    match part(line, " ") {
        Some((_, b)) => strip_prefix(strip_all(b.as_str(), word).as_str()),
        None => String::new(),
    }
}

fn read_meta(m: Facts, line: &str) -> (r: Facts)
    ensures
        r@ == meta_line(m@, line@),
{
    let mut m = m;
    if has_prefix(line, "@@ -") || has_prefix(line, "--- ") || has_prefix(line, "+++ ")
        || has_prefix(strs::trim(line).as_str(), "Binary files ") {
        m.content = true;
    } else if has_prefix(line, "rename from ") || has_prefix(line, "copy from ") {
        proof {
            reveal_strlit("from ");
        }
        m.old_path = named_path(line, "from ");
    } else if has_prefix(line, "rename to ") || has_prefix(line, "copy to ") {
        proof {
            reveal_strlit("to ");
        }
        m.new_path = named_path(line, "to ");
    } else if has_prefix(line, "new file mode ") {
        m.added = true;
    } else if has_prefix(line, "deleted file mode ") {
        m.deleted = true;
    }
    m
}

fn parse_git_block(block: &str) -> (r: Option<DiffFile>)
    ensures
        opt_file(r) == block_file(block@),
{
    let lines = lines_of(block);
    let ghost lv = strs::lines(block@);
    assert(lv.len() == lines@.len());
    if lines.len() == 0 {
        return None;
    }
    assert(lines@[0]@ == lv[0]);
    let (old_path, new_path) = match parse_git_header(strs::trim(lines[0].as_str()).as_str()) {
        Some(p) => p,
        None => return None,
    };
    let mut m = Facts { old_path, new_path, content: false, added: false, deleted: false };
    let ghost m0 = m@;
    let mut i: usize = 1;
    while i < lines.len()
        invariant
            lv == strs::views(lines@),
            1 <= i <= lines.len(),
            m@ == meta_among(m0, lv, i as nat),
        decreases lines.len() - i,
    {
        assert(lines@[i as int]@ == lv[i as int]);
        m = read_meta(m, lines[i].as_str());
        i += 1;
    }
    if m.content {
        return None;
    }
    let old_path = if m.added {
        strs::owned("/dev/null")
    } else {
        m.old_path
    };
    let new_path = if !m.added && m.deleted {
        strs::owned("/dev/null")
    } else {
        m.new_path
    };
    Some(file_without_hunks(old_path, new_path, false))
}

/// A block without the `diff --git ` in front of the first one.
pub open spec fn block_body(block: Seq<char>) -> Seq<char> {
    match strs::without_prefix(block, "diff --git "@) {
        Some(r) => r,
        None => block,
    }
}

/// The files without content that the first `n` blocks describe.
pub open spec fn blocks_among(blocks: Seq<Seq<char>>, n: nat) -> Seq<DiffFileV>
    decreases n,
{
    if n == 0 {
        Seq::empty()
    } else {
        let before = blocks_among(blocks, (n - 1) as nat);
        match block_file(block_body(blocks[n - 1])) {
            Some(f) => if f.old_path.len() > 0 || f.new_path.len() > 0 {
                before.push(f)
            } else {
                before
            },
            None => before,
        }
    }
}

/// The files without content that a text describes: renames, mode changes, empty files.
pub open spec fn metadata_files(input: Seq<char>) -> Seq<DiffFileV> {
    let blocks = strs::split_at_all(input, "\ndiff --git "@);
    blocks_among(blocks, blocks.len())
}

fn metadata_only_files(input: &str) -> (r: Vec<DiffFile>)
    ensures
        strs::views(r@) == metadata_files(input@),
{
    proof {
        reveal_strlit("\ndiff --git ");
    }
    let blocks = split_text(input, "\ndiff --git ");
    let ghost bv = strs::views(blocks@);
    let mut out: Vec<DiffFile> = Vec::new();
    let mut i: usize = 0;
    assert(strs::views(out@) == Seq::<DiffFileV>::empty());
    while i < blocks.len()
        invariant
            bv == strs::views(blocks@),
            0 <= i <= blocks.len(),
            strs::views(out@) == blocks_among(bv, i as nat),
        decreases blocks.len() - i,
    {
        assert(blocks@[i as int]@ == bv[i as int]);
        let block = match cut_prefix(blocks[i].as_str(), "diff --git ") {
            Some(r) => r,
            None => blocks[i].clone(),
        };
        assert(block@ == block_body(bv[i as int]));
        if let Some(f) = parse_git_block(block.as_str()) {
            if !f.old_path.as_str().is_empty() || !f.new_path.as_str().is_empty() {
                let ghost before = out@;
                out.push(f);
                assert(strs::views(out@) == strs::views(before).push(f@));
            }
        }
        i += 1;
    }
    out
}

/// Whether two files have the same paths.
pub open spec fn same_paths(a: DiffFileV, b: DiffFileV) -> bool {
    a.old_path == b.old_path && a.new_path == b.new_path
}

/// Whether one of the files has the paths of `f`.
pub open spec fn has_paths(files: Seq<DiffFileV>, f: DiffFileV) -> bool {
    exists|i: int| 0 <= i < files.len() && same_paths(#[trigger] files[i], f)
}

/// `files`, and those of the first `n` candidates with paths that none has yet.
pub open spec fn with_missing(files: Seq<DiffFileV>, candidates: Seq<DiffFileV>, n: nat) -> Seq<
    DiffFileV,
>
    decreases n,
{
    if n == 0 {
        files
    } else {
        let before = with_missing(files, candidates, (n - 1) as nat);
        if has_paths(before, candidates[n - 1]) {
            before
        } else {
            before.push(candidates[n - 1])
        }
    }
}

fn is_among(files: &Vec<DiffFile>, f: &DiffFile) -> (r: bool)
    ensures
        r == has_paths(strs::views(files@), f@),
{
    let ghost fv = strs::views(files@);
    let mut i: usize = 0;
    while i < files.len()
        invariant
            fv == strs::views(files@),
            0 <= i <= files.len(),
            forall|k: int| 0 <= k < i ==> !same_paths(#[trigger] fv[k], f@),
        decreases files.len() - i,
    {
        assert(files@[i as int]@ == fv[i as int]);
        if files[i].old_path == f.old_path && files[i].new_path == f.new_path {
            assert(same_paths(fv[i as int], f@));
            return true;
        }
        i += 1;
    }
    false
}

fn extend_missing(files: &mut Vec<DiffFile>, candidates: Vec<DiffFile>)
    ensures
        strs::views(final(files)@) == with_missing(
            strs::views(old(files)@),
            strs::views(candidates@),
            candidates@.len(),
        ),
{
    let ghost o = strs::views(files@);
    let ghost cv = strs::views(candidates@);
    let ghost cs = candidates@;
    for c in it: candidates
        invariant
            it.seq() == cs,
            cv == strs::views(cs),
            strs::views(files@) == with_missing(o, cv, it.index() as nat),
    {
        assert(c@ == cv[it.index() as int]);
        if !is_among(files, &c) {
            let ghost before = files@;
            files.push(c);
            assert(strs::views(files@) == strs::views(before).push(c@));
        }
    }
}

/// What a text says, where `read` is what was read of it: the files with text hunks, then the
/// binary ones, then those that have no content, and the error where nothing was found in a
/// text that looks like a diff.
pub open spec fn report_of(read: Result<Seq<RawPatchV>, Seq<char>>, input: Seq<char>) -> (
    Seq<DiffFileV>,
    Option<Seq<char>>,
) {
    let text = match read {
        Ok(ps) => files_of(ps),
        Err(_) => Seq::empty(),
    };
    let more = metadata_files(input);
    let recovered = binaries(input).len() > 0 || more.len() > 0;
    (
        with_missing(text + binaries(input), more, more.len()),
        match read {
            Err(e) => if !recovered && patch_like(input) {
                Some(e)
            } else {
                None
            },
            Ok(_) => None,
        },
    )
}

fn convert_all(ps: &Vec<RawPatch>) -> (r: Vec<DiffFile>)
    ensures
        strs::views(r@) == files_of(strs::views(ps@)),
{
    let ghost all = files_of(strs::views(ps@));
    let mut out: Vec<DiffFile> = Vec::new();
    let mut i: usize = 0;
    assert(strs::views(out@) == all.take(0));
    while i < ps.len()
        invariant
            all == files_of(strs::views(ps@)),
            0 <= i <= ps.len(),
            strs::views(out@) == all.take(i as int),
        decreases ps.len() - i,
    {
        assert(ps@[i as int]@ == strs::views(ps@)[i as int]);
        let ghost before = out@;
        out.push(convert(&ps[i]));
        assert(strs::views(out@) == strs::views(before).push(all[i as int]));
        assert(all.take(i + 1) == all.take(i as int).push(all[i as int]));
        i += 1;
    }
    assert(all.take(all.len() as int) == all);
    out
}

/// Make a report of what was read of a text.
pub fn assemble(read: Result<Vec<RawPatch>, String>, input: &str) -> (r: (
    Changeset,
    Option<String>,
))
    ensures
        (r.0@, strs::opt_view(r.1)) == report_of(read_view(read), input@),
{
    let (files, parse_err) = match read {
        Ok(ps) => (convert_all(&ps), None),
        Err(e) => (Vec::new(), Some(e)),
    };
    let mut files = files;
    let ghost tv = strs::views(files@);
    assert(read_view(read) is Err ==> tv == Seq::<DiffFileV>::empty());
    let mut bins = binary_files(input);
    let ghost bv = strs::views(bins@);
    let more = metadata_only_files(input);
    assert(bv.len() == bins@.len());
    assert(strs::views(more@).len() == more@.len());
    let recovered = bins.len() > 0 || more.len() > 0;
    files.append(&mut bins);
    assert(strs::views(files@) == tv + bv);
    extend_missing(&mut files, more);
    let error = match parse_err {
        Some(e) => {
            if !recovered && looks_like_patch(input) {
                Some(e)
            } else {
                None
            }
        },
        None => None,
    };
    (Changeset { files }, error)
}

/// Parse a unified diff into a [`Changeset`], also reporting a human-readable error when the
/// text *looked* like a unified diff yet failed to parse.
///
/// The `patch` crate handles text hunks but skips binary entries, which are found by their
/// markers and appended as hunk-less files. It returns an error even for empty or non-patch
/// input, so the error is only surfaced where nothing was recovered and the text contains a
/// patch-like marker. That keeps a genuinely empty diff silent while flagging a malformed one.
pub fn parse_report(input: &str) -> (r: (Changeset, Option<String>))
    requires
        grammar::readable(input@),
    ensures
        (r.0@, strs::opt_view(r.1)) == report_of(patches_in(input@), input@),
        grammar::patches(input@) !is Fail ==> r.1 is None,
        grammar::patches(input@) is Fail && patch_like(input@) && r.0@.len() == 0 ==> r.1 is Some,
{
    let read = read_patches(input);
    let r = assemble(read, input);
    proof {
        lemma_missing(binaries(input@), metadata_files(input@), metadata_files(input@).len());
        assert(Seq::<DiffFileV>::empty() + binaries(input@) == binaries(input@));
    }
    r
}

/// As [`parse_report`], for any text: `None` where the reader of patches would panic.
pub fn try_parse(input: &str) -> (r: Option<(Changeset, Option<String>)>)
    ensures
        match r {
            Some((cs, e)) => grammar::readable(input@) && (cs@, strs::opt_view(e)) == report_of(
                patches_in(input@),
                input@,
            ),
            None => !grammar::readable(input@),
        },
{
    if is_readable(input) {
        Some(parse_report(input))
    } else {
        None
    }
}

proof fn lemma_missing(files: Seq<DiffFileV>, candidates: Seq<DiffFileV>, n: nat)
    requires
        n <= candidates.len(),
    ensures
        with_missing(files, candidates, n).len() >= files.len(),
        files.len() == 0 && n > 0 ==> with_missing(files, candidates, n).len() > 0,
    decreases n,
{
    if n > 0 {
        lemma_missing(files, candidates, (n - 1) as nat);
    }
}

/// A change that is found twice is listed once: no two of the files that come from metadata
/// alone have the same paths, and none has those of another file.
pub proof fn law_no_duplicates(files: Seq<DiffFileV>, candidates: Seq<DiffFileV>, n: nat)
    requires
        n <= candidates.len(),
    ensures
        ({
            let all = with_missing(files, candidates, n);
            &&& all.len() >= files.len()
            &&& all.take(files.len() as int) == files
            &&& forall|i: int, j: int|
                0 <= i < j < all.len() && files.len() <= j ==> !same_paths(
                    #[trigger] all[i],
                    #[trigger] all[j],
                )
        }),
    decreases n,
{
    if n > 0 {
        law_no_duplicates(files, candidates, (n - 1) as nat);
        let before = with_missing(files, candidates, (n - 1) as nat);
        let all = with_missing(files, candidates, n);
        assert(all.take(files.len() as int) =~= before.take(files.len() as int));
        assert forall|i: int, j: int|
            0 <= i < j < all.len() && files.len() <= j implies !same_paths(
            #[trigger] all[i],
            #[trigger] all[j],
        ) by {
            assert(all[i] == before[i]);
            if j < before.len() {
                assert(all[j] == before[j]);
            }
        }
    } else {
        assert(files.take(files.len() as int) == files);
    }
}

/// No metadata is lost: every file that it describes is listed, or another with its paths.
pub proof fn law_nothing_missing(files: Seq<DiffFileV>, candidates: Seq<DiffFileV>, n: nat)
    requires
        n <= candidates.len(),
    ensures
        forall|i: int|
            0 <= i < n ==> has_paths(with_missing(files, candidates, n), #[trigger] candidates[i]),
    decreases n,
{
    if n > 0 {
        law_nothing_missing(files, candidates, (n - 1) as nat);
        let before = with_missing(files, candidates, (n - 1) as nat);
        let all = with_missing(files, candidates, n);
        assert forall|i: int| 0 <= i < n implies has_paths(all, #[trigger] candidates[i]) by {
            if i < n - 1 {
                assert(has_paths(before, candidates[i]));
                let k = choose|k: int|
                    0 <= k < before.len() && same_paths(#[trigger] before[k], candidates[i]);
                assert(all[k] == before[k]);
            } else if !has_paths(before, candidates[i]) {
                assert(all[before.len() as int] == candidates[i]);
            }
        }
    }
}

} // verus!
