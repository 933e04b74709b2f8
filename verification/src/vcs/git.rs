//! Diffs as libgit2 walks them: files, hunks and lines, one after the other.
use crate::diff::generate;
use crate::diff::generate::strip_breaks;
use crate::diff::model::{Changeset, DiffFile, DiffFileV, DiffLine, DiffLineV, Hunk, HunkV, LineKind};
use crate::diff::parse;
use crate::diff::parse::hint_section;
use crate::strs;
use crate::strs::{cut_prefix, part};
use vstd::prelude::*;

verus! {

/// The number of unchanged lines around each change.
pub const CONTEXT_LINES: u32 = 3;

/// What `String::from_utf8_lossy` makes of bytes.
pub uninterp spec fn lossy(bytes: Seq<u8>) -> Seq<char>;

/// `String::from_utf8_lossy`: the text of bytes, with what is not valid UTF-8 replaced.
#[verifier::external_body]
fn decode(bytes: &[u8]) -> (r: String)
    ensures
        r@ == lossy(bytes@),
{
    String::from_utf8_lossy(bytes).into_owned()
}

/// The path of a side of a diff: `/dev/null` where there is no file.
pub open spec fn path_or_null(p: Option<Seq<char>>) -> Seq<char> {
    match p {
        Some(p) => p,
        None => "/dev/null"@,
    }
}

/// The path of a side of a diff: `/dev/null` where there is no file.
pub fn path_of(p: Option<String>) -> (r: String)
    ensures
        r@ == path_or_null(strs::opt_view(p)),
{
    match p {
        Some(p) => p,
        None => strs::owned("/dev/null"),
    }
}

/// The section heading after the second `@@` of a hunk header.
pub open spec fn heading(header: Seq<char>) -> Option<Seq<char>> {
    match strs::without_prefix(header, "@@"@) {
        Some(rest) => match strs::parted(rest, "@@"@) {
            Some((_, s)) => parse::section(s),
            None => None,
        },
        None => None,
    }
}

/// The section heading after the second `@@` of a hunk header, if there is one.
pub fn heading_of(header: &str) -> (r: Option<String>)
    ensures
        strs::opt_view(r) == heading(header@),
{
    match cut_prefix(header, "@@") {
        Some(rest) => match part(rest.as_str(), "@@") {
            Some((_, s)) => hint_section(s.as_str()),
            None => None,
        },
        None => None,
    }
}

/// Extract the section heading after the second `@@` in a hunk header.
pub fn section_of(header: &[u8]) -> (r: Option<String>)
    ensures
        strs::opt_view(r) == heading(lossy(header@)),
{
    heading_of(decode(header).as_str())
}

/// The kind of a line by its origin; `None` for headers, end-of-file markers and the like.
pub open spec fn kind_at(origin: char) -> Option<LineKind> {
    if origin == '+' {
        Some(LineKind::Addition)
    } else if origin == '-' {
        Some(LineKind::Deletion)
    } else if origin == ' ' {
        Some(LineKind::Context)
    } else {
        None
    }
}

/// The kind of a line by its origin; `None` for headers, end-of-file markers and the like.
pub fn kind_of(origin: char) -> (r: Option<LineKind>)
    ensures
        r == kind_at(origin),
{
    match origin {
        '+' => Some(LineKind::Addition),
        '-' => Some(LineKind::Deletion),
        ' ' => Some(LineKind::Context),
        _ => None,
    }
}

/// The files with a hunk added to the last one.
pub open spec fn with_hunk(files: Seq<DiffFileV>, h: HunkV) -> Seq<DiffFileV> {
    if files.len() == 0 {
        files
    } else {
        let f = files.last();
        files.drop_last().push(DiffFileV { hunks: f.hunks.push(h), ..f })
    }
}

/// The files with a line added to the last hunk of the last one.
pub open spec fn with_line(files: Seq<DiffFileV>, l: DiffLineV) -> Seq<DiffFileV> {
    if files.len() == 0 || files.last().hunks.len() == 0 {
        files
    } else {
        let f = files.last();
        let h = f.hunks.last();
        files.drop_last().push(
            DiffFileV {
                hunks: f.hunks.drop_last().push(HunkV { lines: h.lines.push(l), ..h }),
                ..f
            },
        )
    }
}

/// The files with one more begun, which has nothing on a side without a path.
pub open spec fn with_file(
    files: Seq<DiffFileV>,
    old_path: Option<Seq<char>>,
    new_path: Option<Seq<char>>,
) -> Seq<DiffFileV> {
    files.push(parse::bare_file(path_or_null(old_path), path_or_null(new_path), false))
}

/// The files with the last one marked as binary.
pub open spec fn with_binary(files: Seq<DiffFileV>) -> Seq<DiffFileV> {
    if files.len() == 0 {
        files
    } else {
        files.drop_last().push(DiffFileV { is_binary: true, ..files.last() })
    }
}

/// A hunk that begins.
pub open spec fn begun(removed: (u32, u32), added: (u32, u32), header: Seq<u8>) -> HunkV {
    HunkV {
        old_start: removed.0,
        old_count: removed.1,
        new_start: added.0,
        new_count: added.1,
        section: heading(lossy(header)),
        lines: Seq::empty(),
    }
}

/// The files with what stands on a line added.
pub open spec fn with_content(
    files: Seq<DiffFileV>,
    origin: char,
    content: Seq<u8>,
    old_line: Option<u32>,
    new_line: Option<u32>,
) -> Seq<DiffFileV> {
    match kind_at(origin) {
        Some(kind) => with_line(
            files,
            DiffLineV {
                kind,
                old_line,
                new_line,
                text: generate::without_breaks(lossy(content)),
            },
        ),
        None => files,
    }
}

/// A changeset in the making.
#[derive(Debug)]
pub struct Walk {
    pub files: Vec<DiffFile>,
}

impl View for Walk {
    type V = Seq<DiffFileV>;

    open spec fn view(&self) -> Seq<DiffFileV> {
        strs::views(self.files@)
    }
}

impl Walk {
    /// Nothing seen yet.
    pub fn new() -> (r: Walk)
        ensures
            r@ == Seq::<DiffFileV>::empty(),
    {
        let r = Walk { files: Vec::new() };
        assert(r@ == Seq::<DiffFileV>::empty());
        r
    }

    /// A file begins.
    pub fn on_file(&mut self, old_path: Option<String>, new_path: Option<String>)
        ensures
            final(self)@ == with_file(
                old(self)@,
                strs::opt_view(old_path),
                strs::opt_view(new_path),
            ),
    {
        let ghost before = self.files@;
        let f = DiffFile {
            old_path: path_of(old_path),
            new_path: path_of(new_path),
            hunks: Vec::new(),
            is_binary: false,
        };
        assert(f@.hunks == Seq::<HunkV>::empty());
        self.files.push(f);
        assert(self@ == strs::views(before).push(f@));
    }

    /// The last file is binary.
    pub fn on_binary(&mut self)
        ensures
            final(self)@ == with_binary(old(self)@),
    {
        let ghost before = self@;
        if let Some(f) = self.files.pop() {
            let mut f = f;
            assert(f@ == before.last());
            assert(self@ == before.drop_last());
            let ghost rest = self.files@;
            f.is_binary = true;
            self.files.push(f);
            assert(self@ == strs::views(rest).push(f@));
        }
    }

    /// A hunk of the last file begins, with the first line and the number of lines that it
    /// has on either side.
    pub fn on_hunk(&mut self, removed: (u32, u32), added: (u32, u32), header: &[u8])
        ensures
            final(self)@ == with_hunk(old(self)@, begun(removed, added, header@)),
    {
        let ghost before = self@;
        let h = Hunk {
            old_start: removed.0,
            old_count: removed.1,
            new_start: added.0,
            new_count: added.1,
            section: section_of(header),
            lines: Vec::new(),
        };
        assert(h@.lines == Seq::<DiffLineV>::empty());
        if let Some(f) = self.files.pop() {
            let mut f = f;
            assert(f@ == before.last());
            assert(self@ == before.drop_last());
            let ghost rest = self.files@;
            let ghost hunks = f.hunks@;
            f.hunks.push(h);
            assert(f@.hunks == strs::views(hunks).push(h@));
            self.files.push(f);
            assert(self@ == strs::views(rest).push(f@));
        }
    }

    /// A line of the last hunk.
    pub fn on_line(
        &mut self,
        origin: char,
        content: &[u8],
        old_line: Option<u32>,
        new_line: Option<u32>,
    )
        ensures
            final(self)@ == with_content(old(self)@, origin, content@, old_line, new_line),
    {
        let ghost before = self@;
        let kind = match kind_of(origin) {
            Some(kind) => kind,
            None => return ,
        };
        let text = strip_breaks(decode(content).as_str());
        let l = DiffLine { kind, old_line, new_line, text };
        if let Some(f) = self.files.pop() {
            let mut f = f;
            assert(f@ == before.last());
            assert(self@ == before.drop_last());
            let ghost rest = self.files@;
            let ghost hunks = f@.hunks;
            if let Some(h) = f.hunks.pop() {
                let mut h = h;
                assert(h@ == hunks.last());
                assert(f@.hunks == hunks.drop_last());
                let ghost others = f.hunks@;
                let ghost lines = h.lines@;
                h.lines.push(l);
                assert(h@.lines == strs::views(lines).push(l@));
                f.hunks.push(h);
                assert(f@.hunks == strs::views(others).push(h@));
            } else {
                assert(f@.hunks == hunks);
            }
            self.files.push(f);
            assert(self@ == strs::views(rest).push(f@));
            assert(hunks.len() == 0 ==> self@ == before);
        }
    }

    /// The changeset that the walk went through.
    pub fn finish(self) -> (r: Changeset)
        ensures
            r@ == self@,
    {
        Changeset { files: self.files }
    }
}

} // verus!
