//! What a walk through a diff gathers.
use crate::diff::generate_laws;
use crate::diff::model::{DiffFileV, HunkV, LineKind};
use crate::diff::parse_laws;
use crate::str_laws;
use crate::strs;
use crate::vcs::git;
use vstd::prelude::*;

verus! {

/// A line that a walk meets.
pub struct MetLine {
    pub origin: char,
    pub content: Seq<u8>,
    pub old_line: Option<u32>,
    pub new_line: Option<u32>,
}

/// A hunk that a walk meets.
pub struct MetHunk {
    pub removed: (u32, u32),
    pub added: (u32, u32),
    pub header: Seq<u8>,
    pub lines: Seq<MetLine>,
}

/// A file that a walk meets.
pub struct MetFile {
    pub old_path: Option<Seq<char>>,
    pub new_path: Option<Seq<char>>,
    pub binary: bool,
    pub hunks: Seq<MetHunk>,
}

/// What is gathered after the first `n` lines of a hunk.
pub open spec fn after_lines(files: Seq<DiffFileV>, lines: Seq<MetLine>, n: nat) -> Seq<DiffFileV>
    decreases n,
{
    if n == 0 {
        files
    } else {
        let l = lines[n - 1];
        git::with_content(
            after_lines(files, lines, (n - 1) as nat),
            l.origin,
            l.content,
            l.old_line,
            l.new_line,
        )
    }
}

/// What is gathered after the first `n` hunks of a file.
pub open spec fn after_hunks(files: Seq<DiffFileV>, hunks: Seq<MetHunk>, n: nat) -> Seq<DiffFileV>
    decreases n,
{
    if n == 0 {
        files
    } else {
        let h = hunks[n - 1];
        let before = after_hunks(files, hunks, (n - 1) as nat);
        after_lines(
            git::with_hunk(before, git::begun(h.removed, h.added, h.header)),
            h.lines,
            h.lines.len(),
        )
    }
}

/// What is gathered after the first `n` files.
pub open spec fn after_files(met: Seq<MetFile>, n: nat) -> Seq<DiffFileV>
    decreases n,
{
    if n == 0 {
        Seq::empty()
    } else {
        let f = met[n - 1];
        let begun = git::with_file(after_files(met, (n - 1) as nat), f.old_path, f.new_path);
        after_hunks(
            if f.binary {
                git::with_binary(begun)
            } else {
                begun
            },
            f.hunks,
            f.hunks.len(),
        )
    }
}

/// Whether a line is one of code.
pub open spec fn of_code(l: MetLine) -> bool {
    l.origin == '+' || l.origin == '-' || l.origin == ' '
}

/// Whether all lines of a hunk are of code.
pub open spec fn all_code(h: MetHunk) -> bool {
    forall|k: int| 0 <= k < h.lines.len() ==> of_code(#[trigger] h.lines[k])
}

/// Whether a hunk has what was met: the starts and counts, and each line of code in order, with
/// its kind, its numbers and its text.
pub open spec fn tells_hunk(h: HunkV, m: MetHunk, n: nat) -> bool {
    &&& (h.old_start, h.old_count) == m.removed
    &&& (h.new_start, h.new_count) == m.added
    &&& h.section == git::heading(git::lossy(m.header))
    &&& all_code(m) ==> h.lines.len() == n && forall|k: int|
        0 <= k < n ==> {
            let l = #[trigger] h.lines[k];
            &&& l.kind == (if m.lines[k].origin == '+' {
                LineKind::Addition
            } else if m.lines[k].origin == '-' {
                LineKind::Deletion
            } else {
                LineKind::Context
            })
            &&& l.old_line == m.lines[k].old_line && l.new_line == m.lines[k].new_line
            &&& generate_laws::broken_off(git::lossy(m.lines[k].content), l.text)
        }
}

/// The path of a side, or that of no file.
pub open spec fn path_on(p: Option<Seq<char>>) -> Seq<char> {
    match p {
        Some(x) => x,
        None => "/dev/null"@,
    }
}

/// Whether a file has what was met of its first `n` hunks.
pub open spec fn tells_file(f: DiffFileV, m: MetFile, n: nat) -> bool {
    &&& f.old_path == path_on(m.old_path)
    &&& f.new_path == path_on(m.new_path)
    &&& f.is_binary == m.binary
    &&& f.hunks.len() == n
    &&& forall|j: int|
        0 <= j < n ==> tells_hunk(#[trigger] f.hunks[j], m.hunks[j], m.hunks[j].lines.len())
}

proof fn lemma_lines(files: Seq<DiffFileV>, m: MetHunk, n: nat)
    requires
        n <= m.lines.len(),
        files.len() > 0,
        files.last().hunks.len() > 0,
        tells_hunk(files.last().hunks.last(), m, 0),
    ensures
        ({
            let r = after_lines(files, m.lines, n);
            let f = files.last();
            let g = r.last();
            &&& r.len() == files.len() && r.drop_last() == files.drop_last()
            &&& g.old_path == f.old_path && g.new_path == f.new_path && g.is_binary == f.is_binary
            &&& g.hunks.len() == f.hunks.len() && g.hunks.drop_last() == f.hunks.drop_last()
            &&& tells_hunk(g.hunks.last(), m, n)
        }),
    decreases n,
{
    if n > 0 {
        lemma_lines(files, m, (n - 1) as nat);
        let b = after_lines(files, m.lines, (n - 1) as nat);
        let r = after_lines(files, m.lines, n);
        let x = m.lines[n - 1];
        generate_laws::law_only_line_feeds_are_taken(git::lossy(x.content));
        if of_code(x) {
            let h0 = b.last().hunks.last();
            let h1 = r.last().hunks.last();
            assert(r.drop_last() == b.drop_last());
            assert(r.last().hunks.drop_last() == b.last().hunks.drop_last());
            if all_code(m) {
                assert forall|k: int| 0 <= k < n implies {
                    let l = #[trigger] h1.lines[k];
                    &&& l.kind == (if m.lines[k].origin == '+' {
                        LineKind::Addition
                    } else if m.lines[k].origin == '-' {
                        LineKind::Deletion
                    } else {
                        LineKind::Context
                    })
                    &&& l.old_line == m.lines[k].old_line && l.new_line == m.lines[k].new_line
                    &&& generate_laws::broken_off(git::lossy(m.lines[k].content), l.text)
                } by {
                    if k < n - 1 {
                        assert(h1.lines[k] == h0.lines[k]);
                    }
                }
            }
        } else {
            assert(!all_code(m));
        }
    }
}

proof fn lemma_hunks(files: Seq<DiffFileV>, m: MetFile, n: nat)
    requires
        n <= m.hunks.len(),
        files.len() > 0,
        tells_file(files.last(), m, 0),
    ensures
        ({
            let r = after_hunks(files, m.hunks, n);
            &&& r.len() == files.len() && r.drop_last() == files.drop_last()
            &&& tells_file(r.last(), m, n)
        }),
    decreases n,
{
    if n > 0 {
        lemma_hunks(files, m, (n - 1) as nat);
        let b = after_hunks(files, m.hunks, (n - 1) as nat);
        let h = m.hunks[n - 1];
        let c = git::with_hunk(b, git::begun(h.removed, h.added, h.header));
        assert(c.drop_last() == b.drop_last());
        assert(c.last().hunks.drop_last() == b.last().hunks);
        lemma_lines(c, h, h.lines.len());
        let r = after_hunks(files, m.hunks, n);
        let g = r.last();
        assert forall|j: int| 0 <= j < n implies tells_hunk(
            #[trigger] g.hunks[j],
            m.hunks[j],
            m.hunks[j].lines.len(),
        ) by {
            if j < n - 1 {
                assert(g.hunks.drop_last()[j] == g.hunks[j]);
                assert(b.last().hunks[j] == g.hunks[j]);
            }
        }
    }
}

/// A walk gathers what it meets: every file in order, with its paths, as binary or not, and
/// every hunk and every line of it in order.
pub proof fn law_walks_gather_what_they_meet(met: Seq<MetFile>, n: nat)
    requires
        n <= met.len(),
    ensures
        after_files(met, n).len() == n,
        forall|i: int|
            0 <= i < n ==> tells_file(
                #[trigger] after_files(met, n)[i],
                met[i],
                met[i].hunks.len(),
            ),
    decreases n,
{
    if n > 0 {
        law_walks_gather_what_they_meet(met, (n - 1) as nat);
        let b = after_files(met, (n - 1) as nat);
        let f = met[n - 1];
        let c = git::with_file(b, f.old_path, f.new_path);
        let d = if f.binary {
            git::with_binary(c)
        } else {
            c
        };
        assert(c.drop_last() == b);
        assert(d.drop_last() == b);
        lemma_hunks(d, f, f.hunks.len());
        let r = after_files(met, n);
        assert forall|i: int| 0 <= i < n implies tells_file(
            #[trigger] r[i],
            met[i],
            met[i].hunks.len(),
        ) by {
            if i < n - 1 {
                assert(r.drop_last()[i] == r[i]);
                assert(b[i] == r[i]);
            }
        }
    }
}

/// The heading of a hunk is what stands behind the second `@@`, without the white space at its
/// ends, or none where there is nothing else.
pub proof fn law_headings_stand_behind_the_header(x: Seq<char>, s: Seq<char>)
    requires
        !x.contains('@'),
    ensures
        ({
            let h = git::heading("@@"@ + x + "@@"@ + s);
            &&& h is None <==> parse_laws::all_space(s)
            &&& h matches Some(t) ==> parse_laws::tight(t) && parse_laws::padded_by_space(s, t)
        }),
{
    reveal_strlit("@@");
    let p = "@@"@;
    let rest = x + p + s;
    assert(p + x + p + s == p + rest);
    assert((p + rest).take(2) == p);
    assert((p + rest).skip(2) == rest);
    str_laws::law_parted_at_the_first(rest, p);
    assert(rest.subrange(x.len() as int, x.len() as int + 2) == p);
    assert(str_laws::stands_at(rest, p, x.len() as int));
    let (a, b) = strs::parted(rest, p)->0;
    if a.len() < x.len() {
        assert(rest[a.len() as int] == (a + p + b)[a.len() as int]);
        assert(x[a.len() as int] == '@');
    }
    assert(b == s) by {
        assert(a.len() == x.len());
        assert((a + p + b).skip(a.len() as int + 2) == b);
        assert(rest.skip(x.len() as int + 2) == s);
    }
    parse_laws::lemma_trimmed(s);
    if parse_laws::all_space(s) {
        parse_laws::lemma_trimmed_space(s);
    }
    if strs::trimmed(s).len() == 0 {
        assert(parse_laws::all_space(s));
    }
}

} // verus!
