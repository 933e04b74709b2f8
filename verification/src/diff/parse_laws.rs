//! What a report has of the text that was read.
use crate::diff::model::{DiffFileV, LineKind};
use crate::diff::parse;
use crate::diff::parse::RawPatchV;
use crate::strs;
use vstd::prelude::*;

verus! {

/// Whether a raw line has this sign in front.
pub open spec fn signed(raw: Seq<char>, sign: char) -> bool {
    raw.len() > 0 && raw[0] == sign
}

/// How many of the first `n` raw lines do not have this sign in front.
pub open spec fn unsigned(lines: Seq<Seq<char>>, n: int, sign: char) -> nat {
    lines.take(n).filter(|l: Seq<char>| !signed(l, sign)).len()
}

proof fn lemma_numbered(lines: Seq<Seq<char>>, n: nat, old_start: u32, new_start: u32)
    requires
        n <= lines.len(),
    ensures
        ({
            let (ls, o, w) = parse::numbered(lines, n, old_start, new_start);
            &&& ls.len() == n
            &&& old_start + n <= u32::MAX ==> o == old_start + unsigned(lines, n as int, '+')
            &&& new_start + n <= u32::MAX ==> w == new_start + unsigned(lines, n as int, '-')
            &&& unsigned(lines, n as int, '+') <= n
            &&& unsigned(lines, n as int, '-') <= n
            &&& forall|k: int| #![trigger ls[k]]
                0 <= k < n ==> {
                    let raw = lines[k];
                    let l = ls[k];
                    &&& raw.len() > 0 ==> raw == seq![raw[0]] + l.text
                    &&& raw.len() == 0 ==> l.text.len() == 0
                    &&& l.kind == LineKind::Addition <==> signed(raw, '+')
                    &&& l.kind == LineKind::Deletion <==> signed(raw, '-')
                    &&& l.old_line is Some <==> !signed(raw, '+')
                    &&& l.new_line is Some <==> !signed(raw, '-')
                    &&& old_start + n <= u32::MAX ==> (l.old_line matches Some(x) ==> x
                        == old_start + unsigned(lines, k, '+'))
                    &&& new_start + n <= u32::MAX ==> (l.new_line matches Some(x) ==> x
                        == new_start + unsigned(lines, k, '-'))
                }
        }),
    decreases n,
{
    reveal(Seq::filter);
    if n > 0 {
        lemma_numbered(lines, (n - 1) as nat, old_start, new_start);
        assert(lines.take(n as int).drop_last() == lines.take(n - 1));
        assert(lines.take(n as int).last() == lines[n - 1]);
        let raw = lines[n - 1];
        if raw.len() > 0 {
            assert(raw == seq![raw[0]] + raw.skip(1));
        }
    }
}

/// The sign of a line in a unified diff.
pub open spec fn sign(kind: LineKind) -> char {
    match kind {
        LineKind::Addition => '+',
        LineKind::Deletion => '-',
        LineKind::Context => ' ',
    }
}

/// Nothing but the sign is taken from a line: for each line of each hunk that was read, the sign
/// of its kind and its text are the line as it was read.
pub proof fn law_lines_are_kept(
    ps: Seq<RawPatchV>,
    input: Seq<char>,
    i: int,
    j: int,
    k: int,
)
    requires
        0 <= i < ps.len(),
        0 <= j < ps[i].hunks.len(),
        0 <= k < ps[i].hunks[j].lines.len(),
    ensures
        ({
            let files = parse::report_of(Ok(ps), input).0;
            let raw = ps[i].hunks[j].lines[k];
            let l = files[i].hunks[j].lines[k];
            &&& i < files.len()
            &&& files[i].hunks.len() == ps[i].hunks.len()
            &&& files[i].hunks[j].lines.len() == ps[i].hunks[j].lines.len()
            &&& signed(raw, '+') || signed(raw, '-') || signed(raw, ' ') ==> raw == seq![
                sign(l.kind),
            ] + l.text
            &&& raw.len() > 0 ==> raw == seq![raw[0]] + l.text
            &&& raw.len() == 0 ==> l.text.len() == 0
        }),
{
    let h = ps[i].hunks[j];
    lemma_text_files(ps, input);
    lemma_numbered(h.lines, h.lines.len(), h.old.0 as u32, h.new.0 as u32);
}

proof fn lemma_text_files(ps: Seq<RawPatchV>, input: Seq<char>)
    ensures
        ({
            let files = parse::report_of(Ok(ps), input).0;
            &&& files.len() >= ps.len()
            &&& forall|i: int| 0 <= i < ps.len() ==> #[trigger] files[i] == parse::file_of(ps[i])
        }),
{
    let files = parse::report_of(Ok(ps), input).0;
    let text = parse::files_of(ps);
    let more = parse::metadata_files(input);
    let first = text + parse::binaries(input);
    parse::law_no_duplicates(first, more, more.len());
    assert forall|i: int| 0 <= i < ps.len() implies #[trigger] files[i] == parse::file_of(ps[i]) by {
        assert(files.take(first.len() as int)[i] == first[i]);
        assert(first[i] == text[i]);
    }
}

/// Lines are counted on the side that they stand on: a line has a number in the old text unless
/// it is an addition, and in the new text unless it is a deletion, and the number is that of the
/// hunk's first line and as many more as lines of that side stand in front of it.
pub proof fn law_lines_are_numbered(ps: Seq<RawPatchV>, input: Seq<char>, i: int, j: int, k: int)
    requires
        0 <= i < ps.len(),
        0 <= j < ps[i].hunks.len(),
        0 <= k < ps[i].hunks[j].lines.len(),
        ps[i].hunks[j].old.0 + ps[i].hunks[j].lines.len() <= u32::MAX,
        ps[i].hunks[j].new.0 + ps[i].hunks[j].lines.len() <= u32::MAX,
    ensures
        ({
            let h = ps[i].hunks[j];
            let raw = h.lines[k];
            let l = parse::report_of(Ok(ps), input).0[i].hunks[j].lines[k];
            &&& l.kind == LineKind::Addition <==> signed(raw, '+')
            &&& l.kind == LineKind::Deletion <==> signed(raw, '-')
            &&& l.old_line is Some <==> !signed(raw, '+')
            &&& l.new_line is Some <==> !signed(raw, '-')
            &&& l.old_line matches Some(x) ==> x == h.old.0 + unsigned(h.lines, k, '+')
            &&& l.new_line matches Some(x) ==> x == h.new.0 + unsigned(h.lines, k, '-')
        }),
{
    let h = ps[i].hunks[j];
    lemma_text_files(ps, input);
    lemma_numbered(h.lines, h.lines.len(), h.old.0 as u32, h.new.0 as u32);
}

/// The header of a hunk is kept: starts and counts as they were read, and the heading without
/// the white space at its ends, or none where there is nothing else.
pub proof fn law_hunk_headers_are_kept(ps: Seq<RawPatchV>, input: Seq<char>, i: int, j: int)
    requires
        0 <= i < ps.len(),
        0 <= j < ps[i].hunks.len(),
    ensures
        ({
            let h = ps[i].hunks[j];
            let m = parse::report_of(Ok(ps), input).0[i].hunks[j];
            &&& h.old.0 <= u32::MAX ==> m.old_start == h.old.0
            &&& h.old.1 <= u32::MAX ==> m.old_count == h.old.1
            &&& h.new.0 <= u32::MAX ==> m.new_start == h.new.0
            &&& h.new.1 <= u32::MAX ==> m.new_count == h.new.1
            &&& m.section is None <==> all_space(h.hint)
            &&& m.section matches Some(s) ==> tight(s) && padded_by_space(h.hint, s)
        }),
{
    let h = ps[i].hunks[j];
    lemma_text_files(ps, input);
    lemma_trimmed(h.hint);
    if all_space(h.hint) {
        lemma_trimmed_space(h.hint);
    }
}

/// Whether a text is white space alone.
pub open spec fn all_space(s: Seq<char>) -> bool {
    forall|i: int| 0 <= i < s.len() ==> strs::is_space(#[trigger] s[i])
}

/// Whether a text is not empty and has no white space at its ends.
pub open spec fn tight(s: Seq<char>) -> bool {
    s.len() > 0 && !strs::is_space(s[0]) && !strs::is_space(s.last())
}

/// Whether `s` is `core` with white space around it.
pub open spec fn padded_by_space(s: Seq<char>, core: Seq<char>) -> bool {
    exists|a: Seq<char>, b: Seq<char>|
        all_space(a) && all_space(b) && s == #[trigger] (a + core + b)
}

proof fn lemma_trim_start(s: Seq<char>) -> (n: int)
    ensures
        0 <= n <= s.len(),
        all_space(s.take(n)),
        strs::trim_start(s) == s.skip(n),
        n < s.len() ==> !strs::is_space(s[n]),
    decreases s.len(),
{
    if s.len() > 0 && strs::is_space(s[0]) {
        let m = lemma_trim_start(s.skip(1));
        let n = m + 1;
        assert(s.skip(1).skip(m) == s.skip(n));
        assert forall|i: int| 0 <= i < n implies strs::is_space(#[trigger] s.take(n)[i]) by {
            if i > 0 {
                assert(s.skip(1).take(m)[i - 1] == s[i]);
            }
        }
        n
    } else {
        assert(s.skip(0) == s);
        0
    }
}

proof fn lemma_trim_end(s: Seq<char>) -> (n: int)
    ensures
        0 <= n <= s.len(),
        all_space(s.skip(n)),
        strs::trim_end(s) == s.take(n),
        n > 0 ==> !strs::is_space(s[n - 1]),
    decreases s.len(),
{
    if s.len() > 0 && strs::is_space(s.last()) {
        let n = lemma_trim_end(s.drop_last());
        assert(s.drop_last().take(n) == s.take(n));
        assert forall|i: int| 0 <= i < s.len() - n implies strs::is_space(
            #[trigger] s.skip(n)[i],
        ) by {
            if i < s.len() - n - 1 {
                assert(s.drop_last().skip(n)[i] == s[n + i]);
            }
        }
        n
    } else {
        assert(s.take(s.len() as int) == s);
        s.len() as int
    }
}

pub(crate) proof fn lemma_trimmed(s: Seq<char>)
    ensures
        padded_by_space(s, strs::trimmed(s)),
        strs::trimmed(s).len() > 0 ==> tight(strs::trimmed(s)),
        strs::trimmed(s).len() == 0 ==> all_space(s),
{
    let n = lemma_trim_start(s);
    let t = strs::trim_start(s);
    let m = lemma_trim_end(t);
    let a = s.take(n);
    let core = strs::trimmed(s);
    let b = t.skip(m);
    assert(s == a + core + b);
    assert(all_space(a) && all_space(b));
    if core.len() == 0 {
        assert forall|i: int| 0 <= i < s.len() implies strs::is_space(#[trigger] s[i]) by {
            if i < n {
                assert(a[i] == s[i]);
            } else {
                assert(b[i - n] == s[i]);
            }
        }
    }
}

pub(crate) proof fn lemma_trimmed_space(s: Seq<char>)
    requires
        all_space(s),
    ensures
        strs::trimmed(s).len() == 0,
{
    lemma_trimmed(s);
    let c = strs::trimmed(s);
    if c.len() > 0 {
        let (a, b) = choose|a: Seq<char>, b: Seq<char>|
            all_space(a) && all_space(b) && s == #[trigger] (a + c + b);
        assert(s[a.len() as int] == c[0]);
    }
}

proof fn lemma_core_is_trimmed(a: Seq<char>, core: Seq<char>, b: Seq<char>)
    requires
        all_space(a),
        all_space(b),
        tight(core),
    ensures
        strs::trimmed(a + core + b) == core,
{
    let s = a + core + b;
    let n = lemma_trim_start(s);
    if n < a.len() {
        assert(s[n] == a[n]);
    }
    if n > a.len() {
        assert(s.take(n)[a.len() as int] == core[0]);
    }
    let t = strs::trim_start(s);
    assert(t == core + b);
    let m = lemma_trim_end(t);
    if m > core.len() {
        assert(t[m - 1] == b[m - 1 - core.len()]);
    }
    if m < core.len() {
        assert(t.skip(m)[core.len() - 1 - m] == core.last());
    }
    assert(t.take(core.len() as int) == core);
}

/// Paths lose git's prefix and the white space around them, and nothing else.
pub proof fn law_paths_are_kept(a: Seq<char>, p: Seq<char>, b: Seq<char>)
    requires
        all_space(a),
        all_space(b),
        tight(p),
    ensures
        parse::clean_path(a + ("a/"@ + p) + b) == p,
        parse::clean_path(a + ("b/"@ + p) + b) == p,
        !strs::starts_with(p, "a/"@) && !strs::starts_with(p, "b/"@) ==> parse::clean_path(
            a + p + b,
        ) == p,
{
    reveal_strlit("a/");
    reveal_strlit("b/");
    let x = "a/"@ + p;
    let y = "b/"@ + p;
    lemma_core_is_trimmed(a, x, b);
    lemma_core_is_trimmed(a, y, b);
    lemma_core_is_trimmed(a, p, b);
    assert(x.take(2) == "a/"@);
    assert(y.take(2) == "b/"@);
    assert(y.take(2)[0] != "a/"@[0]);
    assert(x.skip(2) == p);
    assert(y.skip(2) == p);
}

/// Every file that was read is listed, in its order and in front of all others, with the paths
/// that it was read with, and as text.
pub proof fn law_read_files_come_first(ps: Seq<RawPatchV>, input: Seq<char>, i: int)
    requires
        0 <= i < ps.len(),
    ensures
        ({
            let files = parse::report_of(Ok(ps), input).0;
            &&& i < files.len()
            &&& files[i].old_path == parse::clean_path(ps[i].old)
            &&& files[i].new_path == parse::clean_path(ps[i].new)
            &&& files[i].hunks.len() == ps[i].hunks.len()
            &&& !files[i].is_binary
        }),
{
    lemma_text_files(ps, input);
}

proof fn lemma_place_first(s: Seq<char>, p: Seq<char>, i: nat, at: nat)
    requires
        i <= at <= s.len(),
        strs::starts_with(s.skip(at as int), p),
        forall|j: int| i <= j < at ==> !strs::starts_with(#[trigger] s.skip(j), p),
    ensures
        strs::place_of(s, p, i) == Some(at),
    decreases at - i,
{
    if i < at {
        assert(!strs::starts_with(s.skip(i as int), p));
        lemma_place_first(s, p, i + 1, at);
    }
}

/// Whether `p` stands in `s` for the first time at place `at`.
pub open spec fn first_stands_at(s: Seq<char>, p: Seq<char>, at: int) -> bool {
    &&& strs::starts_with(s.skip(at), p)
    &&& forall|j: int| 0 <= j < at ==> !strs::starts_with(#[trigger] s.skip(j), p)
}

/// A binary marker gives a binary file without hunks, with the paths that the marker names.
pub proof fn law_binary_markers_are_read(a: Seq<char>, x: Seq<char>, y: Seq<char>, b: Seq<char>)
    requires
        all_space(a),
        all_space(b),
        first_stands_at(x + " and "@ + y, " and "@, x.len() as int),
    ensures
        ({
            let line = a + ("Binary files "@ + x + " and "@ + y + " differ"@) + b;
            parse::binary_in(line) == Some(
                DiffFileV {
                    old_path: parse::clean_path(x),
                    new_path: parse::clean_path(y),
                    hunks: Seq::empty(),
                    is_binary: true,
                },
            )
        }),
{
    reveal_strlit("Binary files ");
    reveal_strlit(" and ");
    reveal_strlit(" differ");
    let core = "Binary files "@ + x + " and "@ + y + " differ"@;
    assert(core[0] == 'B' && core.last() == 'r');
    lemma_core_is_trimmed(a, core, b);
    let n = "Binary files "@.len() as int;
    assert(core.take(n) == "Binary files "@);
    let rest = x + " and "@ + y;
    assert(core.skip(n) == rest + " differ"@);
    assert((rest + " differ"@).skip(rest.len() as int) == " differ"@);
    assert((rest + " differ"@).take(rest.len() as int) == rest);
    assert(rest.skip(0) == rest);
    lemma_place_first(rest, " and "@, 0, x.len());
    assert(rest.take(x.len() as int) == x);
    assert(rest.skip(x.len() as int + 5) == y);
}

proof fn lemma_binaries(lines: Seq<Seq<char>>, n: nat)
    requires
        n <= lines.len(),
    ensures
        forall|k: int|
            0 <= k < n ==> (parse::binary_in(#[trigger] lines[k]) matches Some(f)
                ==> parse::binaries_among(lines, n).contains(f)),
        forall|i: int|
            0 <= i < parse::binaries_among(lines, n).len() ==> binary_marked(
                lines,
                #[trigger] parse::binaries_among(lines, n)[i],
            ),
    decreases n,
{
    if n > 0 {
        lemma_binaries(lines, (n - 1) as nat);
        let before = parse::binaries_among(lines, (n - 1) as nat);
        let all = parse::binaries_among(lines, n);
        assert forall|k: int| 0 <= k < n implies (parse::binary_in(
            #[trigger] lines[k],
        ) matches Some(f) ==> all.contains(f)) by {
            if let Some(f) = parse::binary_in(lines[k]) {
                if k < n - 1 {
                    assert(before.contains(f));
                    let i = choose|i: int| 0 <= i < before.len() && before[i] == f;
                    assert(all[i] == f);
                } else {
                    assert(all.last() == f);
                }
            }
        }
        assert forall|i: int| 0 <= i < all.len() implies binary_marked(
            lines,
            #[trigger] all[i],
        ) by {
            if i < before.len() {
                assert(all[i] == before[i]);
            } else {
                assert(parse::binary_in(lines[n - 1]) == Some(all[i]));
            }
        }
    }
}

/// Whether one of the lines is the marker of a binary file.
pub open spec fn binary_marked(lines: Seq<Seq<char>>, f: DiffFileV) -> bool {
    exists|k: int| 0 <= k < lines.len() && parse::binary_in(#[trigger] lines[k]) == Some(f)
}

/// The file without content that block `k` of a text describes.
pub open spec fn block_at(input: Seq<char>, k: int) -> Option<DiffFileV> {
    parse::block_file(parse::block_body(strs::split_at_all(input, "\ndiff --git "@)[k]))
}

/// Whether a block of a text describes a file without content.
pub open spec fn block_marked(input: Seq<char>, f: DiffFileV) -> bool {
    exists|k: int|
        0 <= k < strs::split_at_all(input, "\ndiff --git "@).len() && #[trigger] block_at(input, k)
            == Some(f)
}

proof fn lemma_blocks(input: Seq<char>, n: nat)
    requires
        n <= strs::split_at_all(input, "\ndiff --git "@).len(),
    ensures
        ({
            let blocks = strs::split_at_all(input, "\ndiff --git "@);
            let all = parse::blocks_among(blocks, n);
            &&& forall|k: int|
                0 <= k < n ==> (#[trigger] block_at(input, k) matches Some(f) ==> (f.old_path.len()
                    > 0 || f.new_path.len() > 0 ==> all.contains(f)))
            &&& forall|i: int| 0 <= i < all.len() ==> block_marked(input, #[trigger] all[i])
        }),
    decreases n,
{
    if n > 0 {
        lemma_blocks(input, (n - 1) as nat);
        let blocks = strs::split_at_all(input, "\ndiff --git "@);
        let before = parse::blocks_among(blocks, (n - 1) as nat);
        let all = parse::blocks_among(blocks, n);
        assert forall|k: int| 0 <= k < n implies (#[trigger] block_at(input, k) matches Some(f)
            ==> (f.old_path.len() > 0 || f.new_path.len() > 0 ==> all.contains(f))) by {
            if let Some(f) = block_at(input, k) {
                if f.old_path.len() > 0 || f.new_path.len() > 0 {
                    if k < n - 1 {
                        assert(before.contains(f));
                        let i = choose|i: int| 0 <= i < before.len() && before[i] == f;
                        assert(all[i] == f);
                    } else {
                        assert(all.last() == f);
                    }
                }
            }
        }
        assert forall|i: int| 0 <= i < all.len() implies block_marked(
            input,
            #[trigger] all[i],
        ) by {
            if i < before.len() {
                assert(all[i] == before[i]);
            } else {
                assert(block_at(input, n - 1) == Some(all[i]));
            }
        }
    }
}

proof fn lemma_with_missing(files: Seq<DiffFileV>, more: Seq<DiffFileV>, n: nat)
    requires
        n <= more.len(),
    ensures
        forall|i: int|
            files.len() <= i < parse::with_missing(files, more, n).len() ==> more.contains(
                #[trigger] parse::with_missing(files, more, n)[i],
            ),
    decreases n,
{
    if n > 0 {
        lemma_with_missing(files, more, (n - 1) as nat);
        let before = parse::with_missing(files, more, (n - 1) as nat);
        let all = parse::with_missing(files, more, n);
        assert forall|i: int| files.len() <= i < all.len() implies more.contains(
            #[trigger] all[i],
        ) by {
            if i < before.len() {
                assert(all[i] == before[i]);
            } else {
                assert(all[i] == more[n - 1]);
            }
        }
    }
}

/// Nothing that a text speaks of is lost, and nothing is invented: every file that was read,
/// every binary marker and every block of metadata has its file in the report, and every file
/// of the report comes from one of them.
pub proof fn law_report_is_complete(
    read: Result<Seq<RawPatchV>, Seq<char>>,
    input: Seq<char>,
    k: int,
    i: int,
)
    requires
        0 <= k,
        0 <= i < parse::report_of(read, input).0.len(),
    ensures
        ({
            let files = parse::report_of(read, input).0;
            let lines = strs::lines(input);
            let blocks = strs::split_at_all(input, "\ndiff --git "@);
            &&& read matches Ok(ps) ==> (k < ps.len() ==> files.contains(parse::file_of(ps[k])))
            &&& k < lines.len() ==> (parse::binary_in(lines[k]) matches Some(f) ==> files.contains(
                f,
            ))
            &&& k < blocks.len() ==> (block_at(input, k) matches Some(f) ==> (f.old_path.len() > 0
                || f.new_path.len() > 0 ==> parse::has_paths(files, f)))
            &&& {
                ||| read matches Ok(ps) && exists|j: int|
                    0 <= j < ps.len() && files[i] == parse::file_of(#[trigger] ps[j])
                ||| binary_marked(lines, files[i])
                ||| block_marked(input, files[i])
            }
        }),
{
    let files = parse::report_of(read, input).0;
    let lines = strs::lines(input);
    let blocks = strs::split_at_all(input, "\ndiff --git "@);
    let text = match read {
        Ok(ps) => parse::files_of(ps),
        Err(_) => Seq::empty(),
    };
    let bins = parse::binaries(input);
    let more = parse::metadata_files(input);
    let first = text + bins;
    parse::law_no_duplicates(first, more, more.len());
    parse::law_nothing_missing(first, more, more.len());
    lemma_binaries(lines, lines.len());
    lemma_blocks(input, blocks.len());
    lemma_with_missing(first, more, more.len());
    assert forall|j: int| 0 <= j < first.len() implies files[j] == #[trigger] first[j] by {
        assert(files.take(first.len() as int)[j] == first[j]);
    }
    if let Ok(ps) = read {
        if k < ps.len() {
            assert(files[k] == first[k]);
        }
    }
    if k < lines.len() {
        if let Some(f) = parse::binary_in(lines[k]) {
            assert(bins.contains(f));
            let j = choose|j: int| 0 <= j < bins.len() && bins[j] == f;
            assert(files[text.len() + j] == first[text.len() + j]);
        }
    }
    if k < blocks.len() {
        if let Some(f) = block_at(input, k) {
            if f.old_path.len() > 0 || f.new_path.len() > 0 {
                assert(more.contains(f));
                let j = choose|j: int| 0 <= j < more.len() && more[j] == f;
                assert(parse::has_paths(files, more[j]));
            }
        }
    }
    if i < text.len() {
        assert(files[i] == first[i]);
        let ps = read->Ok_0;
        assert(files[i] == parse::file_of(ps[i]));
    } else if i < first.len() {
        assert(files[i] == first[i]);
        assert(binary_marked(lines, bins[i - text.len()]));
    } else {
        assert(more.contains(files[i]));
        let j = choose|j: int| 0 <= j < more.len() && more[j] == files[i];
        assert(block_marked(input, more[j]));
    }
}

/// An error is told where nothing at all was found in a text with a line that marks it as a
/// diff, and only there, in the words of the reader.
pub proof fn law_errors_are_told(read: Result<Seq<RawPatchV>, Seq<char>>, input: Seq<char>)
    ensures
        ({
            let (files, error) = parse::report_of(read, input);
            &&& error is Some <==> read is Err && files.len() == 0 && exists|i: int|
                0 <= i < strs::lines(input).len() && (strs::starts_with(
                    #[trigger] strs::lines(input)[i],
                    "--- "@,
                ) || strs::starts_with(strs::lines(input)[i], "diff --git "@) || strs::starts_with(
                    strs::lines(input)[i],
                    "@@ -"@,
                ))
            &&& error matches Some(e) ==> read == Err::<Seq<RawPatchV>, Seq<char>>(e)
        }),
{
    let more = parse::metadata_files(input);
    let bins = parse::binaries(input);
    parse::law_no_duplicates(Seq::<DiffFileV>::empty() + bins, more, more.len());
    parse::law_nothing_missing(Seq::<DiffFileV>::empty() + bins, more, more.len());
    if read is Err {
        if more.len() > 0 {
            assert(parse::has_paths(parse::report_of(read, input).0, more[0]));
        }
        if bins.len() == 0 && more.len() == 0 {
            assert(parse::report_of(read, input).0.len() == 0);
        }
        let lines = strs::lines(input);
        if parse::patch_like(input) {
            let i = choose|i: int| 0 <= i < lines.len() && parse::patch_line(#[trigger] lines[i]);
            assert(0 <= i < lines.len());
        }
        assert forall|i: int| 0 <= i < lines.len() implies (parse::patch_line(#[trigger] lines[i])
            <==> strs::starts_with(lines[i], "--- "@) || strs::starts_with(
            lines[i],
            "diff --git "@,
        ) || strs::starts_with(lines[i], "@@ -"@)) by {}
    }
}

} // verus!
