//! What a report has of the metadata that git writes: renames, mode changes, empty files.
use crate::diff::parse;
use crate::diff::parse::Meta;
use crate::diff::parse_laws;
use crate::strs;
use vstd::prelude::*;

verus! {

/// Whether a text holds no white space.
pub open spec fn one_word(s: Seq<char>) -> bool {
    s.len() > 0 && forall|i: int| 0 <= i < s.len() ==> !strs::is_space(#[trigger] s[i])
}

proof fn lemma_word(s: Seq<char>, t: Seq<char>)
    requires
        forall|i: int| 0 <= i < t.len() ==> !strs::is_space(#[trigger] t[i]),
    ensures
        strs::words_acc(s + t) == (strs::words_acc(s).0, strs::words_acc(s).1 + t),
    decreases t.len(),
{
    if t.len() == 0 {
        assert(s + t == s);
        assert(strs::words_acc(s).1 + t == strs::words_acc(s).1);
    } else {
        let u = t.drop_last();
        assert forall|i: int| 0 <= i < u.len() implies !strs::is_space(#[trigger] u[i]) by {
            assert(u[i] == t[i]);
        }
        lemma_word(s, u);
        assert((s + t).drop_last() == s + u);
        assert((s + t).last() == t.last());
        assert((strs::words_acc(s).1 + u).push(t.last()) == strs::words_acc(s).1 + t);
    }
}

/// The header of a block names the file on either side, behind `a/` and `b/`.
pub proof fn law_block_header_names_the_file(x: Seq<char>, y: Seq<char>)
    requires
        one_word(x),
        one_word(y),
    ensures
        parse::header_paths("a/"@ + x + " b/"@ + y) == Some((x, y)),
{
    reveal_strlit("a/");
    reveal_strlit("b/");
    reveal_strlit(" b/");
    let a = "a/"@ + x;
    let b = "b/"@ + y;
    let none = Seq::<char>::empty();
    let h = "a/"@ + x + " b/"@ + y;
    assert forall|i: int| 0 <= i < a.len() implies !strs::is_space(#[trigger] a[i]) by {
        if i >= 2 {
            assert(a[i] == x[i - 2]);
        }
    }
    assert forall|i: int| 0 <= i < b.len() implies !strs::is_space(#[trigger] b[i]) by {
        if i >= 2 {
            assert(b[i] == y[i - 2]);
        }
    }
    lemma_word(none, a);
    assert(none + a == a);
    let s = a.push(' ');
    assert(s.drop_last() == a);
    assert(strs::words_acc(s) == (seq![a], none)) by {
        assert(Seq::<Seq<char>>::empty().push(a) == seq![a]);
    }
    lemma_word(s, b);
    assert(none + b == b);
    assert(h == s + b);
    assert(strs::words(h) == seq![a].push(b));
    assert(strs::words(h) == seq![a, b]);
    assert(a.take(2) == "a/"@);
    assert(b.take(2) == "b/"@);
    assert(none + a + none == a);
    assert(none + b + none == b);
    parse_laws::law_paths_are_kept(none, x, none);
    parse_laws::law_paths_are_kept(none, y, none);
}

/// Whether a line shows that a file has content: hunks, or a binary marker.
pub open spec fn content_line(l: Seq<char>) -> bool {
    strs::starts_with(l, "@@ -"@) || strs::starts_with(l, "--- "@) || strs::starts_with(l, "+++ "@)
        || strs::starts_with(strs::trimmed(l), "Binary files "@)
}

/// Whether a line names the path that a file had.
pub open spec fn from_line(l: Seq<char>) -> bool {
    strs::starts_with(l, "rename from "@) || strs::starts_with(l, "copy from "@)
}

/// Whether a line names the path that a file has.
pub open spec fn to_line(l: Seq<char>) -> bool {
    strs::starts_with(l, "rename to "@) || strs::starts_with(l, "copy to "@)
}

/// What a line of metadata may say.
pub enum Says {
    Content,
    Added,
    Deleted,
    From,
    To,
}

/// Whether a line says this.
pub open spec fn says(w: Says, l: Seq<char>) -> bool {
    match w {
        Says::Content => content_line(l),
        Says::Added => strs::starts_with(l, "new file mode "@),
        Says::Deleted => strs::starts_with(l, "deleted file mode "@),
        Says::From => from_line(l),
        Says::To => to_line(l),
    }
}

/// Whether one of the lines from the second to the `n`th is what `w` asks for.
pub open spec fn some_line(lines: Seq<Seq<char>>, n: int, w: Says) -> bool {
    exists|j: int| 1 <= j < n && says(w, #[trigger] lines[j])
}

/// Whether line `j` is the last one among the first `n` that is what `w` asks for.
pub open spec fn last_line(
    lines: Seq<Seq<char>>,
    n: int,
    j: int,
    w: Says,
) -> bool {
    1 <= j < n && says(w, lines[j]) && forall|k: int| j < k < n ==> !says(w, #[trigger] lines[k])
}

proof fn lemma_first_char(l: Seq<char>, p: Seq<char>, i: int)
    requires
        strs::starts_with(l, p),
        0 <= i < p.len(),
    ensures
        l[i] == p[i],
{
    assert(l.take(p.len() as int)[i] == p[i]);
}

proof fn lemma_line_kinds(l: Seq<char>)
    ensures
        from_line(l) ==> !to_line(l) && !strs::starts_with(l, "new file mode "@)
            && !strs::starts_with(l, "deleted file mode "@),
        to_line(l) ==> !strs::starts_with(l, "new file mode "@) && !strs::starts_with(
            l,
            "deleted file mode "@,
        ),
        strs::starts_with(l, "new file mode "@) ==> !strs::starts_with(l, "deleted file mode "@),
{
    reveal_strlit("rename from ");
    reveal_strlit("copy from ");
    reveal_strlit("rename to ");
    reveal_strlit("copy to ");
    reveal_strlit("new file mode ");
    reveal_strlit("deleted file mode ");
    if strs::starts_with(l, "rename from "@) {
        lemma_first_char(l, "rename from "@, 0);
        lemma_first_char(l, "rename from "@, 7);
    }
    if strs::starts_with(l, "copy from "@) {
        lemma_first_char(l, "copy from "@, 0);
        lemma_first_char(l, "copy from "@, 5);
    }
    if strs::starts_with(l, "rename to "@) {
        lemma_first_char(l, "rename to "@, 0);
        lemma_first_char(l, "rename to "@, 7);
    }
    if strs::starts_with(l, "copy to "@) {
        lemma_first_char(l, "copy to "@, 0);
        lemma_first_char(l, "copy to "@, 5);
    }
    if strs::starts_with(l, "new file mode "@) {
        lemma_first_char(l, "new file mode "@, 0);
    }
    if strs::starts_with(l, "deleted file mode "@) {
        lemma_first_char(l, "deleted file mode "@, 0);
    }
}

/// Whether what is known behind `n` lines is what the lines say.
pub open spec fn tells(m: Meta, m0: Meta, lines: Seq<Seq<char>>, n: int) -> bool {
    &&& m.content <==> m0.content || some_line(lines, n, Says::Content)
    &&& !m.content ==> {
        &&& m.added <==> m0.added || some_line(
            lines,
            n,
            Says::Added,
        )
        &&& m.deleted <==> m0.deleted || some_line(
            lines,
            n,
            Says::Deleted,
        )
        &&& !some_line(lines, n, Says::From) ==> m.old_path == m0.old_path
        &&& !some_line(lines, n, Says::To) ==> m.new_path == m0.new_path
        &&& forall|j: int| #[trigger]
            last_line(lines, n, j, Says::From) ==> m.old_path == parse::path_behind(
                lines[j],
                "from "@,
            )
        &&& forall|j: int| #[trigger]
            last_line(lines, n, j, Says::To) ==> m.new_path == parse::path_behind(
                lines[j],
                "to "@,
            )
    }
}

proof fn lemma_some_line(lines: Seq<Seq<char>>, n: int, w: Says)
    requires
        n >= 1,
    ensures
        some_line(lines, n + 1, w) <==> some_line(lines, n, w) || says(w, lines[n]),
{
    if some_line(lines, n, w) {
        let j = choose|j: int| 1 <= j < n && says(w, #[trigger] lines[j]);
        assert(says(w, lines[j]));
    }
}

proof fn lemma_last_line(lines: Seq<Seq<char>>, n: int, j: int, w: Says)
    requires
        n >= 1,
        last_line(lines, n + 1, j, w),
    ensures
        j == n || (last_line(lines, n, j, w) && !says(w, lines[n])),
{
}

proof fn lemma_meta(m0: Meta, lines: Seq<Seq<char>>, n: nat)
    requires
        1 <= n <= lines.len(),
    ensures
        tells(parse::meta_among(m0, lines, n), m0, lines, n as int),
    decreases n,
{
    if n > 1 {
        let k = (n - 1) as nat;
        lemma_meta(m0, lines, k);
        let l = lines[n - 1];
        lemma_line_kinds(l);
        lemma_some_line(lines, n - 1, Says::Content);
        lemma_some_line(lines, n - 1, Says::Added);
        lemma_some_line(lines, n - 1, Says::Deleted);
        lemma_some_line(lines, n - 1, Says::From);
        lemma_some_line(lines, n - 1, Says::To);
        let m = parse::meta_among(m0, lines, n);
        let before = parse::meta_among(m0, lines, k);
        assert(m == parse::meta_line(before, l));
        if !m.content {
            assert(!content_line(l));
            assert forall|j: int| #[trigger]
                last_line(lines, n as int, j, Says::From) implies m.old_path == parse::path_behind(
                lines[j],
                "from "@,
            ) by {
                lemma_last_line(lines, n - 1, j, Says::From);
                if j != n - 1 {
                    assert(last_line(lines, k as int, j, Says::From));
                    assert(!from_line(l));
                }
            }
            assert forall|j: int| #[trigger]
                last_line(lines, n as int, j, Says::To) implies m.new_path == parse::path_behind(
                lines[j],
                "to "@,
            ) by {
                lemma_last_line(lines, n - 1, j, Says::To);
                if j != n - 1 {
                    assert(last_line(lines, k as int, j, Says::To));
                    assert(!to_line(l));
                }
            }
        }
    }
}

proof fn lemma_path_behind(line: Seq<char>, verb: Seq<char>, word: Seq<char>, p: Seq<char>)
    requires
        line == verb.push(' ') + word + p,
        word.len() > 0,
        !verb.contains(' '),
        !strs::starts_with(p, word),
    ensures
        parse::path_behind(line, word) == parse::clean_path(p),
{
    reveal_strlit(" ");
    let at = verb.len();
    assert(line.skip(at as int).take(1) == " "@);
    assert forall|j: int| 0 <= j < at implies !strs::starts_with(#[trigger] line.skip(j), " "@) by {
        if strs::starts_with(line.skip(j), " "@) {
            lemma_first_char(line.skip(j), " "@, 0);
            assert(verb[j] == ' ');
        }
    }
    lemma_place(line, " "@, 0, at);
    let b = line.skip(at as int + 1);
    assert(b == word + p);
    assert((word + p).take(word.len() as int) == word);
    assert((word + p).skip(word.len() as int) == p);
    assert(parse::without_all(p, word) == p);
    assert(parse::without_all(b, word) == parse::without_all(p, word));
    assert(strs::parted(line, " "@) == Some((line.take(at as int), b)));
}

proof fn lemma_place(s: Seq<char>, p: Seq<char>, i: nat, at: nat)
    requires
        i <= at <= s.len(),
        strs::starts_with(s.skip(at as int), p),
        forall|j: int| i <= j < at ==> !strs::starts_with(#[trigger] s.skip(j), p),
    ensures
        strs::place_of(s, p, i) == Some(at),
    decreases at - i,
{
    if i < at {
        assert(!strs::starts_with(s.skip(i as int), p));
        lemma_place(s, p, i + 1, at);
    }
}

/// A line of a rename or a copy names the path behind its first two words.
pub proof fn law_renames_name_the_file(p: Seq<char>)
    requires
        !strs::starts_with(p, "from "@),
        !strs::starts_with(p, "to "@),
    ensures
        parse::path_behind("rename from "@ + p, "from "@) == parse::clean_path(p),
        parse::path_behind("copy from "@ + p, "from "@) == parse::clean_path(p),
        parse::path_behind("rename to "@ + p, "to "@) == parse::clean_path(p),
        parse::path_behind("copy to "@ + p, "to "@) == parse::clean_path(p),
{
    reveal_strlit("rename from ");
    reveal_strlit("copy from ");
    reveal_strlit("rename to ");
    reveal_strlit("copy to ");
    reveal_strlit("from ");
    reveal_strlit("to ");
    reveal_strlit("rename");
    reveal_strlit("copy");
    assert("rename from "@ + p == "rename"@.push(' ') + "from "@ + p);
    assert("copy from "@ + p == "copy"@.push(' ') + "from "@ + p);
    assert("rename to "@ + p == "rename"@.push(' ') + "to "@ + p);
    assert("copy to "@ + p == "copy"@.push(' ') + "to "@ + p);
    lemma_path_behind("rename from "@ + p, "rename"@, "from "@, p);
    lemma_path_behind("copy from "@ + p, "copy"@, "from "@, p);
    lemma_path_behind("rename to "@ + p, "rename"@, "to "@, p);
    lemma_path_behind("copy to "@ + p, "copy"@, "to "@, p);
}

/// A block of metadata with a header gives a file exactly where it shows no content. An added
/// file has no old side and a deleted one no new side; a rename or a copy gives the paths that
/// its lines name; else the paths are those of the header.
pub proof fn law_blocks_describe_files(block: Seq<char>, x: Seq<char>, y: Seq<char>)
    requires
        strs::lines(block).len() > 0,
        parse::header_paths(strs::trimmed(strs::lines(block)[0])) == Some((x, y)),
    ensures
        ({
            let lines = strs::lines(block);
            let n = lines.len() as int;
            let file = parse::block_file(block);
            let added = some_line(lines, n, Says::Added);
            let deleted = some_line(
                lines,
                n,
                Says::Deleted,
            );
            &&& file is None <==> some_line(lines, n, Says::Content)
            &&& file matches Some(f) ==> {
                &&& f.hunks.len() == 0
                &&& !f.is_binary
                &&& added ==> f.old_path == "/dev/null"@
                &&& deleted && !added ==> f.new_path == "/dev/null"@
                &&& !added && !some_line(lines, n, Says::From) ==> f.old_path == x
                &&& (added || !deleted) && !some_line(lines, n, Says::To) ==> f.new_path == y
                &&& forall|j: int|
                    !added && #[trigger] last_line(lines, n, j, Says::From) ==> f.old_path
                        == parse::path_behind(lines[j], "from "@)
                &&& forall|j: int|
                    (added || !deleted) && #[trigger] last_line(lines, n, j, Says::To) ==> f.new_path
                        == parse::path_behind(lines[j], "to "@)
            }
        }),
{
    let lines = strs::lines(block);
    let m0 = Meta { old_path: x, new_path: y, content: false, added: false, deleted: false };
    lemma_meta(m0, lines, lines.len());
}

} // verus!
