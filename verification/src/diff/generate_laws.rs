//! What hunks that are made of changes look like.
use crate::diff::generate;
use crate::diff::generate::LineChangeV;
use crate::diff::model::DiffLineV;
use vstd::prelude::*;

verus! {

/// Whether `s` is `t` with line feeds behind it, and `t` does not end in one.
pub open spec fn broken_off(s: Seq<char>, t: Seq<char>) -> bool {
    &&& t.len() <= s.len() && s.take(t.len() as int) == t
    &&& forall|i: int| t.len() <= i < s.len() ==> #[trigger] s[i] == '\n'
    &&& t.len() > 0 ==> t.last() != '\n'
}

/// A line loses the line feeds at its end, and nothing else.
pub proof fn law_only_line_feeds_are_taken(s: Seq<char>)
    ensures
        broken_off(s, generate::without_breaks(s)),
    decreases s.len(),
{
    let t = generate::without_breaks(s);
    if s.len() > 0 && s.last() == '\n' {
        let d = s.drop_last();
        law_only_line_feeds_are_taken(d);
        assert(s.take(t.len() as int) == d.take(t.len() as int));
        assert forall|i: int| t.len() <= i < s.len() implies #[trigger] s[i] == '\n' by {
            if i < d.len() {
                assert(d[i] == s[i]);
            }
        }
    } else {
        assert(s.take(s.len() as int) == s);
    }
}

/// A hunk has the changes that it is made of, in their order: each with its kind, with the
/// numbers of its places counted from one, and with its text.
pub proof fn law_hunks_follow_their_changes(group: Seq<LineChangeV>, i: int)
    requires
        0 <= i < group.len(),
    ensures
        ({
            let c = group[i];
            let h = generate::hunk_of(group);
            let l = h.lines[i];
            &&& h.lines.len() == group.len() && h.section is None
            &&& l.kind == c.kind
            &&& c.old is None ==> l.old_line is None
            &&& c.new is None ==> l.new_line is None
            &&& c.old matches Some(n) ==> (n < u32::MAX ==> l.old_line == Some((n + 1) as u32))
            &&& c.new matches Some(n) ==> (n < u32::MAX ==> l.new_line == Some((n + 1) as u32))
            &&& broken_off(c.text, l.text)
        }),
{
    law_only_line_feeds_are_taken(group[i].text);
}

/// The number of a line on a side.
pub open spec fn number(l: DiffLineV, old: bool) -> Option<u32> {
    if old {
        l.old_line
    } else {
        l.new_line
    }
}

proof fn lemma_lowest(lines: Seq<DiffLineV>, n: nat, old: bool)
    requires
        n <= lines.len(),
    ensures
        ({
            let low = generate::lowest(lines, n, old);
            &&& forall|i: int|
                0 <= i < n ==> (number(#[trigger] lines[i], old) matches Some(k) ==> low <= k)
            &&& low == u32::MAX || exists|i: int|
                0 <= i < n && number(#[trigger] lines[i], old) == Some(low)
        }),
    decreases n,
{
    if n > 0 {
        let m = (n - 1) as nat;
        lemma_lowest(lines, m, old);
        let before = generate::lowest(lines, m, old);
        assert(generate::number_on(lines[n - 1], old) == number(lines[n - 1], old));
        let low = generate::lowest(lines, n, old);
        if low != u32::MAX {
            if low == before {
                let i = choose|i: int|
                    0 <= i < m && number(#[trigger] lines[i], old) == Some(before);
                assert(number(lines[i], old) == Some(low));
            } else {
                assert(number(lines[n - 1], old) == Some(low));
            }
        }
    }
}

/// A hunk starts on either side at the lowest number that one of its lines has there, or at 0
/// where none has one.
pub proof fn law_hunks_start_at_their_first_line(group: Seq<LineChangeV>, old: bool, i: int)
    requires
        0 <= i < group.len(),
        forall|k: int|
            0 <= k < group.len() ==> number(
                #[trigger] generate::hunk_of(group).lines[k],
                old,
            ) != Some(u32::MAX),
    ensures
        ({
            let h = generate::hunk_of(group);
            let first = if old {
                h.old_start
            } else {
                h.new_start
            };
            &&& number(h.lines[i], old) matches Some(k) ==> first <= k
            &&& (exists|k: int|
                0 <= k < h.lines.len() && number(#[trigger] h.lines[k], old) == Some(first)) || (
            first == 0 && forall|k: int|
                0 <= k < h.lines.len() ==> number(#[trigger] h.lines[k], old) is None)
        }),
{
    let h = generate::hunk_of(group);
    lemma_lowest(h.lines, h.lines.len(), old);
    assert(number(h.lines[i], old) != Some(u32::MAX));
    let low = generate::lowest(h.lines, h.lines.len(), old);
    if low == u32::MAX {
        assert forall|k: int| 0 <= k < h.lines.len() implies number(
            #[trigger] h.lines[k],
            old,
        ) is None by {
            assert(number(h.lines[k], old) != Some(u32::MAX));
        }
    }
}

} // verus!
