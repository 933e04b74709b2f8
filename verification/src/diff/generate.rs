//! Generate a [`DiffFile`] from two text blobs using `similar`.
use crate::diff::model::{DiffFile, DiffFileV, DiffLine, DiffLineV, Hunk, HunkV, LineKind};
use crate::diff::parse;
use crate::diff::parse::next_number;
use crate::strs;
use vstd::prelude::*;

verus! {

/// A line of a diff: its place in the old and the new text, counted from 0, and the text with
/// its line break.
#[derive(Debug)]
pub struct LineChange {
    pub kind: LineKind,
    pub old: Option<usize>,
    pub new: Option<usize>,
    pub text: String,
}

/// What a [`LineChange`] says.
#[verifier::ext_equal]
pub struct LineChangeV {
    pub kind: LineKind,
    pub old: Option<usize>,
    pub new: Option<usize>,
    pub text: Seq<char>,
}

impl View for LineChange {
    type V = LineChangeV;

    open spec fn view(&self) -> LineChangeV {
        LineChangeV { kind: self.kind, old: self.old, new: self.new, text: self.text@ }
    }
}

/// The groups of changes that `similar::TextDiff` finds between the lines of two texts, with
/// `context` unchanged lines around each change.
pub uninterp spec fn changes_between(old: Seq<char>, new: Seq<char>, context: nat) -> Seq<
    Seq<LineChangeV>,
>;

/// What groups of changes say.
pub open spec fn groups_view(groups: Seq<Vec<LineChange>>) -> Seq<Seq<LineChangeV>> {
    Seq::new(groups.len(), |i: int| strs::views(groups[i]@))
}

/// A deleted line has a place in the old text alone, an added one in the new text alone, and
/// an unchanged one in both.
pub open spec fn placed(c: LineChangeV) -> bool {
    (c.old is Some <==> c.kind != LineKind::Addition) && (c.new is Some <==> c.kind
        != LineKind::Deletion)
}

/// The length of a text's first line, with its break: a line feed, a carriage return, or both.
pub open spec fn first_line_len(s: Seq<char>) -> nat
    decreases s.len(),
{
    if s.len() == 0 {
        0
    } else if s[0] == '\n' {
        1
    } else if s[0] == '\r' {
        if s.len() > 1 && s[1] == '\n' {
            2
        } else {
            1
        }
    } else {
        1 + first_line_len(s.skip(1))
    }
}

/// The lines of a text, each with its break. `n` bounds their number.
pub open spec fn first_lines(s: Seq<char>, n: nat) -> Seq<Seq<char>>
    decreases n,
{
    if n == 0 || s.len() == 0 {
        Seq::empty()
    } else {
        let k = first_line_len(s) as int;
        seq![s.take(k)] + first_lines(s.skip(k), (n - 1) as nat)
    }
}

/// The lines of a text, each with its break.
pub open spec fn lines_in(s: Seq<char>) -> Seq<Seq<char>> {
    first_lines(s, s.len())
}

/// A line stands at its places in the texts.
pub open spec fn stands(c: LineChangeV, old: Seq<Seq<char>>, new: Seq<Seq<char>>) -> bool {
    &&& c.old matches Some(i) ==> i < old.len() && old[i as int] == c.text
    &&& c.new matches Some(j) ==> j < new.len() && new[j as int] == c.text
}

/// The place of a line in the text that lines of kind `kind` stand in alone.
pub open spec fn place(c: LineChangeV, kind: LineKind) -> Option<usize> {
    if kind == LineKind::Deletion {
        c.old
    } else {
        c.new
    }
}

/// Whether line `i` of a text is among the changes of kind `kind`.
pub open spec fn changed(groups: Seq<Seq<LineChangeV>>, kind: LineKind, i: int) -> bool {
    exists|g: int, k: int|
        0 <= g < groups.len() && 0 <= k < groups[g].len() && (#[trigger] groups[g][k]).kind == kind
            && place(groups[g][k], kind) == Some(i as usize)
}

/// The first `n` lines of a text without the changes of kind `kind`.
pub open spec fn unchanged(
    lines: Seq<Seq<char>>,
    groups: Seq<Seq<LineChangeV>>,
    kind: LineKind,
    n: nat,
) -> Seq<Seq<char>>
    decreases n,
{
    if n == 0 {
        Seq::empty()
    } else {
        let before = unchanged(lines, groups, kind, (n - 1) as nat);
        if changed(groups, kind, n - 1) {
            before
        } else {
            before.push(lines[n - 1])
        }
    }
}

/// `similar::TextDiff::from_lines`, with `grouped_ops` and `iter_changes`: the groups of
/// changed lines. Equal texts have none, texts that differ have a line that is added or deleted,
/// each line has its place in the texts that it stands in, and is the line there, and the old
/// text without the deleted lines is the new one without the added lines. A larger context would
/// overflow, and so would the numbers (of 32 bits) that distinct lines get. Which changes are
/// chosen where there is a choice has a name.
#[verifier::external_body]
fn compare_lines(old: &str, new: &str, context: usize) -> (r: Vec<Vec<LineChange>>)
    requires
        context <= usize::MAX / 2,
        lines_in(old@).len() + lines_in(new@).len() <= u32::MAX,
    ensures
        groups_view(r@) == changes_between(old@, new@, context as nat),
        old@ == new@ ==> r@.len() == 0,
        old@ != new@ ==> exists|g: int, i: int|
            0 <= g < r@.len() && 0 <= i < r@[g]@.len() && (#[trigger] r@[g]@[i]).kind
                != LineKind::Context,
        forall|g: int, i: int|
            0 <= g < r@.len() && 0 <= i < r@[g]@.len() ==> placed(#[trigger] r@[g]@[i]@) && stands(
                r@[g]@[i]@,
                lines_in(old@),
                lines_in(new@),
            ),
        unchanged(
            lines_in(old@),
            groups_view(r@),
            LineKind::Deletion,
            lines_in(old@).len(),
        ) == unchanged(
            lines_in(new@),
            groups_view(r@),
            LineKind::Addition,
            lines_in(new@).len(),
        ),
{
    let diff = similar::TextDiff::from_lines(old, new);
    let kind = |tag| match tag {
        similar::ChangeTag::Equal => LineKind::Context,
        similar::ChangeTag::Delete => LineKind::Deletion,
        similar::ChangeTag::Insert => LineKind::Addition,
    };
    let line = |c: similar::Change<&str>| LineChange {
        kind: kind(c.tag()), old: c.old_index(), new: c.new_index(), text: c.value().to_string() };
    diff.grouped_ops(context).iter()
        .map(|g| g.iter().flat_map(|op| diff.iter_changes(op)).map(line).collect()).collect()
}

/// A text without the line breaks at its end.
pub open spec fn without_breaks(s: Seq<char>) -> Seq<char>
    decreases s.len(),
{
    if s.len() > 0 && s.last() == '\n' {
        without_breaks(s.drop_last())
    } else {
        s
    }
}

/// Strip the line breaks at the end of a text.
pub(crate) fn strip_breaks(s: &str) -> (r: String)
    ensures
        r@ == without_breaks(s@),
{
    let chars = strs::chars_of(s);
    let mut n: usize = chars.len();
    assert(s@.take(n as int) == s@);
    while n > 0 && chars[n - 1] == '\n'
        invariant
            chars@ == s@,
            n <= chars.len(),
            without_breaks(s@.take(n as int)) == without_breaks(s@),
        decreases n,
    {
        assert(s@.take(n as int).drop_last() == s@.take(n - 1));
        n -= 1;
    }
    assert(n > 0 ==> s@.take(n as int).last() == s@[n - 1]);
    let mut out = String::new();
    let mut i: usize = 0;
    assert(out@ == s@.take(0));
    while i < n
        invariant
            chars@ == s@,
            i <= n <= chars.len(),
            out@ == s@.take(i as int),
        decreases n - i,
    {
        out.push(chars[i]);
        assert(s@.take(i + 1) == s@.take(i as int).push(s@[i as int]));
        i += 1;
    }
    out
}

/// The line number of a place.
pub open spec fn number_of(place: Option<usize>) -> Option<u32> {
    match place {
        Some(i) => Some(parse::after(i as u32)),
        None => None,
    }
}

/// A changed line, in the model.
pub open spec fn line_of(c: LineChangeV) -> DiffLineV {
    DiffLineV {
        kind: c.kind,
        old_line: number_of(c.old),
        new_line: number_of(c.new),
        text: without_breaks(c.text),
    }
}

/// The number of a line on one side.
pub open spec fn number_on(l: DiffLineV, old: bool) -> Option<u32> {
    if old {
        l.old_line
    } else {
        l.new_line
    }
}

/// The lowest number of the first `n` lines on one side, `u32::MAX` if there is none.
pub open spec fn lowest(lines: Seq<DiffLineV>, n: nat, old: bool) -> u32
    decreases n,
{
    if n == 0 {
        u32::MAX
    } else {
        let before = lowest(lines, (n - 1) as nat, old);
        match number_on(lines[n - 1], old) {
            Some(k) => if k < before {
                k
            } else {
                before
            },
            None => before,
        }
    }
}

/// How many of the first `n` lines have a number on one side, modulo 2^32.
pub open spec fn numbered(lines: Seq<DiffLineV>, n: nat, old: bool) -> u32
    decreases n,
{
    if n == 0 {
        0
    } else {
        let before = numbered(lines, (n - 1) as nat, old);
        if number_on(lines[n - 1], old) is Some {
            parse::after(before)
        } else {
            before
        }
    }
}

/// The start of a hunk on one side: 0 where it has no lines there.
pub open spec fn start_on(lines: Seq<DiffLineV>, old: bool) -> u32 {
    let low = lowest(lines, lines.len(), old);
    if low == u32::MAX {
        0
    } else {
        low
    }
}

/// A group of changes, in the model.
pub open spec fn hunk_of(group: Seq<LineChangeV>) -> HunkV {
    let lines = Seq::new(group.len(), |i: int| line_of(group[i]));
    HunkV {
        old_start: start_on(lines, true),
        old_count: numbered(lines, lines.len(), true),
        new_start: start_on(lines, false),
        new_count: numbered(lines, lines.len(), false),
        section: None,
        lines,
    }
}

/// Groups of changes, in the model.
pub open spec fn hunks_of(groups: Seq<Seq<LineChangeV>>) -> Seq<HunkV> {
    Seq::new(groups.len(), |i: int| hunk_of(groups[i]))
}

fn number(place: Option<usize>) -> (r: Option<u32>)
    ensures
        r == number_of(place),
{
    match place {
        Some(i) => Some(
            next_number(
                #[verifier::truncate]
                (i as u32),
            ),
        ),
        None => None,
    }
}

fn lower(low: u32, number: Option<u32>) -> (r: u32)
    ensures
        r == match number {
            Some(k) => if k < low {
                k
            } else {
                low
            },
            None => low,
        },
{
    match number {
        Some(k) => if k < low {
            k
        } else {
            low
        },
        None => low,
    }
}

fn tally(count: u32, number: Option<u32>) -> (r: u32)
    ensures
        r == if number is Some {
            parse::after(count)
        } else {
            count
        },
{
    match number {
        Some(_) => next_number(count),
        None => count,
    }
}

/// Make a hunk of a group of changes.
pub fn to_hunk(group: &Vec<LineChange>) -> (r: Hunk)
    ensures
        r@ == hunk_of(strs::views(group@)),
{
    let ghost gv = strs::views(group@);
    let ghost all = hunk_of(gv).lines;
    let mut lines: Vec<DiffLine> = Vec::new();
    let mut old_start: u32 = u32::MAX;
    let mut new_start: u32 = u32::MAX;
    let mut old_count: u32 = 0;
    let mut new_count: u32 = 0;
    let mut i: usize = 0;
    assert(strs::views(lines@) == all.take(0));
    while i < group.len()
        invariant
            gv == strs::views(group@),
            all == hunk_of(gv).lines,
            i <= group.len(),
            strs::views(lines@) == all.take(i as int),
            old_start == lowest(all, i as nat, true),
            new_start == lowest(all, i as nat, false),
            old_count == numbered(all, i as nat, true),
            new_count == numbered(all, i as nat, false),
        decreases group.len() - i,
    {
        let c = &group[i];
        assert(c@ == gv[i as int]);
        let old_line = number(c.old);
        let new_line = number(c.new);
        old_start = lower(old_start, old_line);
        new_start = lower(new_start, new_line);
        old_count = tally(old_count, old_line);
        new_count = tally(new_count, new_line);
        let text = strip_breaks(c.text.as_str());
        let ghost before = lines@;
        lines.push(DiffLine { kind: c.kind, old_line, new_line, text });
        assert(strs::views(lines@) == strs::views(before).push(all[i as int]));
        assert(all.take(i + 1) == all.take(i as int).push(all[i as int]));
        i += 1;
    }
    assert(all.take(all.len() as int) == all);
    let old_start = if old_start == u32::MAX {
        0
    } else {
        old_start
    };
    let new_start = if new_start == u32::MAX {
        0
    } else {
        new_start
    };
    Hunk { old_start, old_count, new_start, new_count, section: None, lines }
}

/// Make hunks of groups of changes.
pub fn to_hunks(groups: &Vec<Vec<LineChange>>) -> (r: Vec<Hunk>)
    ensures
        strs::views(r@) == hunks_of(groups_view(groups@)),
{
    let ghost all = hunks_of(groups_view(groups@));
    let mut hunks: Vec<Hunk> = Vec::new();
    let mut i: usize = 0;
    assert(strs::views(hunks@) == all.take(0));
    while i < groups.len()
        invariant
            all == hunks_of(groups_view(groups@)),
            i <= groups.len(),
            strs::views(hunks@) == all.take(i as int),
        decreases groups.len() - i,
    {
        let ghost before = hunks@;
        hunks.push(to_hunk(&groups[i]));
        assert(strs::views(hunks@) == strs::views(before).push(all[i as int]));
        assert(all.take(i + 1) == all.take(i as int).push(all[i as int]));
        i += 1;
    }
    assert(all.take(all.len() as int) == all);
    hunks
}

/// Whether the header of a hunk agrees with its lines: the counts are the numbers of its
/// lines on either side, and every line has a number on the sides that it stands on.
pub open spec fn header_agrees(h: HunkV) -> bool {
    &&& h.old_count as nat == h.lines.filter(|l: DiffLineV| l.kind != LineKind::Addition).len()
    &&& h.new_count as nat == h.lines.filter(|l: DiffLineV| l.kind != LineKind::Deletion).len()
    &&& forall|i: int|
        0 <= i < h.lines.len() ==> {
            let l = #[trigger] h.lines[i];
            &&& l.old_line is Some <==> l.kind != LineKind::Addition
            &&& l.new_line is Some <==> l.kind != LineKind::Deletion
        }
}

/// Whether the lines of a hunk are those that the texts have under their numbers.
pub open spec fn tells_truth(h: HunkV, old: Seq<Seq<char>>, new: Seq<Seq<char>>) -> bool {
    forall|i: int|
        0 <= i < h.lines.len() ==> {
            let l = #[trigger] h.lines[i];
            &&& l.old_line matches Some(n) ==> 1 <= n <= old.len() && l.text == without_breaks(
                old[n - 1],
            )
            &&& l.new_line matches Some(n) ==> 1 <= n <= new.len() && l.text == without_breaks(
                new[n - 1],
            )
        }
}

/// Whether one of the lines of hunks is added or deleted.
pub open spec fn changes_something(hunks: Seq<HunkV>) -> bool {
    exists|h: int, i: int|
        0 <= h < hunks.len() && 0 <= i < hunks[h].lines.len() && (
        #[trigger] hunks[h].lines[i]).kind != LineKind::Context
}

/// Whether line `i` of a text is deleted in hunks, or added, as `kind` says.
pub open spec fn crossed_out(hunks: Seq<HunkV>, kind: LineKind, i: int) -> bool {
    exists|h: int, k: int|
        0 <= h < hunks.len() && 0 <= k < hunks[h].lines.len() && (
        #[trigger] hunks[h].lines[k]).kind == kind && number_on(
            hunks[h].lines[k],
            kind == LineKind::Deletion,
        ) == Some((i + 1) as u32)
}

/// The first `n` lines of a text without those that are deleted in hunks, or added.
pub open spec fn left_over(
    lines: Seq<Seq<char>>,
    hunks: Seq<HunkV>,
    kind: LineKind,
    n: nat,
) -> Seq<Seq<char>>
    decreases n,
{
    if n == 0 {
        Seq::empty()
    } else {
        let before = left_over(lines, hunks, kind, (n - 1) as nat);
        if crossed_out(hunks, kind, n - 1) {
            before
        } else {
            before.push(lines[n - 1])
        }
    }
}

/// Whether hunks turn the lines of one text into those of another: without the deleted lines
/// the old text is the new one without the added lines.
pub open spec fn leads_from_to(
    hunks: Seq<HunkV>,
    old: Seq<Seq<char>>,
    new: Seq<Seq<char>>,
) -> bool {
    left_over(old, hunks, LineKind::Deletion, old.len()) == left_over(
        new,
        hunks,
        LineKind::Addition,
        new.len(),
    )
}

/// Build a single-file diff between `old` and `new` text.
///
/// `context` is the number of unchanged lines kept around each change. There is a change where
/// the texts differ, and only there, and the changes lead from the one to the other.
pub fn diff_texts(old_path: &str, new_path: &str, old: &str, new: &str, context: usize) -> (r:
    DiffFile)
    requires
        context <= usize::MAX / 2,
        lines_in(old@).len() + lines_in(new@).len() <= u32::MAX,
    ensures
        r@ == (DiffFileV {
            old_path: old_path@,
            new_path: new_path@,
            hunks: hunks_of(changes_between(old@, new@, context as nat)),
            is_binary: false,
        }),
        old@ == new@ ==> r@.hunks.len() == 0,
        old@ != new@ ==> changes_something(r@.hunks),
        forall|i: int|
            0 <= i < r@.hunks.len() && (#[trigger] r@.hunks[i]).lines.len() <= u32::MAX
                ==> header_agrees(r@.hunks[i]),
        forall|i: int|
            0 <= i < r@.hunks.len() ==> tells_truth(
                #[trigger] r@.hunks[i],
                lines_in(old@),
                lines_in(new@),
            ),
        leads_from_to(r@.hunks, lines_in(old@), lines_in(new@)),
{
    let groups = compare_lines(old, new, context);
    let hunks = to_hunks(&groups);
    let r = DiffFile {
        old_path: strs::owned(old_path),
        new_path: strs::owned(new_path),
        hunks,
        is_binary: false,
    };
    proof {
        let gv = groups_view(groups@);
        assert(strs::views(hunks@).len() == hunks@.len());
        assert forall|i: int|
            0 <= i < r@.hunks.len() && (#[trigger] r@.hunks[i]).lines.len()
                <= u32::MAX implies header_agrees(r@.hunks[i]) by {
            assert forall|k: int| 0 <= k < gv[i].len() implies placed(#[trigger] gv[i][k]) by {
                assert(gv[i][k] == groups@[i]@[k]@);
            }
            law_header_agrees(gv[i]);
        }
        let o = lines_in(old@);
        let n = lines_in(new@);
        assert forall|i: int| 0 <= i < r@.hunks.len() implies tells_truth(
            #[trigger] r@.hunks[i],
            o,
            n,
        ) by {
            assert forall|k: int| 0 <= k < gv[i].len() implies stands(
                #[trigger] gv[i][k],
                o,
                n,
            ) by {
                assert(gv[i][k] == groups@[i]@[k]@);
            }
            law_hunk_tells_truth(gv[i], o, n);
        }
        assert forall|i: int, k: int| 0 <= i < gv.len() && 0 <= k < gv[i].len() implies stands(
            #[trigger] gv[i][k],
            o,
            n,
        ) && placed(gv[i][k]) by {
            assert(gv[i][k] == groups@[i]@[k]@);
        }
        law_hunks_lead_from_to(gv, o, n);
        if old@ != new@ {
            let (g, i) = choose|g: int, i: int|
                0 <= g < groups@.len() && 0 <= i < groups@[g]@.len() && (
                #[trigger] groups@[g]@[i]).kind != LineKind::Context;
            assert(gv[g][i] == groups@[g]@[i]@);
            assert(r@.hunks[g].lines[i].kind != LineKind::Context);
        }
    }
    r
}

/// The header of a hunk agrees with its lines.
pub proof fn law_header_agrees(group: Seq<LineChangeV>)
    requires
        group.len() <= u32::MAX,
        forall|i: int| 0 <= i < group.len() ==> placed(#[trigger] group[i]),
    ensures
        header_agrees(hunk_of(group)),
{
    let lines = hunk_of(group).lines;
    assert forall|i: int| 0 <= i < lines.len() implies {
        let l = #[trigger] lines[i];
        &&& l.old_line is Some <==> l.kind != LineKind::Addition
        &&& l.new_line is Some <==> l.kind != LineKind::Deletion
    } by {
        assert(placed(group[i]));
    }
    lemma_tally(lines, lines.len(), true);
    lemma_tally(lines, lines.len(), false);
    assert(lines.take(lines.len() as int) == lines);
}

/// A hunk tells the truth: each of its lines is the one that the old and the new text have
/// under its numbers.
pub proof fn law_hunk_tells_truth(
    group: Seq<LineChangeV>,
    old: Seq<Seq<char>>,
    new: Seq<Seq<char>>,
)
    requires
        old.len() <= u32::MAX,
        new.len() <= u32::MAX,
        forall|i: int| 0 <= i < group.len() ==> stands(#[trigger] group[i], old, new),
    ensures
        tells_truth(hunk_of(group), old, new),
{
    let h = hunk_of(group);
    assert forall|i: int| 0 <= i < h.lines.len() implies {
        let l = #[trigger] h.lines[i];
        &&& l.old_line matches Some(n) ==> 1 <= n <= old.len() && l.text == without_breaks(
            old[n - 1],
        )
        &&& l.new_line matches Some(n) ==> 1 <= n <= new.len() && l.text == without_breaks(
            new[n - 1],
        )
    } by {
        assert(stands(group[i], old, new));
    }
}

proof fn lemma_left_over(
    groups: Seq<Seq<LineChangeV>>,
    old: Seq<Seq<char>>,
    new: Seq<Seq<char>>,
    kind: LineKind,
    n: nat,
)
    requires
        kind != LineKind::Context,
        old.len() <= u32::MAX,
        new.len() <= u32::MAX,
        n <= (if kind == LineKind::Deletion {
            old.len()
        } else {
            new.len()
        }),
        forall|g: int, k: int|
            0 <= g < groups.len() && 0 <= k < groups[g].len() ==> stands(
                #[trigger] groups[g][k],
                old,
                new,
            ) && placed(groups[g][k]),
    ensures
        ({
            let lines = if kind == LineKind::Deletion {
                old
            } else {
                new
            };
            left_over(lines, hunks_of(groups), kind, n) == unchanged(lines, groups, kind, n)
        }),
    decreases n,
{
    if n > 0 {
        lemma_left_over(groups, old, new, kind, (n - 1) as nat);
        let hunks = hunks_of(groups);
        if changed(groups, kind, n - 1) {
            let (g, k) = choose|g: int, k: int|
                0 <= g < groups.len() && 0 <= k < groups[g].len() && (
                #[trigger] groups[g][k]).kind == kind && place(groups[g][k], kind) == Some(
                    (n - 1) as usize,
                );
            assert(stands(groups[g][k], old, new));
            assert(hunks[g].lines[k] == line_of(groups[g][k]));
            assert(crossed_out(hunks, kind, n - 1));
        }
        if crossed_out(hunks, kind, n - 1) {
            let (g, k) = choose|g: int, k: int|
                0 <= g < hunks.len() && 0 <= k < hunks[g].lines.len() && (
                #[trigger] hunks[g].lines[k]).kind == kind && number_on(
                    hunks[g].lines[k],
                    kind == LineKind::Deletion,
                ) == Some(n as u32);
            assert(hunks[g].lines[k] == line_of(groups[g][k]));
            assert(stands(groups[g][k], old, new) && placed(groups[g][k]));
            assert(changed(groups, kind, n - 1));
        }
    }
}

/// Hunks made of changes lead from the one text to the other where the changes do.
pub proof fn law_hunks_lead_from_to(
    groups: Seq<Seq<LineChangeV>>,
    old: Seq<Seq<char>>,
    new: Seq<Seq<char>>,
)
    requires
        old.len() <= u32::MAX,
        new.len() <= u32::MAX,
        forall|g: int, k: int|
            0 <= g < groups.len() && 0 <= k < groups[g].len() ==> stands(
                #[trigger] groups[g][k],
                old,
                new,
            ) && placed(groups[g][k]),
        unchanged(old, groups, LineKind::Deletion, old.len()) == unchanged(
            new,
            groups,
            LineKind::Addition,
            new.len(),
        ),
    ensures
        leads_from_to(hunks_of(groups), old, new),
{
    lemma_left_over(groups, old, new, LineKind::Deletion, old.len());
    lemma_left_over(groups, old, new, LineKind::Addition, new.len());
}

proof fn lemma_tally(lines: Seq<DiffLineV>, n: nat, old: bool)
    requires
        n <= lines.len() <= u32::MAX,
        forall|i: int|
            0 <= i < lines.len() ==> {
                let l = #[trigger] lines[i];
                &&& l.old_line is Some <==> l.kind != LineKind::Addition
                &&& l.new_line is Some <==> l.kind != LineKind::Deletion
            },
    ensures
        numbered(lines, n, old) <= n,
        old ==> numbered(lines, n, old) as nat == lines.take(n as int).filter(
            |l: DiffLineV| l.kind != LineKind::Addition,
        ).len(),
        !old ==> numbered(lines, n, old) as nat == lines.take(n as int).filter(
            |l: DiffLineV| l.kind != LineKind::Deletion,
        ).len(),
    decreases n,
{
    reveal(Seq::filter);
    if n > 0 {
        lemma_tally(lines, (n - 1) as nat, old);
        assert(lines.take(n as int).drop_last() == lines.take(n - 1));
        assert(lines.take(n as int).last() == lines[n - 1]);
    }
}

} // verus!
