//! How text is laid out in cells: words fill their lines, tabs reach their stops, and what a
//! terminal would obey is dropped.
use crate::strs;
use crate::ui::render_rows::text;
use crate::ui::render_rows::text::Wrap;
use vstd::prelude::*;

verus! {

/// Whether every character of a text takes one cell.
pub open spec fn narrow(s: Seq<char>) -> bool {
    forall|i: int| 0 <= i < s.len() ==> text::cell(#[trigger] s[i]) == 1
}

proof fn lemma_narrow(s: Seq<char>)
    requires
        narrow(s),
    ensures
        text::cells(s) == s.len(),
    decreases s.len(),
{
    if s.len() > 0 {
        assert(text::cell(s[s.len() - 1]) == 1);
        assert forall|i: int| 0 <= i < s.drop_last().len() implies text::cell(
            #[trigger] s.drop_last()[i],
        ) == 1 by {
            assert(s.drop_last()[i] == s[i]);
        }
        lemma_narrow(s.drop_last());
    }
}

proof fn lemma_overlong(word: Seq<char>, n: nat, width: nat, st: Wrap)
    requires
        n <= word.len() <= width,
        narrow(word),
        st.w == 0,
    ensures
        text::overlong(word, n, width, st) == (Wrap {
            out: st.out,
            line: st.line + word.take(n as int),
            w: n,
        }),
    decreases n,
{
    if n > 0 {
        lemma_overlong(word, (n - 1) as nat, width, st);
        assert(text::cell(word[n - 1]) == 1);
        assert((st.line + word.take(n - 1)).push(word[n - 1]) == st.line + word.take(n as int));
    } else {
        assert(st.line + word.take(0) == st.line);
    }
}

/// Whether no line could take in what stands on the next.
spec fn tight(out: Seq<Seq<char>>, line: Seq<char>, width: nat) -> bool {
    &&& forall|i: int|
        0 <= i < out.len() - 1 ==> (#[trigger] out[i]).len() + 1 + out[i + 1].len() > width
    &&& out.len() > 0 ==> out.last().len() + 1 + line.len() > width
}

proof fn lemma_words(words: Seq<Seq<char>>, n: nat, width: nat)
    requires
        n <= words.len(),
        width > 0,
        forall|i: int|
            0 <= i < words.len() ==> narrow(#[trigger] words[i]) && 0 < words[i].len() <= width,
    ensures
        ({
            let st = text::wrap_words(words, n, width);
            &&& st.w == st.line.len() && (st.w == 0 ==> st.out.len() == 0)
            &&& tight(st.out, st.line, width)
        }),
    decreases n,
{
    if n > 0 {
        lemma_words(words, (n - 1) as nat, width);
        let p = text::wrap_words(words, (n - 1) as nat, width);
        let st = text::wrap_words(words, n, width);
        let word = words[n - 1];
        lemma_narrow(word);
        assert(word.take(word.len() as int) == word);
        if p.w == 0 {
            lemma_overlong(word, word.len(), width, p);
        } else if p.w + 1 + text::cells(word) <= width {
        } else {
            let q = Wrap { out: p.out.push(p.line), line: Seq::empty(), w: 0 };
            lemma_overlong(word, word.len(), width, q);
            assert forall|i: int| 0 <= i < st.out.len() - 1 implies (#[trigger] st.out[i]).len() + 1
                + st.out[i + 1].len() > width by {
                if i < p.out.len() - 1 {
                    assert(st.out[i] == p.out[i]);
                    assert(st.out[i + 1] == p.out[i + 1]);
                }
            }
        }
    }
}

/// Words fill their lines: no line has room for what stands on the next. (For words that fit on
/// a line, of characters that take one cell each.)
pub proof fn law_words_fill_the_lines(s: Seq<char>, width: nat, i: int)
    requires
        width > 0,
        forall|k: int|
            0 <= k < strs::words(s).len() ==> narrow(#[trigger] strs::words(s)[k]) && 0
                < strs::words(s)[k].len() <= width,
        0 <= i < text::wrapped(s, width).len() - 1,
    ensures
        text::wrapped(s, width)[i].len() + 1 + text::wrapped(s, width)[i + 1].len() > width,
{
    let words = strs::words(s);
    lemma_words(words, words.len(), width);
    let st = text::wrap_words(words, words.len(), width);
    let all = text::wrapped(s, width);
    assert(all[i] == st.out[i]);
}

/// Whether a text has no control character.
pub open spec fn plain(s: Seq<char>) -> bool {
    forall|i: int| 0 <= i < s.len() ==> !strs::is_cc(#[trigger] s[i])
}

proof fn lemma_plain_front(a: Seq<char>, b: Seq<char>, i: nat, col: nat)
    requires
        plain(a),
        i <= a.len(),
        col < 4,
    ensures
        text::sanitize_from(a + b, i, col) == a.skip(i as int) + text::sanitize_from(
            a + b,
            a.len(),
            ((col + (a.len() - i)) % 4) as nat,
        ),
    decreases a.len() - i,
{
    let s = a + b;
    if i < a.len() {
        let c = s[i as int];
        assert(c == a[i as int]);
        assert(!strs::is_cc(a[i as int]));
        lemma_plain_front(a, b, i + 1, (col + 1) % 4);
        assert(((col + 1) % 4 + (a.len() - (i + 1))) % 4 == (col + (a.len() - i)) % 4)
            by (nonlinear_arith)
            requires
                col < 4,
                i < a.len(),
        {}
        let rest = text::sanitize_from(s, a.len(), ((col + (a.len() - i)) % 4) as nat);
        assert(seq![c] + (a.skip(i as int + 1) + rest) == a.skip(i as int) + rest);
    } else {
        assert(a.skip(i as int) == Seq::<char>::empty());
        assert(Seq::<char>::empty() + text::sanitize_from(s, i, col) == text::sanitize_from(
            s,
            i,
            col,
        ));
        assert((col + (a.len() - i)) % 4 == col);
    }
}

/// A tab is spaces up to the next column that is a multiple of four, and at least one. What has
/// no control character is kept as it is.
pub proof fn law_tabs_reach_the_next_stop(a: Seq<char>, b: Seq<char>)
    requires
        plain(a),
        plain(b),
    ensures
        text::sanitized(a) == a,
        ({
            let n = 4 - a.len() % 4;
            &&& 1 <= n <= 4 && (a.len() + n) % 4 == 0
            &&& text::sanitized(a + seq!['\t'] + b) == a + Seq::new(n as nat, |i: int| ' ') + b
        }),
{
    let e = Seq::<char>::empty();
    assert(a + e == a);
    lemma_plain_front(a, e, 0, 0);
    assert(a.skip(0) == a);
    assert(a + e == a);
    let s = a + seq!['\t'] + b;
    assert(s == a + (seq!['\t'] + b));
    lemma_plain_front(a, seq!['\t'] + b, 0, 0);
    let at = a + seq!['\t'];
    assert(s[a.len() as int] == '\t');
    let col = (a.len() % 4) as nat;
    let sp = text::spaces((4 - col) as nat);
    assert(text::sanitize_from(s, a.len(), col) == sp + text::sanitize_from(s, a.len() + 1, 0));
    lemma_plain_tail(at, b, 0, 0);
    assert(text::sanitize_from(s, at.len(), 0) == b);
    assert(a + (sp + b) == a + sp + b);
    assert(sp == Seq::new((4 - a.len() % 4) as nat, |i: int| ' '));
}

proof fn lemma_plain_tail(a: Seq<char>, b: Seq<char>, i: nat, col: nat)
    requires
        plain(b),
        i <= b.len(),
    ensures
        text::sanitize_from(a + b, a.len() + i, col) == b.skip(i as int),
    decreases b.len() - i,
{
    if i < b.len() {
        let c = (a + b)[a.len() as int + i];
        assert(c == b[i as int]);
        assert(!strs::is_cc(b[i as int]));
        lemma_plain_tail(a, b, i + 1, (col + 1) % 4);
        assert(seq![c] + b.skip(i as int + 1) == b.skip(i as int));
    } else {
        assert(b.skip(i as int) == Seq::<char>::empty());
    }
}

/// A sequence that sets colors or moves the cursor is dropped as a whole: from the escape and
/// the bracket up to its final character.
pub proof fn law_escape_sequences_are_dropped(a: Seq<char>, p: Seq<char>, z: char, b: Seq<char>)
    requires
        plain(a),
        plain(b),
        forall|i: int| 0 <= i < p.len() ==> !('@' <= #[trigger] p[i] && p[i] <= '~'),
        '@' <= z && z <= '~',
    ensures
        text::sanitized(a + seq!['\u{1b}', '['] + p + seq![z] + b) == a + b,
{
    let front = a + seq!['\u{1b}', '['] + p + seq![z];
    let s = front + b;
    let tail = seq!['\u{1b}', '['] + p + seq![z] + b;
    assert(s == a + tail);
    lemma_plain_front(a, tail, 0, 0);
    assert(a.skip(0) == a);
    assert(s[a.len() as int] == '\u{1b}');
    assert(s[a.len() as int + 1] == '[');
    text::lemma_ends(s, a.len() + 2);
    assert(s.subrange(a.len() as int + 2, a.len() as int + 2 + p.len()) == p);
    lemma_csi(s, a.len() + 2, p, z, 0);
    lemma_plain_tail(front, b, 0, (a.len() % 4) as nat);
    assert(front.len() == a.len() + 2 + p.len() + 1);
    assert(b.skip(0) == b);
}

proof fn lemma_csi(s: Seq<char>, at: nat, p: Seq<char>, z: char, i: nat)
    requires
        i <= p.len(),
        at + p.len() < s.len(),
        s.subrange(at as int, at as int + p.len()) == p,
        s[at as int + p.len()] == z,
        '@' <= z && z <= '~',
        forall|k: int| 0 <= k < p.len() ==> !('@' <= #[trigger] p[k] && p[k] <= '~'),
    ensures
        text::csi_end(s, at + i) == at + p.len() + 1,
    decreases p.len() - i,
{
    if i < p.len() {
        assert(s.subrange(at as int, at as int + p.len())[i as int] == p[i as int]);
        lemma_csi(s, at, p, z, i + 1);
    }
}

} // verus!
