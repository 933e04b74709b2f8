//! Text measurement, width-wrapping and line sanitization.
//!
//! The whole interface lays text out in fixed cells, so every measure here is in
//! terminal cells: a wide glyph counts 2, a zero-width or control character 0.
use crate::strs;
use crate::strs::{chars_of, split_words, string_of};
use unicode_width::UnicodeWidthChar;
use vstd::prelude::*;

verus! {

/// What `UnicodeWidthChar::width` returns: the number of columns of a character, or
/// `None` for a control character.
pub uninterp spec fn char_columns(c: char) -> Option<usize>;

/// `UnicodeWidthChar::width`. Printable ASCII and the box-drawing characters take one column,
/// and control characters have no width. Any other character takes at most three columns (two
/// below U+0800); which of these, its width tables decide.
#[verifier::external_body]
fn unicode_width(c: char) -> (w: Option<usize>)
    ensures
        w == char_columns(c),
        0x20 <= c as u32 && (c as u32) < 0x7f ==> w == Some(1usize),
        0x2500 <= c as u32 && c as u32 <= 0x257f ==> w == Some(1usize),
        w is None <==> strs::is_cc(c),
        w matches Some(n) ==> n <= 3,
        (c as u32) < 0x800 ==> (w matches Some(n) ==> n <= 2),
{
    UnicodeWidthChar::width(c)
}

/// The cells that one character takes.
pub open spec fn cell(c: char) -> nat {
    match char_columns(c) {
        Some(n) => n as nat,
        None => 0,
    }
}

/// The cells that a text takes.
pub open spec fn cells(s: Seq<char>) -> nat
    decreases s.len(),
{
    if s.len() == 0 {
        0
    } else {
        cells(s.drop_last()) + cell(s.last())
    }
}

/// One more character adds its cells.
pub broadcast proof fn lemma_cells_push(s: Seq<char>, c: char)
    ensures
        #[trigger] cells(s.push(c)) == cells(s) + cell(c),
{
    assert(s.push(c).drop_last() == s);
}

/// The cells of a concatenation are those of its parts.
pub proof fn lemma_cells_add(a: Seq<char>, b: Seq<char>)
    ensures
        cells(a + b) == cells(a) + cells(b),
    decreases b.len(),
{
    if b.len() == 0 {
        assert(a + b == a);
    } else {
        lemma_cells_add(a, b.drop_last());
        assert((a + b).drop_last() == a + b.drop_last());
    }
}

/// Display width of a single character (control characters count as 0).
pub fn char_width(c: char) -> (w: usize)
    ensures
        w == cell(c),
        w <= 3,
        (c as u32) < 0x800 ==> w <= 2,
        (c as u32) < 0x80 ==> w <= 1,
        0x20 <= c as u32 && (c as u32) < 0x7f ==> w == 1,
        0x2500 <= c as u32 && c as u32 <= 0x257f ==> w == 1,
        strs::is_cc(c) ==> w == 0,
{
    match unicode_width(c) {
        Some(n) => n,
        None => 0,
    }
}

/// Terminal display width of a string in cells.
pub fn str_width(s: &str) -> (w: usize)
    ensures
        w == cells(s@),
{
    let v = chars_of(s);
    let bytes = s.as_bytes();
    let n: usize = bytes.len();
    let mut w: usize = 0;
    let mut i: usize = 0;
    assert(v@.skip(0) == s@);
    while i < v.len()
        invariant
            v@ == s@,
            0 <= i <= v.len(),
            w == cells(v@.take(i as int)),
            w + vstd::utf8::encode_utf8(v@.skip(i as int)).len() <= n,
        decreases v.len() - i,
    {
        let cw: usize = char_width(v[i]);
        assert(v@.skip(i as int).drop_first() == v@.skip(i + 1));
        assert(v@.take(i + 1) == v@.take(i as int).push(v@[i as int]));
        proof {
            lemma_cells_push(v@.take(i as int), v@[i as int]);
        }
        w += cw;
        i += 1;
    }
    assert(v@.take(v.len() as int) == s@);
    w
}

/// How many characters of `s`, from the first, fit into `max` cells together: counted up
/// from `n`, which are known to fit.
pub open spec fn fit_from(s: Seq<char>, max: nat, n: nat) -> nat
    decreases s.len() - n,
{
    if n < s.len() && cells(s.take(n as int + 1)) <= max {
        fit_from(s, max, n + 1)
    } else {
        n
    }
}

/// The longest prefix of `s` that takes at most `max` cells.
pub open spec fn fit(s: Seq<char>, max: nat) -> Seq<char> {
    s.take(fit_from(s, max, 0) as int)
}

proof fn lemma_fit_from(s: Seq<char>, max: nat, n: nat)
    requires
        n <= s.len(),
        cells(s.take(n as int)) <= max,
    ensures
        n <= fit_from(s, max, n) <= s.len(),
        cells(s.take(fit_from(s, max, n) as int)) <= max,
        fit_from(s, max, n) < s.len() ==> cells(s.take(fit_from(s, max, n) as int + 1)) > max,
    decreases s.len() - n,
{
    if n < s.len() && cells(s.take(n as int + 1)) <= max {
        lemma_fit_from(s, max, n + 1);
    }
}

proof fn lemma_cells_take_monotonic(s: Seq<char>, i: int, j: int)
    requires
        0 <= i <= j <= s.len(),
    ensures
        cells(s.take(i)) <= cells(s.take(j)),
{
    assert(s.take(j) == s.take(i) + s.subrange(i, j));
    lemma_cells_add(s.take(i), s.subrange(i, j));
}

/// `fit(s, max)` is a prefix of `s` that takes at most `max` cells, and every prefix of `s`
/// that takes at most `max` cells is no longer than it.
pub proof fn law_fit_is_longest(s: Seq<char>, max: nat)
    ensures
        fit(s, max).len() <= s.len(),
        fit(s, max) == s.take(fit(s, max).len() as int),
        cells(fit(s, max)) <= max,
        forall|k: int|
            0 <= k <= s.len() && #[trigger] cells(s.take(k)) <= max ==> k <= fit(s, max).len(),
{
    assert(s.take(0) == Seq::<char>::empty());
    lemma_fit_from(s, max, 0);
    let n = fit_from(s, max, 0);
    assert forall|k: int| 0 <= k <= s.len() && #[trigger] cells(s.take(k)) <= max implies k <= n by {
        if k > n {
            lemma_cells_take_monotonic(s, n as int + 1, k);
        }
    }
}

/// Take the longest prefix of `s` whose display width does not exceed `max`, returning the
/// prefix and its actual width. A wide glyph straddling the boundary is dropped.
pub fn take_width(s: &str, max: usize) -> (r: (String, usize))
    ensures
        r.0@ == fit(s@, max as nat),
        r.1 == cells(r.0@),
        r.1 <= max,
{
    let v = chars_of(s);
    let mut out = String::new();
    let mut w: usize = 0;
    let mut i: usize = 0;
    assert(v@.take(0) == Seq::<char>::empty());
    while i < v.len()
        invariant_except_break
            0 <= i <= v.len(),
            out@ == v@.take(i as int),
            w == cells(v@.take(i as int)),
            w <= max,
            fit_from(v@, max as nat, i as nat) == fit_from(v@, max as nat, 0),
        ensures
            i <= v.len(),
            out@ == v@.take(i as int),
            w == cells(v@.take(i as int)),
            w <= max,
            i == fit_from(v@, max as nat, 0),
        decreases v.len() - i,
    {
        let c = v[i];
        let cw: usize = char_width(c);
        assert(v@.take(i + 1) == v@.take(i as int).push(c));
        proof {
            lemma_cells_push(v@.take(i as int), c);
        }
        if cw > max - w {
            break;
        }
        out.push(c);
        w += cw;
        i += 1;
    }
    (out, w)
}

/// The state of a wrap: the finished lines, the line being filled, and its cells.
#[verifier::ext_equal]
pub struct Wrap {
    pub out: Seq<Seq<char>>,
    pub line: Seq<char>,
    pub w: nat,
}

/// `st` after the first `n` characters of `word`, broken wherever a glyph would overflow a
/// line that already holds something visible.
pub open spec fn overlong(word: Seq<char>, n: nat, width: nat, st: Wrap) -> Wrap
    decreases n,
{
    if n == 0 {
        st
    } else {
        let p = overlong(word, (n - 1) as nat, width, st);
        let c = word[n - 1];
        if p.w > 0 && p.w + cell(c) > width {
            Wrap { out: p.out.push(p.line), line: seq![c], w: cell(c) }
        } else {
            Wrap { out: p.out, line: p.line.push(c), w: p.w + cell(c) }
        }
    }
}

/// `st` after one more word: on the same line behind a space where it fits, else on a new
/// line, hard-split where it is too long.
pub open spec fn add_word(word: Seq<char>, width: nat, st: Wrap) -> Wrap {
    if st.w == 0 {
        overlong(word, word.len(), width, st)
    } else if st.w + 1 + cells(word) <= width {
        Wrap { out: st.out, line: st.line.push(' ') + word, w: st.w + 1 + cells(word) }
    } else {
        overlong(
            word,
            word.len(),
            width,
            Wrap { out: st.out.push(st.line), line: Seq::empty(), w: 0 },
        )
    }
}

/// The wrap after the first `n` of `words`.
pub open spec fn wrap_words(words: Seq<Seq<char>>, n: nat, width: nat) -> Wrap
    decreases n,
{
    if n == 0 {
        Wrap { out: Seq::empty(), line: Seq::empty(), w: 0 }
    } else {
        add_word(words[n - 1], width, wrap_words(words, (n - 1) as nat, width))
    }
}

/// At least one column.
pub open spec fn at_least_one(width: nat) -> nat {
    if width == 0 {
        1
    } else {
        width
    }
}

/// The lines of `s`, greedily word-wrapped to `width` cells.
pub open spec fn wrapped(s: Seq<char>, width: nat) -> Seq<Seq<char>> {
    let words = strs::words(s);
    let st = wrap_words(words, words.len(), at_least_one(width));
    st.out.push(st.line)
}

/// Append the characters of `word`, breaking the line where it overflows. Only break before
/// a glyph when the current line is non-empty, so a single glyph wider than `width` lands
/// on its own line.
fn push_overlong(
    word: &str,
    width: usize,
    out: &mut Vec<String>,
    line: &mut String,
    w: &mut usize,
)
    requires
        width >= 1,
        *old(w) <= width || *old(w) <= 3,
    ensures
        (Wrap { out: strs::views(final(out)@), line: final(line)@, w: *final(w) as nat })
            == overlong(
            word@,
            word@.len(),
            width as nat,
            (Wrap { out: strs::views(old(out)@), line: old(line)@, w: *old(w) as nat }),
        ),
        *final(w) <= width || *final(w) <= 3,
{
    broadcast use strs::lemma_views_push;

    let v = chars_of(word);
    let ghost st = Wrap { out: strs::views(out@), line: line@, w: *w as nat };
    let mut i: usize = 0;
    while i < v.len()
        invariant
            v@ == word@,
            0 <= i <= v.len(),
            width >= 1,
            *w <= width || *w <= 3,
            (Wrap { out: strs::views(out@), line: line@, w: *w as nat }) == overlong(
                word@,
                i as nat,
                width as nat,
                st,
            ),
        decreases v.len() - i,
    {
        let ch = v[i];
        let cw: usize = char_width(ch);
        if *w > 0 && (*w > width || cw > width - *w) {
            let done = line.clone();
            out.push(done);
            *line = String::new();
            *w = 0;
            assert(Seq::<char>::empty().push(ch) == seq![ch]);
        }
        line.push(ch);
        *w = *w + cw;
        i += 1;
    }
}

/// Greedy word-wrap to `width` display columns, hard-splitting over-long words.
pub fn wrap_text(s: &str, width: usize) -> (r: Vec<String>)
    ensures
        strs::views(r@) == wrapped(s@, width as nat),
{
    broadcast use strs::lemma_views_push;

    let width: usize = if width == 0 {
        1
    } else {
        width
    };
    let words = split_words(s);
    let mut out: Vec<String> = Vec::new();
    let mut line = String::new();
    let mut w: usize = 0;
    let mut i: usize = 0;
    assert(strs::views(out@) == Seq::<Seq<char>>::empty());
    while i < words.len()
        invariant
            0 <= i <= words.len(),
            width >= 1,
            w <= width || w <= 3,
            (Wrap { out: strs::views(out@), line: line@, w: w as nat }) == wrap_words(
                strs::views(words@),
                i as nat,
                width as nat,
            ),
        decreases words.len() - i,
    {
        let word = words[i].as_str();
        assert(word@ == strs::views(words@)[i as int]);
        let ww: usize = str_width(word);
        let ghost st = Wrap { out: strs::views(out@), line: line@, w: w as nat };
        if w == 0 {
            push_overlong(word, width, &mut out, &mut line, &mut w);
        } else if w < width && ww <= width - w - 1 {
            line.push(' ');
            line.append(word);
            w = w + 1 + ww;
        } else {
            out.push(line);
            line = String::new();
            w = 0;
            assert((Wrap { out: strs::views(out@), line: line@, w: 0 }) =~= (Wrap {
                out: st.out.push(st.line),
                line: Seq::empty(),
                w: 0,
            }));
            push_overlong(word, width, &mut out, &mut line, &mut w);
        }
        i += 1;
    }
    out.push(line);
    out
}

/// Every visible glyph of `s` fits into `width` cells.
pub open spec fn glyphs_fit(s: Seq<char>, width: nat) -> bool {
    forall|i: int| 0 <= i < s.len() ==> #[trigger] cell(s[i]) <= width
}

/// Every one of `lines` takes at most `width` cells.
pub open spec fn lines_fit(lines: Seq<Seq<char>>, width: nat) -> bool {
    forall|i: int| 0 <= i < lines.len() ==> #[trigger] cells(lines[i]) <= width
}

proof fn lemma_overlong_fits(word: Seq<char>, n: nat, width: nat, st: Wrap)
    requires
        n <= word.len(),
        glyphs_fit(word, width),
        lines_fit(st.out, width),
        st.w == cells(st.line),
        st.w <= width,
    ensures
        lines_fit(overlong(word, n, width, st).out, width),
        overlong(word, n, width, st).w == cells(overlong(word, n, width, st).line),
        overlong(word, n, width, st).w <= width,
    decreases n,
{
    broadcast use lemma_cells_push;

    if n > 0 {
        lemma_overlong_fits(word, (n - 1) as nat, width, st);
        let c = word[n - 1];
        assert(cell(c) <= width);
        assert(Seq::<char>::empty().push(c) == seq![c]);
    }
}

proof fn lemma_words_fit(s: Seq<char>, width: nat)
    requires
        glyphs_fit(s, width),
    ensures
        forall|i: int|
            0 <= i < strs::words_acc(s).0.len() ==> glyphs_fit(
                #[trigger] strs::words_acc(s).0[i],
                width,
            ),
        glyphs_fit(strs::words_acc(s).1, width),
    decreases s.len(),
{
    if s.len() > 0 {
        assert forall|i: int| 0 <= i < s.drop_last().len() implies #[trigger] cell(s.drop_last()[i])
            <= width by {
            assert(cell(s[i]) <= width);
        }
        assert(cell(s[s.len() - 1]) <= width);
        lemma_words_fit(s.drop_last(), width);
    }
}

proof fn lemma_wrap_words_fit(words: Seq<Seq<char>>, n: nat, width: nat)
    requires
        n <= words.len(),
        width >= 1,
        cell(' ') == 1,
        forall|i: int| 0 <= i < words.len() ==> glyphs_fit(#[trigger] words[i], width),
    ensures
        lines_fit(wrap_words(words, n, width).out, width),
        wrap_words(words, n, width).w == cells(wrap_words(words, n, width).line),
        wrap_words(words, n, width).w <= width,
    decreases n,
{
    broadcast use lemma_cells_push;

    if n > 0 {
        lemma_wrap_words_fit(words, (n - 1) as nat, width);
        let st = wrap_words(words, (n - 1) as nat, width);
        let word = words[n - 1];
        if st.w == 0 {
            lemma_overlong_fits(word, word.len(), width, st);
        } else if st.w + 1 + cells(word) <= width {
            lemma_cells_add(st.line.push(' '), word);
        } else {
            lemma_overlong_fits(
                word,
                word.len(),
                width,
                Wrap { out: st.out.push(st.line), line: Seq::empty(), w: 0 },
            );
        }
    }
}

/// Where every glyph of the text fits the width, no wrapped line is wider than the width.
/// (A space is one column wide: `char_width` says so.)
pub proof fn law_wrapped_lines_fit(s: Seq<char>, width: nat)
    requires
        width >= 1,
        cell(' ') == 1,
        glyphs_fit(s, width),
    ensures
        lines_fit(wrapped(s, width), width),
{
    lemma_words_fit(s, width);
    let words = strs::words(s);
    assert forall|i: int| 0 <= i < words.len() implies glyphs_fit(#[trigger] words[i], width) by {
        if i < strs::words_acc(s).0.len() {
            assert(words[i] == strs::words_acc(s).0[i]);
        }
    }
    lemma_wrap_words_fit(words, words.len(), width);
}

/// `s` without its white space.
pub open spec fn visible(s: Seq<char>) -> Seq<char>
    decreases s.len(),
{
    if s.len() == 0 {
        Seq::empty()
    } else if strs::is_space(s.last()) {
        visible(s.drop_last())
    } else {
        visible(s.drop_last()).push(s.last())
    }
}

proof fn lemma_visible_add(a: Seq<char>, b: Seq<char>)
    ensures
        visible(a + b) == visible(a) + visible(b),
    decreases b.len(),
{
    if b.len() == 0 {
        assert(a + b == a);
    } else {
        lemma_visible_add(a, b.drop_last());
        assert((a + b).drop_last() == a + b.drop_last());
        assert((a + b).last() == b.last());
    }
}

/// What a wrap holds so far, in order.
pub open spec fn wrap_text_of(st: Wrap) -> Seq<char> {
    strs::concat(st.out) + st.line
}

proof fn lemma_overlong_keeps(word: Seq<char>, n: nat, width: nat, st: Wrap)
    requires
        n <= word.len(),
    ensures
        wrap_text_of(overlong(word, n, width, st)) == wrap_text_of(st) + word.take(n as int),
    decreases n,
{
    broadcast use strs::lemma_concat_push;

    if n > 0 {
        lemma_overlong_keeps(word, (n - 1) as nat, width, st);
        assert(word.take(n as int) == word.take(n - 1).push(word[n - 1]));
        let p = overlong(word, (n - 1) as nat, width, st);
        assert(wrap_text_of(overlong(word, n, width, st)) == wrap_text_of(p).push(word[n - 1]));
        assert(wrap_text_of(p).push(word[n - 1]) == wrap_text_of(st) + word.take(n as int));
    } else {
        assert(wrap_text_of(st) + word.take(0) == wrap_text_of(st));
    }
}

proof fn lemma_wrap_words_keeps(words: Seq<Seq<char>>, n: nat, width: nat)
    requires
        n <= words.len(),
    ensures
        visible(wrap_text_of(wrap_words(words, n, width))) == visible(
            strs::concat(words.take(n as int)),
        ),
    decreases n,
{
    broadcast use strs::lemma_concat_push;

    if n > 0 {
        lemma_wrap_words_keeps(words, (n - 1) as nat, width);
        let st = wrap_words(words, (n - 1) as nat, width);
        let word = words[n - 1];
        assert(words.take(n as int) == words.take(n - 1).push(word));
        assert(word.take(word.len() as int) == word);
        lemma_visible_add(strs::concat(words.take(n - 1)), word);
        lemma_visible_add(wrap_text_of(st), word);
        if st.w == 0 {
            lemma_overlong_keeps(word, word.len(), width, st);
        } else if st.w + 1 + cells(word) <= width {
            let line = st.line.push(' ');
            assert(strs::concat(st.out) + (line + word) == wrap_text_of(st).push(' ') + word);
            lemma_visible_add(wrap_text_of(st).push(' '), word);
            assert(wrap_text_of(st).push(' ').drop_last() == wrap_text_of(st));
        } else {
            let st2 = Wrap { out: st.out.push(st.line), line: Seq::empty(), w: 0 };
            lemma_overlong_keeps(word, word.len(), width, st2);
            assert(wrap_text_of(st2) == wrap_text_of(st));
        }
    } else {
        assert(words.take(0) == Seq::<Seq<char>>::empty());
        assert(wrap_text_of(wrap_words(words, 0, width)) == Seq::<char>::empty());
    }
}

proof fn lemma_words_visible(s: Seq<char>)
    ensures
        strs::concat(strs::words_acc(s).0) + strs::words_acc(s).1 == visible(s),
    decreases s.len(),
{
    broadcast use strs::lemma_concat_push;

    if s.len() > 0 {
        lemma_words_visible(s.drop_last());
        let (done, cur) = strs::words_acc(s.drop_last());
        if !strs::is_space(s.last()) {
            assert(strs::concat(done) + cur.push(s.last()) == (strs::concat(done) + cur).push(
                s.last(),
            ));
        } else if cur.len() > 0 {
            assert(strs::concat(done.push(cur)) + Seq::<char>::empty() == strs::concat(done) + cur);
        }
    } else {
        assert(strs::concat(strs::words_acc(s).0) + strs::words_acc(s).1 =~= visible(s));
    }
}

proof fn lemma_visible_idempotent(s: Seq<char>)
    ensures
        visible(visible(s)) == visible(s),
    decreases s.len(),
{
    if s.len() > 0 {
        lemma_visible_idempotent(s.drop_last());
        if !strs::is_space(s.last()) {
            assert(visible(s).drop_last() == visible(s.drop_last()));
        }
    }
}

/// Wrapping loses and reorders nothing: but for white space, the wrapped lines hold the
/// characters of the text, in order.
pub proof fn law_wrapped_keeps_text(s: Seq<char>, width: nat)
    ensures
        visible(strs::concat(wrapped(s, width))) == visible(s),
{
    broadcast use strs::lemma_concat_push;

    let words = strs::words(s);
    let w = at_least_one(width);
    lemma_wrap_words_keeps(words, words.len(), w);
    assert(words.take(words.len() as int) == words);
    lemma_words_visible(s);
    lemma_visible_idempotent(s);
    let (done, cur) = strs::words_acc(s);
    if cur.len() == 0 {
        assert(strs::concat(done) + cur == strs::concat(done));
    }
    let st = wrap_words(words, words.len(), w);
    assert(strs::concat(st.out.push(st.line)) == wrap_text_of(st));
}

/// The index of the last `c` in `s`, or -1.
pub open spec fn last_index(s: Seq<char>, c: char) -> int
    decreases s.len(),
{
    if s.len() == 0 {
        -1
    } else if s.last() == c {
        s.len() - 1
    } else {
        last_index(s.drop_last(), c)
    }
}

/// The lines and the open line of `s`, broken at `width` cells: at the last space of the
/// line where that keeps a word whole, else before the character that does not fit. It is
/// broken there too where the character does not fit behind the part of its word either.
pub open spec fn preserve(s: Seq<char>, width: nat) -> (Seq<Seq<char>>, Seq<char>)
    decreases s.len(),
{
    if s.len() == 0 {
        (Seq::empty(), Seq::empty())
    } else {
        let (out, line) = preserve(s.drop_last(), width);
        let c = s.last();
        if cells(line) + cell(c) > width && line.len() > 0 {
            let brk = last_index(line, ' ');
            if c != ' ' && 0 <= brk < line.len() - 1 {
                let word = line.skip(brk + 1);
                if cells(word) + cell(c) > width {
                    (out.push(line.take(brk + 1)).push(word), seq![c])
                } else {
                    (out.push(line.take(brk + 1)), word.push(c))
                }
            } else {
                (out.push(line), seq![c])
            }
        } else {
            (out, line.push(c))
        }
    }
}

/// The lines of `s` wrapped to `width` cells with every character kept.
pub open spec fn preserved(s: Seq<char>, width: nat) -> Seq<Seq<char>> {
    let (out, line) = preserve(s, at_least_one(width));
    out.push(line)
}

/// The index of the last `c`.
pub fn rfind(v: &Vec<char>, c: char) -> (r: Option<usize>)
    ensures
        match r {
            Some(i) => i < v@.len() && last_index(v@, c) == i,
            None => last_index(v@, c) == -1,
        },
{
    let mut i: usize = v.len();
    assert(v@.take(v.len() as int) == v@);
    while i > 0
        invariant
            i <= v.len(),
            last_index(v@, c) == last_index(v@.take(i as int), c),
        decreases i,
    {
        assert(v@.take(i as int).drop_last() == v@.take(i - 1));
        if v[i - 1] == c {
            return Some(i - 1);
        }
        i -= 1;
    }
    None
}

proof fn lemma_last_index(s: Seq<char>, c: char)
    ensures
        -1 <= last_index(s, c) < s.len(),
        last_index(s, c) >= 0 ==> s[last_index(s, c)] == c,
    decreases s.len(),
{
    if s.len() > 0 && s.last() != c {
        lemma_last_index(s.drop_last(), c);
    }
}

proof fn lemma_preserve_keeps(s: Seq<char>, width: nat)
    ensures
        strs::concat(preserve(s, width).0) + preserve(s, width).1 == s,
    decreases s.len(),
{
    broadcast use strs::lemma_concat_push;

    if s.len() > 0 {
        lemma_preserve_keeps(s.drop_last(), width);
        let (out, line) = preserve(s.drop_last(), width);
        let c = s.last();
        assert(s == s.drop_last().push(c));
        lemma_last_index(line, ' ');
        let brk = last_index(line, ' ');
        assert(strs::concat(out) + line.push(c) == s);
        if cells(line) + cell(c) > width && line.len() > 0 {
            if c != ' ' && 0 <= brk < line.len() - 1 {
                assert(line.take(brk + 1) + line.skip(brk + 1) == line);
                let word = line.skip(brk + 1);
                assert(strs::concat(out) + line.take(brk + 1) + word.push(c) == strs::concat(out)
                    + line.push(c));
                assert(strs::concat(out) + line.take(brk + 1) + word + seq![c] == strs::concat(out)
                    + line.push(c));
            } else {
                assert(strs::concat(out) + line + seq![c] == strs::concat(out) + line.push(c));
            }
        }
    } else {
        assert(strs::concat(preserve(s, width).0) + preserve(s, width).1 =~= s);
    }
}

/// A preserving wrap keeps every character: its lines, joined, are the text.
pub proof fn law_preserved_keeps_text(s: Seq<char>, width: nat)
    ensures
        strs::concat(preserved(s, width)) == s,
{
    broadcast use strs::lemma_concat_push;

    lemma_preserve_keeps(s, at_least_one(width));
}

proof fn lemma_preserve_fits(s: Seq<char>, width: nat)
    requires
        glyphs_fit(s, width),
    ensures
        lines_fit(preserve(s, width).0, width),
        cells(preserve(s, width).1) <= width,
    decreases s.len(),
{
    broadcast use lemma_cells_push;

    if s.len() > 0 {
        assert forall|i: int| 0 <= i < s.drop_last().len() implies #[trigger] cell(s.drop_last()[i])
            <= width by {
            assert(cell(s[i]) <= width);
        }
        let c = s.last();
        assert(cell(s[s.len() - 1]) <= width);
        lemma_preserve_fits(s.drop_last(), width);
        let (out, line) = preserve(s.drop_last(), width);
        lemma_last_index(line, ' ');
        let brk = last_index(line, ' ');
        assert(Seq::<char>::empty().push(c) == seq![c]);
        if 0 <= brk {
            assert(line.take(brk + 1) + line.skip(brk + 1) == line);
            lemma_cells_add(line.take(brk + 1), line.skip(brk + 1));
        }
    }
}

/// Where every glyph of the text fits the width, no line of a preserving wrap is wider than the
/// width.
pub proof fn law_preserved_lines_fit(s: Seq<char>, width: nat)
    requires
        width >= 1,
        glyphs_fit(s, width),
    ensures
        lines_fit(preserved(s, width), width),
{
    lemma_preserve_fits(s, width);
}

/// Width-wrap that keeps every character verbatim, runs of spaces included. Breaks greedily
/// at the display-width boundary, preferring the last space on the line so words don't
/// split mid-token when avoidable.
pub fn wrap_preserve(s: &str, width: usize) -> (r: Vec<String>)
    ensures
        strs::views(r@) == preserved(s@, width as nat),
        strs::concat(strs::views(r@)) == s@,
        width >= 1 && glyphs_fit(s@, width as nat) ==> lines_fit(strs::views(r@), width as nat),
{
    proof {
        if width >= 1 && glyphs_fit(s@, width as nat) {
            law_preserved_lines_fit(s@, width as nat);
        }
    }
    broadcast use strs::lemma_views_push;
    broadcast use lemma_cells_push;

    let width: usize = if width == 0 {
        1
    } else {
        width
    };
    let total: usize = str_width(s);
    let v = chars_of(s);
    let mut out: Vec<String> = Vec::new();
    let mut line: Vec<char> = Vec::new();
    let mut w: usize = 0;
    let mut i: usize = 0;
    assert(strs::views(out@) == Seq::<Seq<char>>::empty());
    assert(v@.take(0) == Seq::<char>::empty());
    while i < v.len()
        invariant
            v@ == s@,
            total == cells(s@),
            0 <= i <= v.len(),
            width >= 1,
            w == cells(line@),
            w <= cells(v@.take(i as int)),
            (strs::views(out@), line@) == preserve(v@.take(i as int), width as nat),
        decreases v.len() - i,
    {
        let ch = v[i];
        let cw: usize = char_width(ch);
        let ghost before = line@;
        assert(v@.take(i + 1).drop_last() == v@.take(i as int));
        assert(v@.take(i + 1) == v@.take(i as int).push(ch));
        proof {
            lemma_cells_take_monotonic(v@, i + 1, v@.len() as int);
            assert(v@.take(v@.len() as int) == s@);
            lemma_last_index(line@, ' ');
        }
        if line.len() > 0 && w + cw > width {
            let brk: Option<usize> = rfind(&line, ' ');
            match brk {
                Some(b) if ch != ' ' && b + 1 < line.len() => {
                    let head = string_of(&line, 0, b + 1);
                    let tail = line.split_off(b + 1);
                    proof {
                        assert(before.take(b + 1) == before.subrange(0, b + 1));
                        assert(tail@ == before.skip(b + 1));
                        assert(before.take(b + 1) + before.skip(b + 1) == before);
                        lemma_cells_add(before.take(b + 1), before.skip(b + 1));
                    }
                    out.push(head);
                    line = tail;
                    w = chars_width(&line, w);
                    if w + cw > width {
                        let part = string_of(&line, 0, line.len());
                        assert(line@.subrange(0, line@.len() as int) == line@);
                        out.push(part);
                        line = Vec::new();
                        w = 0;
                        assert(Seq::<char>::empty().push(ch) == seq![ch]);
                    }
                },
                _ => {
                    let whole = string_of(&line, 0, line.len());
                    assert(before.subrange(0, before.len() as int) == before);
                    out.push(whole);
                    line = Vec::new();
                    w = 0;
                    assert(Seq::<char>::empty().push(ch) == seq![ch]);
                },
            }
        }
        let ghost open = line@;
        line.push(ch);
        proof {
            lemma_cells_push(open, ch);
        }
        w = w + cw;
        i += 1;
    }
    let whole = string_of(&line, 0, line.len());
    assert(line@.subrange(0, line@.len() as int) == line@);
    assert(v@.take(v.len() as int) == s@);
    out.push(whole);
    proof {
        law_preserved_keeps_text(s@, width as nat);
    }
    out
}

/// The cells of `v`, which are known not to exceed `bound`.
fn chars_width(v: &Vec<char>, bound: usize) -> (w: usize)
    requires
        cells(v@) <= bound,
    ensures
        w == cells(v@),
{
    let mut w: usize = 0;
    let mut i: usize = 0;
    assert(v@.take(0) == Seq::<char>::empty());
    while i < v.len()
        invariant
            0 <= i <= v.len(),
            cells(v@) <= bound,
            w == cells(v@.take(i as int)),
        decreases v.len() - i,
    {
        let cw: usize = char_width(v[i]);
        proof {
            assert(v@.take(i + 1) == v@.take(i as int).push(v@[i as int]));
            lemma_cells_push(v@.take(i as int), v@[i as int]);
            lemma_cells_take_monotonic(v@, i + 1, v@.len() as int);
            assert(v@.take(v@.len() as int) == v@);
        }
        w = w + cw;
        i += 1;
    }
    assert(v@.take(v@.len() as int) == v@);
    w
}

/// The index behind a CSI sequence whose parameters start at `i`: past its final byte.
pub open spec fn csi_end(s: Seq<char>, i: nat) -> nat
    decreases s.len() - i,
{
    if i >= s.len() {
        i
    } else if '@' <= s[i as int] && s[i as int] <= '~' {
        i + 1
    } else {
        csi_end(s, i + 1)
    }
}

/// The index behind an OSC sequence whose text starts at `i`: past the BEL or `ESC \`
/// that ends it.
pub open spec fn osc_end(s: Seq<char>, i: nat) -> nat
    decreases s.len() - i,
{
    if i >= s.len() {
        i
    } else if s[i as int] == '\u{7}' {
        i + 1
    } else if s[i as int] == '\u{1b}' {
        if i + 1 < s.len() && s[i as int + 1] == '\\' {
            i + 2
        } else {
            i + 1
        }
    } else {
        osc_end(s, i + 1)
    }
}

/// A sequence ends at or behind its start, and within the text.
pub proof fn lemma_ends(s: Seq<char>, i: nat)
    ensures
        i <= csi_end(s, i) <= (if i <= s.len() {
            s.len()
        } else {
            i
        }),
        i <= osc_end(s, i) <= (if i <= s.len() {
            s.len()
        } else {
            i
        }),
    decreases s.len() - i,
{
    if i < s.len() {
        lemma_ends(s, i + 1);
    }
}

/// `n` spaces.
pub open spec fn spaces(n: nat) -> Seq<char> {
    Seq::new(n, |i: int| ' ')
}

/// What is left of `s` from index `i` on, at a column that is `col` modulo 4: tabs are
/// expanded to stops of 4 columns, escape sequences and control characters dropped.
pub open spec fn sanitize_from(s: Seq<char>, i: nat, col: nat) -> Seq<char>
    decreases s.len() - i,
{
    if i >= s.len() {
        Seq::empty()
    } else {
        let c = s[i as int];
        if c == '\t' {
            spaces((4 - col) as nat) + sanitize_from(s, i + 1, 0)
        } else if c == '\u{1b}' && i + 1 < s.len() && s[i as int + 1] == '[' {
            proof {
                lemma_ends(s, i + 2);
            }
            sanitize_from(s, csi_end(s, i + 2), col)
        } else if c == '\u{1b}' && i + 1 < s.len() && s[i as int + 1] == ']' {
            proof {
                lemma_ends(s, i + 2);
            }
            sanitize_from(s, osc_end(s, i + 2), col)
        } else if strs::is_cc(c) {
            sanitize_from(s, i + 1, col)
        } else {
            seq![c] + sanitize_from(s, i + 1, (col + 1) % 4)
        }
    }
}

/// A line made safe for a grid of cells.
pub open spec fn sanitized(s: Seq<char>) -> Seq<char> {
    sanitize_from(s, 0, 0)
}

/// No character of `s` is a control character.
pub open spec fn no_control(s: Seq<char>) -> bool {
    forall|i: int| 0 <= i < s.len() ==> !strs::is_cc(#[trigger] s[i])
}

proof fn lemma_sanitize_no_control(s: Seq<char>, i: nat, col: nat)
    ensures
        no_control(sanitize_from(s, i, col)),
    decreases s.len() - i,
{
    if i < s.len() {
        let c = s[i as int];
        lemma_ends(s, i + 2);
        if c == '\t' {
            lemma_sanitize_no_control(s, i + 1, 0);
        } else if c == '\u{1b}' && i + 1 < s.len() && s[i as int + 1] == '[' {
            lemma_sanitize_no_control(s, csi_end(s, i + 2), col);
        } else if c == '\u{1b}' && i + 1 < s.len() && s[i as int + 1] == ']' {
            lemma_sanitize_no_control(s, osc_end(s, i + 2), col);
        } else if strs::is_cc(c) {
            lemma_sanitize_no_control(s, i + 1, col);
        } else {
            lemma_sanitize_no_control(s, i + 1, (col + 1) % 4);
        }
    }
}

proof fn lemma_sanitize_clean(s: Seq<char>, i: nat, col: nat)
    requires
        i <= s.len(),
        no_control(s),
    ensures
        sanitize_from(s, i, col) == s.skip(i as int),
    decreases s.len() - i,
{
    if i < s.len() {
        assert(!strs::is_cc(s[i as int]));
        lemma_sanitize_clean(s, i + 1, (col + 1) % 4);
        assert(seq![s[i as int]] + s.skip(i as int + 1) == s.skip(i as int));
    } else {
        assert(s.skip(i as int) == Seq::<char>::empty());
    }
}

/// A sanitized line holds no control character: nothing in it can upset a terminal.
pub proof fn law_sanitized_has_no_control(s: Seq<char>)
    ensures
        no_control(sanitized(s)),
{
    lemma_sanitize_no_control(s, 0, 0);
}

/// A line without control characters, such as one of printable ASCII, is kept verbatim.
pub proof fn law_sanitized_keeps_clean(s: Seq<char>)
    requires
        no_control(s),
    ensures
        sanitized(s) == s,
{
    lemma_sanitize_clean(s, 0, 0);
    assert(s.skip(0) == s);
}

/// Sanitizing twice changes nothing more.
pub proof fn law_sanitized_idempotent(s: Seq<char>)
    ensures
        sanitized(sanitized(s)) == sanitized(s),
{
    law_sanitized_has_no_control(s);
    law_sanitized_keeps_clean(sanitized(s));
}

/// Printable ASCII only: `0x20..=0x7e`.
pub open spec fn clean_ascii(s: Seq<char>) -> bool {
    forall|i: int| 0 <= i < s.len() ==> 0x20 <= #[trigger] s[i] as u32 && s[i] as u32 <= 0x7e
}

/// True when every character is printable ASCII, so the string needs no sanitization.
pub fn is_clean_ascii(s: &str) -> (r: bool)
    ensures
        r == clean_ascii(s@),
{
    let v = chars_of(s);
    let mut i: usize = 0;
    while i < v.len()
        invariant
            v@ == s@,
            0 <= i <= v.len(),
            forall|j: int| 0 <= j < i ==> 0x20 <= #[trigger] v@[j] as u32 && v@[j] as u32 <= 0x7e,
        decreases v.len() - i,
    {
        let n: u32 = v[i] as u32;
        if n < 0x20 || n > 0x7e {
            assert(!(0x20 <= s@[i as int] as u32 && s@[i as int] as u32 <= 0x7e));
            return false;
        }
        i += 1;
    }
    true
}

fn skip_csi(v: &Vec<char>, from: usize) -> (r: usize)
    requires
        from <= v@.len(),
    ensures
        r == csi_end(v@, from as nat),
        from <= r <= v@.len(),
{
    let mut i: usize = from;
    while i < v.len()
        invariant
            from <= i <= v.len(),
            csi_end(v@, i as nat) == csi_end(v@, from as nat),
        decreases v.len() - i,
    {
        let c = v[i];
        i += 1;
        if '@' <= c && c <= '~' {
            return i;
        }
    }
    i
}

fn skip_osc(v: &Vec<char>, from: usize) -> (r: usize)
    requires
        from <= v@.len(),
    ensures
        r == osc_end(v@, from as nat),
        from <= r <= v@.len(),
{
    let mut i: usize = from;
    while i < v.len()
        invariant
            from <= i <= v.len(),
            osc_end(v@, i as nat) == osc_end(v@, from as nat),
        decreases v.len() - i,
    {
        let c = v[i];
        i += 1;
        if c == '\u{7}' {
            return i;
        }
        if c == '\u{1b}' {
            if i < v.len() && v[i] == '\\' {
                i += 1;
            }
            return i;
        }
    }
    i
}

/// Append `n` spaces.
pub fn push_spaces(out: &mut String, n: usize)
    ensures
        final(out)@ == old(out)@ + spaces(n as nat),
{
    let ghost o = out@;
    let mut i: usize = 0;
    assert(o + spaces(0) == o);
    while i < n
        invariant
            i <= n,
            out@ == o + spaces(i as nat),
        decreases n - i,
    {
        out.push(' ');
        i += 1;
        assert(out@ == o + spaces(i as nat));
    }
}

/// Sanitize `s` and append the result to `out` (see [`sanitize_line`]). Tab stops are
/// measured from the start of `s`, whatever `out` already holds.
pub fn sanitize_into(out: &mut String, s: &str)
    ensures
        final(out)@ == old(out)@ + sanitized(s@),
{
    if is_clean_ascii(s) {
        proof {
            assert forall|i: int| 0 <= i < s@.len() implies !strs::is_cc(#[trigger] s@[i]) by {}
            law_sanitized_keeps_clean(s@);
        }
        out.append(s);
        return ;
    }
    let v = chars_of(s);
    let mut col: usize = 0;
    let mut i: usize = 0;
    let ghost o = out@;
    while i < v.len()
        invariant
            v@ == s@,
            0 <= i <= v.len(),
            col < 4,
            out@ + sanitize_from(v@, i as nat, col as nat) == o + sanitized(s@),
        decreases v.len() - i,
    {
        let c = v[i];
        let ghost before = out@;
        let ghost rest = sanitize_from(v@, i as nat, col as nat);
        proof {
            if i + 1 < v.len() {
                lemma_ends(v@, i as nat + 2);
            }
        }
        if c == '\t' {
            let n: usize = 4 - col;
            push_spaces(out, n);
            col = 0;
            i += 1;
            assert(before + spaces(n as nat) + sanitize_from(v@, i as nat, 0) == before + rest);
        } else if c == '\u{1b}' && i + 1 < v.len() && v[i + 1] == '[' {
            i = skip_csi(&v, i + 2);
        } else if c == '\u{1b}' && i + 1 < v.len() && v[i + 1] == ']' {
            i = skip_osc(&v, i + 2);
        } else if strs::is_control(c) {
            i += 1;
        } else {
            out.push(c);
            col = (col + 1) % 4;
            i += 1;
            assert(before.push(c) + sanitize_from(v@, i as nat, col as nat) == before + rest);
        }
    }
    assert(out@ + Seq::<char>::empty() == out@);
}

/// Make a line safe for a terminal's cell grid: expand tabs (4-column stops), drop CR and
/// LF, strip ANSI CSI and OSC sequences, and drop any remaining control characters.
pub fn sanitize_line(s: &str) -> (r: String)
    ensures
        r@ == sanitized(s@),
        no_control(r@),
{
    let mut out = String::new();
    sanitize_into(&mut out, s);
    proof {
        assert(Seq::<char>::empty() + sanitized(s@) == sanitized(s@));
        law_sanitized_has_no_control(s@);
    }
    out
}

} // verus!
