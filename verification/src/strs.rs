//! Strings seen as sequences of characters.
//!
//! The view of a string is a `Seq<char>`; this module moves between strings and
//! `Vec<char>`, compares, splits and trims text, and writes numbers in decimal.
use vstd::prelude::*;

verus! {

/// `String::push` appends one character at the end of the string.
pub assume_specification[ String::push ](s: &mut String, c: char)
    ensures
        final(s)@ == old(s)@.push(c),
;

/// The views of a sequence's elements, in order.
pub open spec fn views<T: View>(s: Seq<T>) -> Seq<T::V> {
    Seq::new(s.len(), |i: int| s[i]@)
}

/// The view of an optional string.
pub open spec fn opt_view(o: Option<String>) -> Option<Seq<char>> {
    match o {
        Some(s) => Some(s@),
        None => None,
    }
}

/// Appending an element appends its view.
pub broadcast proof fn lemma_views_push<T: View>(s: Seq<T>, x: T)
    ensures
        #[trigger] views(s.push(x)) == views(s).push(x@),
{
    assert(views(s.push(x)) =~= views(s).push(x@));
}

/// The characters of `s`, in order.
pub fn chars_of(s: &str) -> (v: Vec<char>)
    ensures
        v@ == s@,
{
    let mut v: Vec<char> = Vec::new();
    for c in it: s.chars()
        invariant
            it.seq() == s@,
            v@ == s@.take(it.index() as int),
    {
        v.push(c);
        assert(s@.take(it.index() + 1) == s@.take(it.index() as int).push(c));
    }
    assert(s@.take(s@.len() as int) == s@);
    v
}

/// The text made of the characters of `v` from `from` up to (not including) `to`.
pub fn string_of(v: &Vec<char>, from: usize, to: usize) -> (s: String)
    requires
        from <= to <= v@.len(),
    ensures
        s@ == v@.subrange(from as int, to as int),
{
    let mut s = String::new();
    let mut i: usize = from;
    while i < to
        invariant
            from <= i <= to <= v@.len(),
            s@ == v@.subrange(from as int, i as int),
        decreases to - i,
    {
        s.push(v[i]);
        i += 1;
        assert(v@.subrange(from as int, i as int) == v@.subrange(from as int, i - 1).push(
            v@[i - 1],
        ));
    }
    s
}

/// Whether two texts hold the same characters.
pub fn same_text(a: &str, b: &str) -> (r: bool)
    ensures
        r == (a@ == b@),
{
    let x = a.to_owned();
    let y = b.to_owned();
    x == y
}

/// An owned copy of `s`.
pub fn owned(s: &str) -> (r: String)
    ensures
        r@ == s@,
{
    s.to_owned()
}

/// A copy of an optional string.
pub fn clone_opt(o: &Option<String>) -> (r: Option<String>)
    ensures
        opt_view(r) == opt_view(*o),
{
    match o {
        Some(s) => Some(s.clone()),
        None => None,
    }
}

/// The decimal digit `d`.
pub open spec fn digit(d: nat) -> char {
    ('0' as u32 + d) as char
}

/// The number `n` in decimal, without leading zeros.
pub open spec fn dec(n: nat) -> Seq<char>
    decreases n,
{
    if n < 10 {
        seq![digit(n)]
    } else {
        dec(n / 10).push(digit(n % 10))
    }
}

/// `dec(n)` with zeros in front up to `width` characters.
pub open spec fn dec_pad(n: nat, width: nat) -> Seq<char> {
    let d = dec(n);
    if d.len() < width {
        Seq::new((width - d.len()) as nat, |i: int| '0') + d
    } else {
        d
    }
}

fn digit_char(d: u64) -> (c: char)
    requires
        d < 10,
    ensures
        c == digit(d as nat),
{
    match d {
        0 => '0',
        1 => '1',
        2 => '2',
        3 => '3',
        4 => '4',
        5 => '5',
        6 => '6',
        7 => '7',
        8 => '8',
        _ => '9',
    }
}

/// Append `n` in decimal to `out`.
pub fn push_dec(out: &mut String, n: u64)
    ensures
        final(out)@ == old(out)@ + dec(n as nat),
    decreases n,
{
    if n < 10 {
        out.push(digit_char(n));
        assert(old(out)@.push(digit(n as nat)) == old(out)@ + dec(n as nat));
    } else {
        push_dec(out, n / 10);
        let ghost mid = out@;
        out.push(digit_char(n % 10));
        assert(mid.push(digit((n % 10) as nat)) == old(out)@ + dec(n as nat));
    }
}

/// `n` in decimal.
pub fn dec_text(n: u64) -> (s: String)
    ensures
        s@ == dec(n as nat),
{
    let mut s = String::new();
    push_dec(&mut s, n);
    assert(Seq::<char>::empty() + dec(n as nat) == dec(n as nat));
    s
}

fn digits(n: u64) -> (k: usize)
    ensures
        k == dec(n as nat).len(),
        1 <= k <= n + 1,
        k <= 20,
    decreases n,
{
    reveal_with_fuel(dec, 2);
    if n < 10 {
        1
    } else {
        proof {
            lemma_dec_len_bound(n);
        }
        digits(n / 10) + 1
    }
}

proof fn lemma_dec_len_bound(n: u64)
    ensures
        dec(n as nat).len() <= 20,
{
    reveal_with_fuel(dec, 21);
}

/// Append `n` in decimal to `out`, padded with zeros to `width` characters.
pub fn push_dec_pad(out: &mut String, n: u64, width: usize)
    ensures
        final(out)@ == old(out)@ + dec_pad(n as nat, width as nat),
{
    let k: usize = digits(n);
    let mut i: usize = k;
    let ghost o = out@;
    while i < width
        invariant
            k == dec(n as nat).len(),
            k <= i,
            i <= width || i == k,
            out@ == o + Seq::new((i - k) as nat, |j: int| '0'),
        decreases width - i,
    {
        out.push('0');
        i += 1;
        assert(out@ == o + Seq::new((i - k) as nat, |j: int| '0'));
    }
    let ghost mid = out@;
    push_dec(out, n);
    assert(mid + dec(n as nat) == o + dec_pad(n as nat, width as nat));
}

/// White space: the Unicode property `White_Space`.
pub open spec fn is_space(c: char) -> bool {
    let n = c as u32;
    ||| 0x9 <= n <= 0xd
    ||| n == 0x20
    ||| n == 0x85
    ||| n == 0xa0
    ||| n == 0x1680
    ||| 0x2000 <= n <= 0x200a
    ||| n == 0x2028
    ||| n == 0x2029
    ||| n == 0x202f
    ||| n == 0x205f
    ||| n == 0x3000
}

/// Whether `c` is white space.
pub fn is_whitespace(c: char) -> (r: bool)
    ensures
        r == is_space(c),
{
    let n: u32 = c as u32;
    (0x9 <= n && n <= 0xd) || n == 0x20 || n == 0x85 || n == 0xa0 || n == 0x1680 || (0x2000 <= n
        && n <= 0x200a) || n == 0x2028 || n == 0x2029 || n == 0x202f || n == 0x205f || n == 0x3000
}

/// Control characters: the Unicode category `Cc`.
pub open spec fn is_cc(c: char) -> bool {
    let n = c as u32;
    n < 0x20 || 0x7f <= n < 0xa0
}

/// Whether `c` is a control character.
pub fn is_control(c: char) -> (r: bool)
    ensures
        r == is_cc(c),
{
    let n: u32 = c as u32;
    n < 0x20 || (0x7f <= n && n < 0xa0)
}

/// The pieces of `s` between the occurrences of `c`.
pub open spec fn split_on(s: Seq<char>, c: char) -> Seq<Seq<char>>
    decreases s.len(),
{
    if s.len() == 0 {
        seq![Seq::empty()]
    } else {
        let r = split_on(s.drop_last(), c);
        if s.last() == c {
            r.push(Seq::empty())
        } else {
            r.drop_last().push(r.last().push(s.last()))
        }
    }
}

/// A split has at least one piece.
pub proof fn lemma_split_nonempty(s: Seq<char>, c: char)
    ensures
        split_on(s, c).len() >= 1,
    decreases s.len(),
{
    if s.len() > 0 {
        lemma_split_nonempty(s.drop_last(), c);
    }
}

/// The pieces of `s` between the occurrences of `sep`, in order.
pub fn split_char(s: &str, sep: char) -> (r: Vec<String>)
    ensures
        views(r@) == split_on(s@, sep),
{
    broadcast use lemma_views_push;

    let v = chars_of(s);
    let mut out: Vec<String> = Vec::new();
    let mut cur = String::new();
    let mut i: usize = 0;
    assert(views(out@).push(cur@) == split_on(v@.take(0), sep));
    while i < v.len()
        invariant
            v@ == s@,
            0 <= i <= v.len(),
            views(out@).push(cur@) == split_on(v@.take(i as int), sep),
        decreases v.len() - i,
    {
        let c = v[i];
        let ghost before = views(out@).push(cur@);
        assert(v@.take(i + 1).drop_last() == v@.take(i as int));
        assert(before.drop_last() == views(out@));
        if c == sep {
            let done = cur;
            out.push(done);
            cur = String::new();
        } else {
            cur.push(c);
        }
        i += 1;
    }
    assert(v@.take(v.len() as int) == s@);
    out.push(cur);
    out
}

/// The words of `s` that are complete, and the word at its end (empty after white space).
pub open spec fn words_acc(s: Seq<char>) -> (Seq<Seq<char>>, Seq<char>)
    decreases s.len(),
{
    if s.len() == 0 {
        (Seq::empty(), Seq::empty())
    } else {
        let (done, cur) = words_acc(s.drop_last());
        if !is_space(s.last()) {
            (done, cur.push(s.last()))
        } else if cur.len() > 0 {
            (done.push(cur), Seq::empty())
        } else {
            (done, cur)
        }
    }
}

/// The words of `s`: its longest runs of characters other than white space.
pub open spec fn words(s: Seq<char>) -> Seq<Seq<char>> {
    let (done, cur) = words_acc(s);
    if cur.len() > 0 {
        done.push(cur)
    } else {
        done
    }
}

/// The words of `s`, in order.
pub fn split_words(s: &str) -> (r: Vec<String>)
    ensures
        views(r@) == words(s@),
{
    broadcast use lemma_views_push;

    let v = chars_of(s);
    let mut out: Vec<String> = Vec::new();
    let mut cur = String::new();
    let mut i: usize = 0;
    assert(views(out@) == Seq::<Seq<char>>::empty());
    while i < v.len()
        invariant
            v@ == s@,
            0 <= i <= v.len(),
            (views(out@), cur@) == words_acc(v@.take(i as int)),
        decreases v.len() - i,
    {
        let c = v[i];
        assert(v@.take(i + 1).drop_last() == v@.take(i as int));
        if !is_whitespace(c) {
            cur.push(c);
        } else if !cur.as_str().is_empty() {
            let done = cur;
            out.push(done);
            cur = String::new();
        }
        i += 1;
    }
    assert(v@.take(v.len() as int) == s@);
    if !cur.as_str().is_empty() {
        out.push(cur);
    }
    out
}

/// All the pieces of `ss`, one after the other.
pub open spec fn concat(ss: Seq<Seq<char>>) -> Seq<char>
    decreases ss.len(),
{
    if ss.len() == 0 {
        Seq::empty()
    } else {
        concat(ss.drop_last()) + ss.last()
    }
}

/// Concatenating one more piece appends it.
pub broadcast proof fn lemma_concat_push(ss: Seq<Seq<char>>, s: Seq<char>)
    ensures
        #[trigger] concat(ss.push(s)) == concat(ss) + s,
{
    assert(ss.push(s).drop_last() == ss);
}

/// The first `n` pieces, with `sep` between them.
pub open spec fn joined_among(ss: Seq<Seq<char>>, sep: char, n: nat) -> Seq<char>
    decreases n,
{
    if n == 0 {
        Seq::empty()
    } else if n == 1 {
        ss[0]
    } else {
        joined_among(ss, sep, (n - 1) as nat).push(sep) + ss[n - 1]
    }
}

/// The pieces, with `sep` between them.
pub open spec fn joined(ss: Seq<Seq<char>>, sep: char) -> Seq<char> {
    joined_among(ss, sep, ss.len())
}

/// The pieces, with `sep` between them.
pub fn join(v: &Vec<String>, sep: char) -> (r: String)
    ensures
        r@ == joined(views(v@), sep),
{
    let mut out = String::new();
    let mut i: usize = 0;
    while i < v.len()
        invariant
            0 <= i <= v.len(),
            out@ == joined_among(views(v@), sep, i as nat),
        decreases v.len() - i,
    {
        assert(views(v@)[i as int] == v@[i as int]@);
        let ghost before = out@;
        if i > 0 {
            out.push(sep);
        }
        out.append(v[i].as_str());
        if i == 0 {
            assert(before + v@[0]@ == v@[0]@);
        }
        i += 1;
    }
    out
}

/// `s` without the white space at its start.
pub open spec fn trim_start(s: Seq<char>) -> Seq<char>
    decreases s.len(),
{
    if s.len() > 0 && is_space(s[0]) {
        trim_start(s.skip(1))
    } else {
        s
    }
}

/// `s` without the white space at its end.
pub open spec fn trim_end(s: Seq<char>) -> Seq<char>
    decreases s.len(),
{
    if s.len() > 0 && is_space(s.last()) {
        trim_end(s.drop_last())
    } else {
        s
    }
}

/// `s` without the white space at its ends.
pub open spec fn trimmed(s: Seq<char>) -> Seq<char> {
    trim_end(trim_start(s))
}

/// `s` without the white space at its ends.
pub fn trim(s: &str) -> (r: String)
    ensures
        r@ == trimmed(s@),
{
    let v = chars_of(s);
    let n: usize = v.len();
    let mut a: usize = 0;
    assert(s@.skip(0) == s@);
    while a < n && is_whitespace(v[a])
        invariant
            v@ == s@,
            n == v.len(),
            0 <= a <= n,
            trim_start(s@.skip(a as int)) == trim_start(s@),
        decreases n - a,
    {
        assert(s@.skip(a as int).skip(1) == s@.skip(a + 1));
        a += 1;
    }
    let ghost t = s@.skip(a as int);
    let mut b: usize = n;
    assert(s@.subrange(a as int, n as int) == t);
    while b > a && is_whitespace(v[b - 1])
        invariant
            v@ == s@,
            n == v.len(),
            a <= b <= n,
            t == s@.skip(a as int),
            trim_end(s@.subrange(a as int, b as int)) == trim_end(t),
        decreases b,
    {
        assert(s@.subrange(a as int, b as int).drop_last() == s@.subrange(a as int, b - 1));
        b -= 1;
    }
    string_of(&v, a, b)
}

/// `s` with every line break as a line feed: a carriage return stands for one, alone or with
/// a line feed behind it.
pub open spec fn unix_lines(s: Seq<char>) -> Seq<char>
    decreases s.len(),
{
    if s.len() == 0 {
        Seq::empty()
    } else {
        let before = unix_lines(s.drop_last());
        if s.last() == '\r' {
            before.push('\n')
        } else if s.last() == '\n' && s.len() > 1 && s[s.len() - 2] == '\r' {
            before
        } else {
            before.push(s.last())
        }
    }
}

/// `s` with every line break as a line feed.
pub fn to_unix_lines(s: &str) -> (r: String)
    ensures
        r@ == unix_lines(s@),
{
    let v = chars_of(s);
    let mut out = String::new();
    let mut i: usize = 0;
    while i < v.len()
        invariant
            v@ == s@,
            0 <= i <= v.len(),
            out@ == unix_lines(s@.take(i as int)),
        decreases v.len() - i,
    {
        assert(s@.take(i + 1).drop_last() == s@.take(i as int));
        let c = v[i];
        if c == '\r' {
            out.push('\n');
        } else if !(c == '\n' && i > 0 && v[i - 1] == '\r') {
            out.push(c);
        }
        i += 1;
    }
    assert(s@.take(v.len() as int) == s@);
    out
}

/// Whether `s` starts with `p`.
pub open spec fn starts_with(s: Seq<char>, p: Seq<char>) -> bool {
    p.len() <= s.len() && s.take(p.len() as int) == p
}

/// Whether `s` ends with `p`.
pub open spec fn ends_with(s: Seq<char>, p: Seq<char>) -> bool {
    p.len() <= s.len() && s.skip(s.len() - p.len()) == p
}

/// Whether `p` stands at place `i` of `v`.
pub fn stands_at(v: &Vec<char>, i: usize, p: &Vec<char>) -> (r: bool)
    requires
        i <= v.len(),
    ensures
        r == starts_with(v@.skip(i as int), p@),
{
    let n: usize = p.len();
    if n > v.len() - i {
        return false;
    }
    let mut k: usize = 0;
    while k < n
        invariant
            n == p.len(),
            i + n <= v.len(),
            k <= n,
            forall|m: int| 0 <= m < k ==> v@[i + m] == #[trigger] p@[m],
        decreases n - k,
    {
        if v[i + k] != p[k] {
            assert(v@.skip(i as int).take(n as int)[k as int] != p@[k as int]);
            return false;
        }
        k += 1;
    }
    assert(v@.skip(i as int).take(n as int) =~= p@);
    true
}

/// Whether `s` starts with `p`.
pub fn has_prefix(s: &str, p: &str) -> (r: bool)
    ensures
        r == starts_with(s@, p@),
{
    assert(s@.skip(0) == s@);
    stands_at(&chars_of(s), 0, &chars_of(p))
}

/// `s` without the prefix `p`, where it has it.
pub open spec fn without_prefix(s: Seq<char>, p: Seq<char>) -> Option<Seq<char>> {
    if starts_with(s, p) {
        Some(s.skip(p.len() as int))
    } else {
        None
    }
}

/// `s` without the suffix `p`, where it has it.
pub open spec fn without_suffix(s: Seq<char>, p: Seq<char>) -> Option<Seq<char>> {
    if ends_with(s, p) {
        Some(s.take(s.len() - p.len()))
    } else {
        None
    }
}

/// `s` without the prefix `p`, where it has it.
pub fn cut_prefix(s: &str, p: &str) -> (r: Option<String>)
    ensures
        opt_view(r) == without_prefix(s@, p@),
{
    let v = chars_of(s);
    let q = chars_of(p);
    assert(s@.skip(0) == s@);
    if stands_at(&v, 0, &q) {
        let r = string_of(&v, q.len(), v.len());
        assert(r@ == s@.skip(p@.len() as int));
        Some(r)
    } else {
        None
    }
}

/// `s` without the suffix `p`, where it has it.
pub fn cut_suffix(s: &str, p: &str) -> (r: Option<String>)
    ensures
        opt_view(r) == without_suffix(s@, p@),
{
    let v = chars_of(s);
    let q = chars_of(p);
    if q.len() > v.len() {
        return None;
    }
    let at: usize = v.len() - q.len();
    assert(s@.skip(at as int).take(p@.len() as int) == s@.skip(at as int));
    if stands_at(&v, at, &q) {
        let r = string_of(&v, 0, at);
        assert(r@ == s@.take(at as int));
        Some(r)
    } else {
        None
    }
}

/// The first place of `p` in `s` from `i` on.
pub open spec fn place_of(s: Seq<char>, p: Seq<char>, i: nat) -> Option<nat>
    decreases s.len() + 1 - i,
{
    if i > s.len() {
        None
    } else if starts_with(s.skip(i as int), p) {
        Some(i)
    } else {
        place_of(s, p, i + 1)
    }
}

fn find_at(v: &Vec<char>, p: &Vec<char>, i: usize) -> (r: Option<usize>)
    requires
        i <= v.len(),
    ensures
        match r {
            Some(j) => place_of(v@, p@, i as nat) == Some(j as nat) && i <= j && j + p.len()
                <= v.len(),
            None => place_of(v@, p@, i as nat) is None,
        },
{
    let n: usize = v.len();
    let mut j: usize = i;
    while j < n
        invariant
            n == v.len(),
            i <= j <= n,
            place_of(v@, p@, j as nat) == place_of(v@, p@, i as nat),
        decreases n - j,
    {
        if stands_at(v, j, p) {
            return Some(j);
        }
        j += 1;
    }
    if stands_at(v, n, p) {
        Some(n)
    } else {
        assert(place_of(v@, p@, n as nat + 1) is None);
        None
    }
}

/// What stands in front of and behind the first `p` in `s`.
pub open spec fn parted(s: Seq<char>, p: Seq<char>) -> Option<(Seq<char>, Seq<char>)> {
    match place_of(s, p, 0) {
        Some(i) => Some((s.take(i as int), s.skip((i + p.len()) as int))),
        None => None,
    }
}

/// The view of an optional pair of strings.
pub open spec fn pair_view(o: Option<(String, String)>) -> Option<(Seq<char>, Seq<char>)> {
    match o {
        Some((a, b)) => Some((a@, b@)),
        None => None,
    }
}

/// What stands in front of and behind the first `p` in `s`.
pub fn part(s: &str, p: &str) -> (r: Option<(String, String)>)
    ensures
        pair_view(r) == parted(s@, p@),
{
    let v = chars_of(s);
    let q = chars_of(p);
    match find_at(&v, &q, 0) {
        Some(i) => {
            let a = string_of(&v, 0, i);
            let b = string_of(&v, i + q.len(), v.len());
            assert(a@ == s@.take(i as int));
            assert(b@ == s@.skip(i + p@.len()));
            Some((a, b))
        },
        None => None,
    }
}

/// The pieces of `s` between the occurrences of `p`, from the left, which is not empty.
pub open spec fn split_at_all(s: Seq<char>, p: Seq<char>) -> Seq<Seq<char>>
    decreases s.len(),
{
    match parted(s, p) {
        Some((a, b)) => if b.len() < s.len() {
            seq![a] + split_at_all(b, p)
        } else {
            seq![s]
        },
        None => seq![s],
    }
}

/// The pieces of `s` between the occurrences of `p`, from the left.
pub fn split_text(s: &str, p: &str) -> (r: Vec<String>)
    requires
        p@.len() > 0,
    ensures
        views(r@) == split_at_all(s@, p@),
{
    broadcast use lemma_views_push;

    let mut out: Vec<String> = Vec::new();
    let mut rest = owned(s);
    let ghost all = split_at_all(s@, p@);
    assert(views(out@) == Seq::<Seq<char>>::empty());
    assert(Seq::<Seq<char>>::empty() + all == all);
    let mut more = true;
    while more
        invariant
            p@.len() > 0,
            all == split_at_all(s@, p@),
            more ==> views(out@) + split_at_all(rest@, p@) == all,
            !more ==> views(out@) == all,
        decreases
            rest@.len(),
            if more {
                1int
            } else {
                0int
            },
    {
        let ghost before = views(out@);
        let ghost r0 = rest@;
        match part(rest.as_str(), p) {
            Some((a, b)) => {
                proof {
                    lemma_place(r0, p@, 0);
                }
                out.push(a);
                assert(before + (seq![a@] + split_at_all(b@, p@)) == before.push(a@)
                    + split_at_all(b@, p@));
                rest = b;
            },
            None => {
                out.push(rest.clone());
                assert(before + seq![r0] == before.push(r0));
                more = false;
            },
        }
    }
    out
}

proof fn lemma_place(s: Seq<char>, p: Seq<char>, i: nat)
    ensures
        place_of(s, p, i) matches Some(j) ==> i <= j && j + p.len() <= s.len(),
    decreases s.len() + 1 - i,
{
    if i <= s.len() && !starts_with(s.skip(i as int), p) {
        lemma_place(s, p, i + 1);
    }
}

/// A line without the carriage return at its end.
pub open spec fn without_return(s: Seq<char>) -> Seq<char> {
    if s.len() > 0 && s.last() == '\r' {
        s.drop_last()
    } else {
        s
    }
}

/// The first `n` of the lines that the pieces of a text make: all but the last piece end in a
/// line feed, which may have a carriage return in front of it; the last one is a line where
/// it is not empty.
pub open spec fn lines_among(pieces: Seq<Seq<char>>, n: nat) -> Seq<Seq<char>>
    decreases n,
{
    if n == 0 {
        Seq::empty()
    } else {
        let before = lines_among(pieces, (n - 1) as nat);
        let s = pieces[n - 1];
        if n < pieces.len() {
            before.push(without_return(s))
        } else if s.len() > 0 {
            before.push(s)
        } else {
            before
        }
    }
}

/// The lines of a text.
pub open spec fn lines(s: Seq<char>) -> Seq<Seq<char>> {
    let pieces = split_on(s, '\n');
    lines_among(pieces, pieces.len())
}

/// The lines of a text.
pub fn lines_of(s: &str) -> (r: Vec<String>)
    ensures
        views(r@) == lines(s@),
{
    broadcast use lemma_views_push;

    let pieces = split_char(s, '\n');
    let n: usize = pieces.len();
    let ghost pv = views(pieces@);
    let mut out: Vec<String> = Vec::new();
    let mut i: usize = 0;
    assert(views(out@) == Seq::<Seq<char>>::empty());
    while i < n
        invariant
            n == pieces.len(),
            pv == views(pieces@),
            0 <= i <= n,
            views(out@) == lines_among(pv, i as nat),
        decreases n - i,
    {
        assert(pv[i as int] == pieces@[i as int]@);
        let ghost before = out@;
        if i < n - 1 {
            let v = chars_of(pieces[i].as_str());
            let m: usize = v.len();
            let line = if m > 0 && v[m - 1] == '\r' {
                string_of(&v, 0, m - 1)
            } else {
                pieces[i].clone()
            };
            assert(line@ == without_return(pv[i as int]));
            out.push(line);
            assert(views(out@) == views(before).push(line@));
        } else if !pieces[i].as_str().is_empty() {
            out.push(pieces[i].clone());
            assert(views(out@) == views(before).push(pv[i as int]));
        }
        i += 1;
    }
    out
}

} // verus!
