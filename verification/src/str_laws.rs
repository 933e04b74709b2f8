//! What splitting, joining, searching and counting give back.
use crate::loader;
use crate::paths;
use crate::strs;
use crate::ui::render_rows::text;
use vstd::prelude::*;

verus! {

/// Pieces with a separator between any two.
pub open spec fn with_between(ps: Seq<Seq<char>>, sep: Seq<char>) -> Seq<char>
    decreases ps.len(),
{
    if ps.len() == 0 {
        Seq::empty()
    } else if ps.len() == 1 {
        ps[0]
    } else {
        with_between(ps.drop_last(), sep) + sep + ps.last()
    }
}

proof fn lemma_between_push(ps: Seq<Seq<char>>, sep: Seq<char>, x: Seq<char>)
    requires
        ps.len() > 0,
    ensures
        with_between(ps.push(x), sep) == with_between(ps, sep) + sep + x,
{
    assert(ps.push(x).drop_last() == ps);
}

proof fn lemma_between_grow(ps: Seq<Seq<char>>, sep: Seq<char>, c: char)
    requires
        ps.len() > 0,
    ensures
        with_between(ps.drop_last().push(ps.last().push(c)), sep) == with_between(ps, sep).push(c),
{
    let q = ps.drop_last().push(ps.last().push(c));
    if ps.len() > 1 {
        assert(q.drop_last() == ps.drop_last());
    }
}

/// Splitting loses nothing: the pieces with the separator between them are the text, and no
/// piece holds the separator.
pub proof fn law_split_keeps_the_text(s: Seq<char>, c: char)
    ensures
        strs::split_on(s, c).len() > 0,
        with_between(strs::split_on(s, c), seq![c]) == s,
        forall|i: int|
            0 <= i < strs::split_on(s, c).len() ==> !(#[trigger] strs::split_on(s, c)[i]).contains(
                c,
            ),
    decreases s.len(),
{
    let r = strs::split_on(s, c);
    if s.len() > 0 {
        let p = strs::split_on(s.drop_last(), c);
        law_split_keeps_the_text(s.drop_last(), c);
        if s.last() == c {
            lemma_between_push(p, seq![c], Seq::empty());
            assert(with_between(p, seq![c]) + seq![c] + Seq::<char>::empty() == s);
        } else {
            lemma_between_grow(p, seq![c], s.last());
            assert(s.drop_last().push(s.last()) == s);
        }
        assert forall|i: int| 0 <= i < r.len() implies !(#[trigger] r[i]).contains(c) by {
            if i < p.len() - 1 {
                assert(r[i] == p[i]);
            } else if i == p.len() - 1 {
                assert(!p[i].contains(c));
                if s.last() != c {
                    let x = p.last();
                    assert forall|k: int| 0 <= k < x.push(s.last()).len() implies x.push(
                        s.last(),
                    )[k] != c by {
                        if k < x.len() {
                            assert(x[k] != c);
                        }
                    }
                }
            }
        }
    } else {
        assert(with_between(r, seq![c]) == Seq::<char>::empty());
    }
}

/// Splitting two texts with the separator between them gives the pieces of the one and then
/// those of the other.
pub proof fn law_split_of_two(a: Seq<char>, b: Seq<char>, c: char)
    ensures
        strs::split_on(a + seq![c] + b, c) == strs::split_on(a, c) + strs::split_on(b, c),
    decreases b.len(),
{
    let s = a + seq![c] + b;
    strs::lemma_split_nonempty(a, c);
    if b.len() == 0 {
        assert(s.drop_last() == a);
        assert(s.last() == c);
        assert(strs::split_on(a, c).push(Seq::<char>::empty()) == strs::split_on(a, c)
            + strs::split_on(b, c));
    } else {
        let p = strs::split_on(b.drop_last(), c);
        law_split_of_two(a, b.drop_last(), c);
        strs::lemma_split_nonempty(b.drop_last(), c);
        assert(s.drop_last() == a + seq![c] + b.drop_last());
        assert(s.last() == b.last());
        let q = strs::split_on(a, c) + p;
        if b.last() == c {
            assert(q.push(Seq::<char>::empty()) == strs::split_on(a, c) + p.push(
                Seq::<char>::empty(),
            ));
        } else {
            assert(q.last() == p.last());
            assert(q.drop_last().push(q.last().push(b.last())) == strs::split_on(a, c)
                + p.drop_last().push(p.last().push(b.last())));
        }
    }
}

/// Joining puts the separator between any two pieces.
pub proof fn law_join_puts_between(ps: Seq<Seq<char>>, c: char)
    ensures
        strs::joined(ps, c) == with_between(ps, seq![c]),
{
    lemma_joined(ps, c, ps.len());
    assert(ps.take(ps.len() as int) == ps);
}

proof fn lemma_joined(ps: Seq<Seq<char>>, c: char, n: nat)
    requires
        n <= ps.len(),
    ensures
        strs::joined_among(ps, c, n) == with_between(ps.take(n as int), seq![c]),
    decreases n,
{
    if n > 1 {
        lemma_joined(ps, c, (n - 1) as nat);
        assert(ps.take(n as int).drop_last() == ps.take(n - 1));
        let x = with_between(ps.take(n - 1), seq![c]);
        assert(x.push(c) + ps[n - 1] == x + seq![c] + ps[n - 1]);
    }
}

/// What the digits of a text stand for.
pub open spec fn value(s: Seq<char>) -> int
    decreases s.len(),
{
    if s.len() == 0 {
        0
    } else {
        10 * value(s.drop_last()) + (s.last() as int - '0' as int)
    }
}

/// A number is written in digits that stand for it, and not with a zero in front.
pub proof fn law_numbers_are_written_in_digits(n: nat)
    ensures
        value(strs::dec(n)) == n,
        strs::dec(n).len() > 0,
        forall|i: int| 0 <= i < strs::dec(n).len() ==> '0' <= #[trigger] strs::dec(n)[i] <= '9',
        n > 0 ==> strs::dec(n)[0] != '0',
    decreases n,
{
    let d = strs::dec(n);
    if n < 10 {
        assert(d.drop_last() == Seq::<char>::empty());
        assert(value(d.drop_last()) == 0);
    } else {
        law_numbers_are_written_in_digits(n / 10);
        assert(d.drop_last() == strs::dec(n / 10));
        assert forall|i: int| 0 <= i < d.len() implies '0' <= #[trigger] d[i] <= '9' by {
            if i < d.len() - 1 {
                assert(d[i] == strs::dec(n / 10)[i]);
            }
        }
    }
}

/// Zeros in front change nothing of a number.
pub proof fn law_padded_numbers_are_the_same(n: nat, w: nat)
    ensures
        value(strs::dec_pad(n, w)) == n,
        strs::dec_pad(n, w).len() >= w,
        strs::dec(n).len() >= w ==> strs::dec_pad(n, w) == strs::dec(n),
        strs::dec(n).len() <= w ==> strs::dec_pad(n, w).len() == w,
{
    law_numbers_are_written_in_digits(n);
    let d = strs::dec(n);
    if d.len() < w {
        let z = Seq::new((w - d.len()) as nat, |i: int| '0');
        lemma_zeros(z, d, d.len());
        assert(d.take(d.len() as int) == d);
    }
}

proof fn lemma_zeros(z: Seq<char>, d: Seq<char>, n: nat)
    requires
        forall|i: int| 0 <= i < z.len() ==> #[trigger] z[i] == '0',
        n <= d.len(),
    ensures
        value(z + d.take(n as int)) == value(d.take(n as int)),
    decreases n, z.len(),
{
    let x = z + d.take(n as int);
    if n > 0 {
        lemma_zeros(z, d, (n - 1) as nat);
        assert(x.drop_last() == z + d.take(n - 1));
        assert(d.take(n as int).drop_last() == d.take(n - 1));
    } else {
        assert(x == z);
        assert(d.take(0) == Seq::<char>::empty());
        if z.len() > 0 {
            lemma_zeros(z.drop_last(), d, 0);
            assert(z.drop_last() + d.take(0) == z.drop_last());
            assert(z.last() == '0');
        }
    }
}

/// Whether `p` stands in `s` at `i`.
pub open spec fn stands_at(s: Seq<char>, p: Seq<char>, i: int) -> bool {
    0 <= i && i + p.len() <= s.len() && s.subrange(i, i + p.len()) == p
}

proof fn lemma_starts(s: Seq<char>, p: Seq<char>, i: nat)
    requires
        i <= s.len(),
    ensures
        strs::starts_with(s.skip(i as int), p) == stands_at(s, p, i as int),
{
    let r = s.skip(i as int);
    if p.len() <= r.len() {
        assert(r.take(p.len() as int) == s.subrange(i as int, i as int + p.len()));
    }
}

proof fn lemma_place(s: Seq<char>, p: Seq<char>, i: nat)
    ensures
        match strs::place_of(s, p, i) {
            Some(j) => i <= j && stands_at(s, p, j as int) && forall|k: int|
                i <= k < j ==> !#[trigger] stands_at(s, p, k),
            None => forall|k: int| i <= k ==> !#[trigger] stands_at(s, p, k),
        },
    decreases s.len() + 1 - i,
{
    if i <= s.len() {
        lemma_starts(s, p, i);
        if !strs::starts_with(s.skip(i as int), p) {
            lemma_place(s, p, i + 1);
        }
    }
}

/// A text is parted at the first place where the separator stands, and nowhere else.
pub proof fn law_parted_at_the_first(s: Seq<char>, p: Seq<char>)
    ensures
        match strs::parted(s, p) {
            Some((a, b)) => s == a + p + b && forall|k: int|
                k < a.len() ==> !#[trigger] stands_at(s, p, k),
            None => forall|k: int| !#[trigger] stands_at(s, p, k),
        },
{
    lemma_place(s, p, 0);
    if let Some(i) = strs::place_of(s, p, 0) {
        assert(s.take(i as int) + s.subrange(i as int, i as int + p.len()) + s.skip(
            (i + p.len()) as int,
        ) == s);
    }
}

/// Splitting at a text loses nothing either: the pieces with the text between them are the
/// whole.
pub proof fn law_split_at_all_keeps_the_text(s: Seq<char>, p: Seq<char>)
    requires
        p.len() > 0,
    ensures
        strs::split_at_all(s, p).len() > 0,
        with_between(strs::split_at_all(s, p), p) == s,
        strs::split_at_all(s, p).len() == 1 ==> forall|k: int| !#[trigger] stands_at(s, p, k),
    decreases s.len(),
{
    law_parted_at_the_first(s, p);
    if let Some((a, b)) = strs::parted(s, p) {
        assert(b.len() < s.len());
        law_split_at_all_keeps_the_text(b, p);
        lemma_between_front(a, strs::split_at_all(b, p), p);
    }
}

proof fn lemma_between_front(a: Seq<char>, ps: Seq<Seq<char>>, p: Seq<char>)
    requires
        ps.len() > 0,
    ensures
        with_between(seq![a] + ps, p) == a + p + with_between(ps, p),
    decreases ps.len(),
{
    let q = seq![a] + ps;
    if ps.len() == 1 {
        assert(q.drop_last() == seq![a]);
        assert(with_between(seq![a], p) == a);
    } else {
        lemma_between_front(a, ps.drop_last(), p);
        assert(q.drop_last() == seq![a] + ps.drop_last());
        assert(a + p + with_between(ps.drop_last(), p) + p + ps.last() == a + p + (with_between(
            ps.drop_last(),
            p,
        ) + p + ps.last()));
    }
}

/// The lines of a text are what stands between its line feeds, without the carriage return in
/// front of one; behind the last line feed nothing is a line only where nothing stands there.
pub proof fn law_lines_stand_between_line_feeds(s: Seq<char>, i: int)
    requires
        0 <= i < strs::lines(s).len(),
    ensures
        ({
            let ps = strs::split_on(s, '\n');
            let l = strs::lines(s);
            &&& l.len() == (if ps.last().len() > 0 {
                ps.len() as int
            } else {
                ps.len() - 1
            })
            &&& i < ps.len() - 1 && ps[i].len() > 0 && ps[i].last() == '\r' ==> l[i].push('\r')
                == ps[i]
            &&& i == ps.len() - 1 || ps[i].len() == 0 || ps[i].last() != '\r' ==> l[i] == ps[i]
        }),
{
    let ps = strs::split_on(s, '\n');
    strs::lemma_split_nonempty(s, '\n');
    lemma_lines(ps, ps.len());
}

proof fn lemma_lines(ps: Seq<Seq<char>>, n: nat)
    requires
        n <= ps.len(),
    ensures
        ({
            let l = strs::lines_among(ps, n);
            &&& l.len() == (if 0 < n == ps.len() && ps.last().len() == 0 {
                n - 1
            } else {
                n as int
            })
            &&& forall|i: int|
                0 <= i < l.len() ==> #[trigger] l[i] == (if i < ps.len() - 1 {
                    strs::without_return(ps[i])
                } else {
                    ps[i]
                })
        }),
    decreases n,
{
    if n > 0 {
        lemma_lines(ps, (n - 1) as nat);
    }
}

/// A path with an empty part or a dot in its middle means the same as without.
pub proof fn law_paths_ignore_empty_parts(a: Seq<char>, b: Seq<char>)
    requires
        a.len() > 0,
    ensures
        paths::same(a + seq!['/', '/'] + b, a + seq!['/'] + b),
        paths::same(a + seq!['/', '.', '/'] + b, a + seq!['/'] + b),
        paths::same(a + seq!['/'], a),
{
    let e = Seq::<char>::empty();
    let dot = seq!['.'];
    reveal_strlit(".");
    assert("."@ == dot);
    assert(a + seq!['/'] + (e + seq!['/'] + b) == a + seq!['/', '/'] + b);
    assert(a + seq!['/'] + (dot + seq!['/'] + b) == a + seq!['/', '.', '/'] + b);
    assert(a + seq!['/'] + e == a + seq!['/']);
    law_split_of_two(a, e + seq!['/'] + b, '/');
    law_split_of_two(e, b, '/');
    law_split_of_two(a, dot + seq!['/'] + b, '/');
    law_split_of_two(dot, b, '/');
    law_split_of_two(a, b, '/');
    law_split_of_two(a, e, '/');
    let x = strs::split_on(a, '/');
    let y = strs::split_on(b, '/');
    let se = strs::split_on(e, '/');
    let sd = strs::split_on(dot, '/');
    strs::lemma_split_nonempty(a, '/');
    assert(se == seq![e]);
    assert(dot.drop_last() == e);
    assert(sd == seq![dot]) by {
        assert(se.drop_last().push(se.last().push('.')) == seq![dot]);
    }
    lemma_parts_skip(x, seq![e], y, y.len());
    lemma_parts_skip(x, seq![dot], y, y.len());
    lemma_parts_skip(x, se, Seq::empty(), 0);
    lemma_parts_front(x, y, x.len());
    assert(x + (seq![e] + y) == x + seq![e] + y);
    assert(x + (seq![dot] + y) == x + seq![dot] + y);
    assert(x + Seq::<Seq<char>>::empty() == x);
    assert(x + se + Seq::<Seq<char>>::empty() == x + se);
}

proof fn lemma_parts_front(x: Seq<Seq<char>>, y: Seq<Seq<char>>, n: nat)
    requires
        n <= x.len(),
    ensures
        paths::parts(x + y, n) == paths::parts(x, n),
    decreases n,
{
    if n > 0 {
        lemma_parts_front(x, y, (n - 1) as nat);
    }
}

proof fn lemma_parts_skip(x: Seq<Seq<char>>, m: Seq<Seq<char>>, y: Seq<Seq<char>>, n: nat)
    requires
        x.len() > 0,
        m.len() == 1,
        m[0].len() == 0 || m[0] == "."@,
        n <= y.len(),
    ensures
        paths::parts(x + m + y, x.len() + 1 + n) == paths::parts(x + y, x.len() + n),
    decreases n,
{
    if n == 0 {
        let s = x + m + y;
        assert(s[x.len() as int] == m[0]);
        assert(s == x + (m + y));
        lemma_parts_front(x, m + y, x.len());
        lemma_parts_front(x, y, x.len());
    } else {
        lemma_parts_skip(x, m, y, (n - 1) as nat);
        assert((x + m + y)[x.len() as int + n] == y[n - 1]);
        assert((x + y)[x.len() + n - 1] == y[n - 1]);
    }
}

proof fn lemma_unsplit(s: Seq<char>, c: char)
    requires
        !s.contains(c),
    ensures
        strs::split_on(s, c) == seq![s],
    decreases s.len(),
{
    if s.len() > 0 {
        let p = s.drop_last();
        assert(s[s.len() - 1] != c);
        assert forall|i: int| 0 <= i < p.len() implies p[i] != c by {
            assert(s[i] != c);
        }
        lemma_unsplit(p, c);
        assert(p.push(s.last()) == s);
        assert(seq![p].drop_last().push(p.push(s.last())) == seq![s]);
    } else {
        assert(s == Seq::<char>::empty());
    }
}

proof fn lemma_last_dot(a: Seq<char>, b: Seq<char>)
    requires
        !b.contains('.'),
    ensures
        text::last_index(a + seq!['.'] + b, '.') == a.len(),
    decreases b.len(),
{
    let s = a + seq!['.'] + b;
    if b.len() > 0 {
        assert(b[b.len() - 1] != '.');
        assert(s.last() == b.last());
        assert(s.drop_last() == a + seq!['.'] + b.drop_last());
        assert forall|i: int| 0 <= i < b.drop_last().len() implies b.drop_last()[i] != '.' by {
            assert(b[i] != '.');
        }
        lemma_last_dot(a, b.drop_last());
    } else {
        assert(s.last() == '.');
    }
}

/// The extension of a file is what stands behind the last dot of its name, whatever directory it
/// is in.
pub proof fn law_extensions_stand_behind_the_last_dot(
    dir: Seq<char>,
    name: Seq<char>,
    ext: Seq<char>,
)
    requires
        name.len() > 0,
        !name.contains('/'),
        ext.len() > 0,
        !ext.contains('/') && !ext.contains('.'),
    ensures
        paths::file_name(dir + seq!['/'] + (name + seq!['.'] + ext)) == Some(
            name + seq!['.'] + ext,
        ),
        paths::extension(dir + seq!['/'] + (name + seq!['.'] + ext)) == Some(ext),
{
    let file = name + seq!['.'] + ext;
    let path = dir + seq!['/'] + file;
    assert forall|i: int| 0 <= i < file.len() implies file[i] != '/' by {
        if i < name.len() {
            assert(name.contains(name[i]));
        } else if i > name.len() {
            assert(ext.contains(ext[i - name.len() - 1]));
        }
    }
    lemma_unsplit(file, '/');
    law_split_of_two(dir, file, '/');
    strs::lemma_split_nonempty(dir, '/');
    let x = strs::split_on(dir, '/');
    let pieces = strs::split_on(path, '/');
    assert(pieces == x + seq![file]);
    assert(pieces[x.len() as int] == file);
    reveal_strlit(".");
    reveal_strlit("..");
    assert(file.len() >= 3);
    assert(paths::parts(pieces, pieces.len()) == paths::parts(pieces, x.len()).push(file));
    lemma_last_dot(name, ext);
    assert(file.skip(name.len() as int + 1) == ext);
}

/// A text is a list of threads where its first character that is not white space is a bracket.
pub proof fn law_lists_begin_with_a_bracket(a: Seq<char>, b: Seq<char>)
    requires
        forall|i: int| 0 <= i < a.len() ==> strs::is_space(#[trigger] a[i]),
        b.len() > 0 && !strs::is_space(b[0]),
    ensures
        loader::bare_array(a + b) <==> b[0] == '[',
        !loader::bare_array(a),
    decreases a.len(),
{
    if a.len() > 0 {
        assert(strs::is_space(a[0]));
        let r = a.skip(1);
        assert forall|i: int| 0 <= i < r.len() implies strs::is_space(#[trigger] r[i]) by {
            assert(r[i] == a[i + 1]);
        }
        law_lists_begin_with_a_bracket(r, b);
        assert((a + b).skip(1) == r + b);
        assert((a + b)[0] == a[0]);
    } else {
        assert(a + b == b);
        assert(b.take(1)[0] == b[0]);
        assert(seq!['['][0] == '[');
        if b[0] == '[' {
            assert(b.take(1) == seq!['[']);
        }
    }
}

} // verus!
