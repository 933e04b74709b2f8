//! The grammar of unified diffs, as the `patch` crate reads it.
//!
//! `patch::Patch::from_multiple` reads as many patches as it finds and takes for granted that
//! nothing is left behind the last one. It panics where that does not hold, and on a line
//! number that is no `u64`. [`is_readable`] says beforehand whether it will.
use crate::strs::chars_of;
use vstd::prelude::*;

verus! {

/// How far a rule of the grammar gets.
#[derive(Debug, Clone, Copy, PartialEq, Eq, Structural)]
pub enum Step {
    /// Up to this character.
    At(usize),
    /// It does not apply.
    Fail,
    /// It meets a number that is no `u64`.
    Panic,
}

/// How far a rule of the grammar gets.
#[verifier::ext_equal]
pub enum StepV {
    At(nat),
    Fail,
    Panic,
}

impl View for Step {
    type V = StepV;

    open spec fn view(&self) -> StepV {
        match *self {
            Step::At(i) => StepV::At(i as nat),
            Step::Fail => StepV::Fail,
            Step::Panic => StepV::Panic,
        }
    }
}

/// Whether `p` stands at place `i`.
pub open spec fn stands_at(s: Seq<char>, i: nat, p: Seq<char>) -> bool {
    i + p.len() <= s.len() && s.subrange(i as int, (i + p.len()) as int) == p
}

/// A fixed text.
pub open spec fn tag(s: Seq<char>, i: nat, p: Seq<char>) -> StepV {
    if stands_at(s, i, p) {
        StepV::At(i + p.len())
    } else {
        StepV::Fail
    }
}

/// A line break: a line feed, with or without a carriage return in front.
pub open spec fn line_break(s: Seq<char>, i: nat) -> StepV {
    if i < s.len() && s[i as int] == '\n' {
        StepV::At(i + 1)
    } else if i + 1 < s.len() && s[i as int] == '\r' && s[i as int + 1] == '\n' {
        StepV::At(i + 2)
    } else {
        StepV::Fail
    }
}

/// The first place from `i` on with a carriage return or a line feed, or the end.
pub open spec fn line_stop(s: Seq<char>, i: nat) -> nat
    decreases s.len() - i,
{
    if i >= s.len() || s[i as int] == '\r' || s[i as int] == '\n' {
        i
    } else {
        line_stop(s, i + 1)
    }
}

/// What is left of a line. A carriage return alone ends no line.
pub open spec fn rest_of_line(s: Seq<char>, i: nat) -> StepV {
    let j = line_stop(s, i);
    if j < s.len() && s[j as int] == '\r' && line_break(s, j) is Fail {
        StepV::Fail
    } else {
        StepV::At(j)
    }
}

/// What is left of a line, and its line break.
pub open spec fn line_end(s: Seq<char>, i: nat) -> StepV {
    match rest_of_line(s, i) {
        StepV::At(j) => line_break(s, j),
        r => r,
    }
}

/// Whether a character stands for itself in a quoted name.
pub open spec fn plain_in_quotes(c: char) -> bool {
    c != '\0' && c != '\n' && c != '\r' && c != '\t' && c != '\\' && c != '"'
}

/// Whether a character can stand behind a backslash in a quoted name.
pub open spec fn escapable(c: char) -> bool {
    c == '0' || c == 'n' || c == 'r' || c == 't' || c == '"' || c == '\\'
}

/// How far the inside of a quoted name goes from `i` on.
pub open spec fn quoted_end(s: Seq<char>, i: nat) -> nat
    decreases s.len() - i,
{
    if i >= s.len() {
        i
    } else if plain_in_quotes(s[i as int]) {
        quoted_end(s, i + 1)
    } else if s[i as int] == '\\' && i + 1 < s.len() && escapable(s[i as int + 1]) {
        quoted_end(s, i + 2)
    } else {
        i
    }
}

/// A name in quotes, of at least one character.
pub open spec fn quoted(s: Seq<char>, i: nat) -> StepV {
    if i < s.len() && s[i as int] == '"' {
        let j = quoted_end(s, i + 1);
        if j > i + 1 && j < s.len() && s[j as int] == '"' {
            StepV::At(j + 1)
        } else {
            StepV::Fail
        }
    } else {
        StepV::Fail
    }
}

/// The first place from `i` on with a tab or a character that ends a line, or the end.
pub open spec fn bare_end(s: Seq<char>, i: nat) -> nat
    decreases s.len() - i,
{
    if i >= s.len() || s[i as int] == '\t' || s[i as int] == '\r' || s[i as int] == '\n' {
        i
    } else {
        bare_end(s, i + 1)
    }
}

/// The name of a file: in quotes, or up to a tab or the end of the line.
pub open spec fn file_name(s: Seq<char>, i: nat) -> StepV {
    match quoted(s, i) {
        StepV::At(j) => StepV::At(j),
        _ => if bare_end(s, i) > i {
            StepV::At(bare_end(s, i))
        } else {
            StepV::Fail
        },
    }
}

/// What may stand behind the name of a file: a tab, and something in quotes or the rest of
/// the line.
pub open spec fn file_note(s: Seq<char>, i: nat) -> nat {
    if i < s.len() && s[i as int] == '\t' {
        match quoted(s, i + 1) {
            StepV::At(j) => j,
            _ => match rest_of_line(s, i + 1) {
                StepV::At(j) => j,
                _ => i,
            },
        }
    } else {
        i
    }
}

/// The rest of a header line: the name of a file, a note, and the line break.
pub open spec fn header_file(s: Seq<char>, i: nat) -> StepV {
    match file_name(s, i) {
        StepV::At(j) => line_break(s, file_note(s, j)),
        r => r,
    }
}

/// The first place from `i` on where `p` stands.
pub open spec fn find_from(s: Seq<char>, p: Seq<char>, i: nat) -> StepV
    decreases s.len() + 1 - i,
{
    if i > s.len() {
        StepV::Fail
    } else if stands_at(s, i, p) {
        StepV::At(i)
    } else {
        find_from(s, p, i + 1)
    }
}

/// The header of a patch, behind whatever stands in front of the first `---`: one line for
/// either file.
pub open spec fn headers(s: Seq<char>, i: nat) -> StepV {
    match find_from(s, "---"@, i) {
        StepV::At(j) => match tag(s, j, "--- "@) {
            StepV::At(k) => match header_file(s, k) {
                StepV::At(l) => match tag(s, l, "+++ "@) {
                    StepV::At(m) => header_file(s, m),
                    r => r,
                },
                r => r,
            },
            r => r,
        },
        r => r,
    }
}

/// Whether a character is a decimal digit.
pub open spec fn is_digit(c: char) -> bool {
    '0' <= c && c <= '9'
}

/// The first place from `i` on without a digit.
pub open spec fn digits_end(s: Seq<char>, i: nat) -> nat
    decreases s.len() - i,
{
    if i < s.len() && is_digit(s[i as int]) {
        digits_end(s, i + 1)
    } else {
        i
    }
}

/// The number that the digits of `[i, j)` stand for.
pub open spec fn number(s: Seq<char>, i: nat, j: nat) -> nat
    decreases j,
{
    if j <= i {
        0
    } else {
        number(s, i, (j - 1) as nat) * 10 + (s[j - 1] as nat - '0' as nat) as nat
    }
}

/// A number.
pub open spec fn digits(s: Seq<char>, i: nat) -> StepV {
    let j = digits_end(s, i);
    if j == i {
        StepV::Fail
    } else if number(s, i, j) > u64::MAX {
        StepV::Panic
    } else {
        StepV::At(j)
    }
}

/// A range: a number, and a second one behind a comma where there is one.
pub open spec fn range(s: Seq<char>, i: nat) -> StepV {
    match digits(s, i) {
        StepV::At(j) => if j < s.len() && s[j as int] == ',' {
            match digits(s, j + 1) {
                StepV::Fail => StepV::At(j),
                r => r,
            }
        } else {
            StepV::At(j)
        },
        r => r,
    }
}

/// The header of a hunk.
pub open spec fn chunk_header(s: Seq<char>, i: nat) -> StepV {
    match tag(s, i, "@@ -"@) {
        StepV::At(j) => match range(s, j) {
            StepV::At(k) => match tag(s, k, " +"@) {
                StepV::At(l) => match range(s, l) {
                    StepV::At(m) => match tag(s, m, " @@"@) {
                        StepV::At(n) => line_end(s, n),
                        r => r,
                    },
                    r => r,
                },
                r => r,
            },
            r => r,
        },
        r => r,
    }
}

/// A line of a hunk: an addition, a deletion or context, but no header line of a patch.
pub open spec fn chunk_line(s: Seq<char>, i: nat) -> StepV {
    if i >= s.len() {
        StepV::Fail
    } else if s[i as int] == '+' && !stands_at(s, i + 1, "++ "@) {
        line_end(s, i + 1)
    } else if s[i as int] == '-' && !stands_at(s, i + 1, "-- "@) {
        line_end(s, i + 1)
    } else if s[i as int] == ' ' {
        line_end(s, i + 1)
    } else {
        StepV::Fail
    }
}

/// As many lines of a hunk as there are.
pub open spec fn chunk_lines(s: Seq<char>, i: nat) -> nat
    decreases s.len() - i,
{
    match chunk_line(s, i) {
        StepV::At(j) => if i < j <= s.len() {
            chunk_lines(s, j)
        } else {
            i
        },
        _ => i,
    }
}

/// A hunk: its header, and at least one line.
pub open spec fn chunk(s: Seq<char>, i: nat) -> StepV {
    match chunk_header(s, i) {
        StepV::At(j) => match chunk_line(s, j) {
            StepV::At(k) => StepV::At(chunk_lines(s, k)),
            r => r,
        },
        r => r,
    }
}

/// As many hunks as there are.
pub open spec fn more_chunks(s: Seq<char>, i: nat) -> StepV
    decreases s.len() - i,
{
    match chunk(s, i) {
        StepV::At(j) => if i < j <= s.len() {
            more_chunks(s, j)
        } else {
            StepV::At(i)
        },
        StepV::Fail => StepV::At(i),
        StepV::Panic => StepV::Panic,
    }
}

/// As many line breaks as there are.
pub open spec fn line_breaks(s: Seq<char>, i: nat) -> nat
    decreases s.len() - i,
{
    match line_break(s, i) {
        StepV::At(j) => if i < j <= s.len() {
            line_breaks(s, j)
        } else {
            i
        },
        _ => i,
    }
}

/// What may stand behind the hunks: a remark on the last line break, and empty lines.
pub open spec fn patch_tail(s: Seq<char>, i: nat) -> nat {
    let j = match tag(s, i, "\\ No newline at end of file"@) {
        StepV::At(j) => match line_break(s, j) {
            StepV::At(k) => k,
            _ => j,
        },
        _ => i,
    };
    line_breaks(s, j)
}

/// A patch: its header, at least one hunk, and what may stand behind.
pub open spec fn patch(s: Seq<char>, i: nat) -> StepV {
    match headers(s, i) {
        StepV::At(j) => match chunk(s, j) {
            StepV::At(k) => match more_chunks(s, k) {
                StepV::At(l) => StepV::At(patch_tail(s, l)),
                r => r,
            },
            r => r,
        },
        r => r,
    }
}

/// As many patches as there are.
pub open spec fn more_patches(s: Seq<char>, i: nat) -> StepV
    decreases s.len() - i,
{
    match patch(s, i) {
        StepV::At(j) => if i < j <= s.len() {
            more_patches(s, j)
        } else {
            StepV::At(i)
        },
        StepV::Fail => StepV::At(i),
        StepV::Panic => StepV::Panic,
    }
}

/// At least one patch.
pub open spec fn patches(s: Seq<char>) -> StepV {
    match patch(s, 0) {
        StepV::At(j) => more_patches(s, j),
        r => r,
    }
}

/// The text holds no patch, or holds patches with nothing behind the last one, and no number
/// in it is too large.
pub open spec fn readable(s: Seq<char>) -> bool {
    match patches(s) {
        StepV::At(j) => j == s.len(),
        StepV::Fail => true,
        StepV::Panic => false,
    }
}

fn stands(v: &Vec<char>, i: usize, p: &str) -> (r: bool)
    requires
        i <= v.len(),
    ensures
        r == stands_at(v@, i as nat, p@),
{
    let q = chars_of(p);
    let n: usize = q.len();
    if n > v.len() - i {
        return false;
    }
    let mut k: usize = 0;
    while k < n
        invariant
            q@ == p@,
            n == q.len(),
            i + n <= v.len(),
            k <= n,
            forall|m: int| 0 <= m < k ==> v@[i + m] == #[trigger] q@[m],
        decreases n - k,
    {
        if v[i + k] != q[k] {
            assert(v@.subrange(i as int, i + n)[k as int] != p@[k as int]);
            return false;
        }
        k += 1;
    }
    assert(v@.subrange(i as int, i + n) =~= p@);
    true
}

fn skip_tag(v: &Vec<char>, i: usize, p: &str) -> (r: Step)
    requires
        i <= v.len(),
    ensures
        r@ == tag(v@, i as nat, p@),
        r matches Step::At(j) ==> i <= j <= v.len(),
{
    if stands(v, i, p) {
        let n: usize = p.unicode_len();
        Step::At(i + n)
    } else {
        Step::Fail
    }
}

fn skip_break(v: &Vec<char>, i: usize) -> (r: Step)
    requires
        i <= v.len(),
    ensures
        r@ == line_break(v@, i as nat),
        r matches Step::At(j) ==> i < j <= v.len(),
{
    let n: usize = v.len();
    if i < n && v[i] == '\n' {
        Step::At(i + 1)
    } else if i < n && n - i > 1 && v[i] == '\r' && v[i + 1] == '\n' {
        Step::At(i + 2)
    } else {
        Step::Fail
    }
}

fn skip_rest(v: &Vec<char>, i: usize) -> (r: Step)
    requires
        i <= v.len(),
    ensures
        r@ == rest_of_line(v@, i as nat),
        r matches Step::At(j) ==> i <= j <= v.len(),
        r != Step::Panic,
{
    let n: usize = v.len();
    let mut j: usize = i;
    while j < n && v[j] != '\r' && v[j] != '\n'
        invariant
            n == v.len(),
            i <= j <= n,
            line_stop(v@, j as nat) == line_stop(v@, i as nat),
        decreases n - j,
    {
        j += 1;
    }
    if j < n && v[j] == '\r' {
        match skip_break(v, j) {
            Step::At(_) => Step::At(j),
            _ => Step::Fail,
        }
    } else {
        Step::At(j)
    }
}

fn skip_line(v: &Vec<char>, i: usize) -> (r: Step)
    requires
        i <= v.len(),
    ensures
        r@ == line_end(v@, i as nat),
        r matches Step::At(j) ==> i < j <= v.len(),
        r != Step::Panic,
{
    match skip_rest(v, i) {
        Step::At(j) => skip_break(v, j),
        r => r,
    }
}

fn skip_quoted(v: &Vec<char>, i: usize) -> (r: Step)
    requires
        i <= v.len(),
    ensures
        r@ == quoted(v@, i as nat),
        r matches Step::At(j) ==> i < j <= v.len(),
{
    let n: usize = v.len();
    if !(i < n && v[i] == '"') {
        return Step::Fail;
    }
    let mut j: usize = i + 1;
    let mut open = true;
    while open
        invariant
            n == v.len(),
            i + 1 <= j <= n,
            quoted_end(v@, j as nat) == quoted_end(v@, i as nat + 1),
            !open ==> j == quoted_end(v@, i as nat + 1),
        decreases
            n - j,
            if open {
                1int
            } else {
                0int
            },
    {
        if j >= n {
            open = false;
        } else {
            let c = v[j];
            if c != '\0' && c != '\n' && c != '\r' && c != '\t' && c != '\\' && c != '"' {
                j += 1;
            } else if c == '\\' && n - j > 1 && (v[j + 1] == '0' || v[j + 1] == 'n' || v[j + 1]
                == 'r' || v[j + 1] == 't' || v[j + 1] == '"' || v[j + 1] == '\\') {
                j += 2;
            } else {
                open = false;
            }
        }
    }
    if j > i + 1 && j < n && v[j] == '"' {
        Step::At(j + 1)
    } else {
        Step::Fail
    }
}

fn skip_name(v: &Vec<char>, i: usize) -> (r: Step)
    requires
        i <= v.len(),
    ensures
        r@ == file_name(v@, i as nat),
        r matches Step::At(j) ==> i < j <= v.len(),
{
    if let Step::At(j) = skip_quoted(v, i) {
        return Step::At(j);
    }
    let n: usize = v.len();
    let mut j: usize = i;
    while j < n && v[j] != '\t' && v[j] != '\r' && v[j] != '\n'
        invariant
            n == v.len(),
            i <= j <= n,
            bare_end(v@, j as nat) == bare_end(v@, i as nat),
        decreases n - j,
    {
        j += 1;
    }
    if j > i {
        Step::At(j)
    } else {
        Step::Fail
    }
}

fn skip_note(v: &Vec<char>, i: usize) -> (r: usize)
    requires
        i <= v.len(),
    ensures
        r == file_note(v@, i as nat),
        i <= r <= v.len(),
{
    if i < v.len() && v[i] == '\t' {
        if let Step::At(j) = skip_quoted(v, i + 1) {
            return j;
        }
        match skip_rest(v, i + 1) {
            Step::At(j) => j,
            _ => i,
        }
    } else {
        i
    }
}

fn skip_file(v: &Vec<char>, i: usize) -> (r: Step)
    requires
        i <= v.len(),
    ensures
        r@ == header_file(v@, i as nat),
        r matches Step::At(j) ==> i < j <= v.len(),
{
    match skip_name(v, i) {
        Step::At(j) => {
            let k: usize = skip_note(v, j);
            skip_break(v, k)
        },
        r => r,
    }
}

fn seek(v: &Vec<char>, p: &str, i: usize) -> (r: Step)
    requires
        i <= v.len(),
    ensures
        r@ == find_from(v@, p@, i as nat),
        r matches Step::At(j) ==> i <= j <= v.len(),
{
    let n: usize = v.len();
    let mut j: usize = i;
    while j < n
        invariant
            n == v.len(),
            i <= j <= n,
            find_from(v@, p@, j as nat) == find_from(v@, p@, i as nat),
        decreases n - j,
    {
        if stands(v, j, p) {
            return Step::At(j);
        }
        j += 1;
    }
    if stands(v, n, p) {
        Step::At(n)
    } else {
        assert(find_from(v@, p@, n as nat + 1) == StepV::Fail);
        Step::Fail
    }
}

fn skip_headers(v: &Vec<char>, i: usize) -> (r: Step)
    requires
        i <= v.len(),
    ensures
        r@ == headers(v@, i as nat),
        r matches Step::At(j) ==> i < j <= v.len(),
{
    let a: usize = match seek(v, "---", i) {
        Step::At(j) => j,
        r => return r,
    };
    let b: usize = match skip_tag(v, a, "--- ") {
        Step::At(j) => j,
        r => return r,
    };
    let c: usize = match skip_file(v, b) {
        Step::At(j) => j,
        r => return r,
    };
    let d: usize = match skip_tag(v, c, "+++ ") {
        Step::At(j) => j,
        r => return r,
    };
    skip_file(v, d)
}

fn skip_digits(v: &Vec<char>, i: usize) -> (r: Step)
    requires
        i <= v.len(),
    ensures
        r@ == digits(v@, i as nat),
        r matches Step::At(j) ==> i < j <= v.len(),
{
    let n: usize = v.len();
    let mut j: usize = i;
    let mut value: u64 = 0;
    let mut big = false;
    while j < n && '0' <= v[j] && v[j] <= '9'
        invariant
            n == v.len(),
            i <= j <= n,
            digits_end(v@, j as nat) == digits_end(v@, i as nat),
            big == (number(v@, i as nat, j as nat) > u64::MAX),
            !big ==> value == number(v@, i as nat, j as nat),
        decreases n - j,
    {
        let d: u64 = v[j] as u64 - 48;
        assert(number(v@, i as nat, j as nat + 1) == number(v@, i as nat, j as nat) * 10 + d);
        if !big {
            if value > (u64::MAX - d) / 10 {
                big = true;
            } else {
                value = value * 10 + d;
            }
        }
        j += 1;
    }
    if j == i {
        Step::Fail
    } else if big {
        Step::Panic
    } else {
        Step::At(j)
    }
}

fn skip_range(v: &Vec<char>, i: usize) -> (r: Step)
    requires
        i <= v.len(),
    ensures
        r@ == range(v@, i as nat),
        r matches Step::At(j) ==> i < j <= v.len(),
{
    match skip_digits(v, i) {
        Step::At(j) => {
            if j < v.len() && v[j] == ',' {
                match skip_digits(v, j + 1) {
                    Step::Fail => Step::At(j),
                    r => r,
                }
            } else {
                Step::At(j)
            }
        },
        r => r,
    }
}

fn skip_chunk_header(v: &Vec<char>, i: usize) -> (r: Step)
    requires
        i <= v.len(),
    ensures
        r@ == chunk_header(v@, i as nat),
        r matches Step::At(j) ==> i < j <= v.len(),
{
    let a: usize = match skip_tag(v, i, "@@ -") {
        Step::At(j) => j,
        r => return r,
    };
    let b: usize = match skip_range(v, a) {
        Step::At(j) => j,
        r => return r,
    };
    let c: usize = match skip_tag(v, b, " +") {
        Step::At(j) => j,
        r => return r,
    };
    let d: usize = match skip_range(v, c) {
        Step::At(j) => j,
        r => return r,
    };
    let e: usize = match skip_tag(v, d, " @@") {
        Step::At(j) => j,
        r => return r,
    };
    skip_line(v, e)
}

fn skip_chunk_line(v: &Vec<char>, i: usize) -> (r: Step)
    requires
        i <= v.len(),
    ensures
        r@ == chunk_line(v@, i as nat),
        r matches Step::At(j) ==> i < j <= v.len(),
{
    if i >= v.len() {
        return Step::Fail;
    }
    let c = v[i];
    if (c == '+' && !stands(v, i + 1, "++ ")) || (c == '-' && !stands(v, i + 1, "-- ")) || c
        == ' ' {
        skip_line(v, i + 1)
    } else {
        Step::Fail
    }
}

fn skip_chunk(v: &Vec<char>, i: usize) -> (r: Step)
    requires
        i <= v.len(),
    ensures
        r@ == chunk(v@, i as nat),
        r matches Step::At(j) ==> i < j <= v.len(),
{
    let a: usize = match skip_chunk_header(v, i) {
        Step::At(j) => j,
        r => return r,
    };
    let first: usize = match skip_chunk_line(v, a) {
        Step::At(j) => j,
        r => return r,
    };
    let mut j: usize = first;
    let mut more = true;
    while more
        invariant
            first <= j <= v.len(),
            chunk_lines(v@, j as nat) == chunk_lines(v@, first as nat),
            !more ==> j == chunk_lines(v@, first as nat),
        decreases
            v.len() - j,
            if more {
                1int
            } else {
                0int
            },
    {
        match skip_chunk_line(v, j) {
            Step::At(k) => {
                j = k;
            },
            _ => {
                more = false;
            },
        }
    }
    Step::At(j)
}

fn skip_more_chunks(v: &Vec<char>, i: usize) -> (r: Step)
    requires
        i <= v.len(),
    ensures
        r@ == more_chunks(v@, i as nat),
        r matches Step::At(j) ==> i <= j <= v.len(),
{
    let mut j: usize = i;
    loop
        invariant
            i <= j <= v.len(),
            more_chunks(v@, j as nat) == more_chunks(v@, i as nat),
        decreases v.len() - j,
    {
        match skip_chunk(v, j) {
            Step::At(k) => {
                j = k;
            },
            Step::Fail => return Step::At(j),
            Step::Panic => return Step::Panic,
        }
    }
}

fn skip_breaks(v: &Vec<char>, i: usize) -> (r: usize)
    requires
        i <= v.len(),
    ensures
        r == line_breaks(v@, i as nat),
        i <= r <= v.len(),
{
    let mut j: usize = i;
    loop
        invariant
            i <= j <= v.len(),
            line_breaks(v@, j as nat) == line_breaks(v@, i as nat),
        decreases v.len() - j,
    {
        match skip_break(v, j) {
            Step::At(k) => {
                j = k;
            },
            _ => return j,
        }
    }
}

fn skip_tail(v: &Vec<char>, i: usize) -> (r: usize)
    requires
        i <= v.len(),
    ensures
        r == patch_tail(v@, i as nat),
        i <= r <= v.len(),
{
    let j: usize = match skip_tag(v, i, "\\ No newline at end of file") {
        Step::At(j) => match skip_break(v, j) {
            Step::At(k) => k,
            _ => j,
        },
        _ => i,
    };
    skip_breaks(v, j)
}

fn skip_patch(v: &Vec<char>, i: usize) -> (r: Step)
    requires
        i <= v.len(),
    ensures
        r@ == patch(v@, i as nat),
        r matches Step::At(j) ==> i < j <= v.len(),
{
    let a: usize = match skip_headers(v, i) {
        Step::At(j) => j,
        r => return r,
    };
    let b: usize = match skip_chunk(v, a) {
        Step::At(j) => j,
        r => return r,
    };
    match skip_more_chunks(v, b) {
        Step::At(j) => Step::At(skip_tail(v, j)),
        r => r,
    }
}

fn skip_more_patches(v: &Vec<char>, i: usize) -> (r: Step)
    requires
        i <= v.len(),
    ensures
        r@ == more_patches(v@, i as nat),
        r matches Step::At(j) ==> i <= j <= v.len(),
{
    let mut j: usize = i;
    loop
        invariant
            i <= j <= v.len(),
            more_patches(v@, j as nat) == more_patches(v@, i as nat),
        decreases v.len() - j,
    {
        match skip_patch(v, j) {
            Step::At(k) => {
                j = k;
            },
            Step::Fail => return Step::At(j),
            Step::Panic => return Step::Panic,
        }
    }
}

/// Whether `patch::Patch::from_multiple` can read a text: it holds no patch, or holds patches
/// with nothing behind the last one, and no number in it is too large.
pub fn is_readable(input: &str) -> (r: bool)
    ensures
        r == readable(input@),
{
    let v = chars_of(input);
    match skip_patch(&v, 0) {
        Step::At(j) => match skip_more_patches(&v, j) {
            Step::At(k) => k == v.len(),
            Step::Fail => true,
            Step::Panic => false,
        },
        Step::Fail => true,
        Step::Panic => false,
    }
}

} // verus!
