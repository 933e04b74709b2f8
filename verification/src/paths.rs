//! Paths as the components they name.
use crate::strs;
use crate::strs::{same_text, split_char};
use crate::ui::render_rows::text;
use vstd::prelude::*;

verus! {

/// The components among the first `n` pieces between slashes: an empty piece names nothing,
/// and `.` only something at the start of a relative path.
pub open spec fn parts(pieces: Seq<Seq<char>>, n: nat) -> Seq<Seq<char>>
    decreases n,
{
    if n == 0 {
        Seq::empty()
    } else {
        let x = pieces[n - 1];
        let before = parts(pieces, (n - 1) as nat);
        if x.len() == 0 || (n > 1 && x == "."@) {
            before
        } else {
            before.push(x)
        }
    }
}

/// Whether a path starts at the root, and its components.
pub open spec fn components(path: Seq<char>) -> (bool, Seq<Seq<char>>) {
    let pieces = strs::split_on(path, '/');
    (path.len() > 0 && path[0] == '/', parts(pieces, pieces.len()))
}

/// Two paths that name the same file, component by component.
pub open spec fn same(a: Seq<char>, b: Seq<char>) -> bool {
    components(a) == components(b)
}

fn components_of(path: &str) -> (r: (bool, Vec<String>))
    ensures
        r.0 == components(path@).0,
        strs::views(r.1@) == components(path@).1,
{
    broadcast use strs::lemma_views_push;

    let rooted = !path.is_empty() && path.get_char(0) == '/';
    let pieces = split_char(path, '/');
    let mut out: Vec<String> = Vec::new();
    let mut i: usize = 0;
    assert(strs::views(out@) == Seq::<Seq<char>>::empty());
    while i < pieces.len()
        invariant
            0 <= i <= pieces.len(),
            strs::views(out@) == parts(strs::views(pieces@), i as nat),
        decreases pieces.len() - i,
    {
        let x = pieces[i].as_str();
        assert(x@ == strs::views(pieces@)[i as int]);
        if !x.is_empty() && !(i > 0 && same_text(x, ".")) {
            out.push(pieces[i].clone());
        }
        i += 1;
    }
    (rooted, out)
}

/// Whether two lists hold the same texts.
pub fn same_texts(a: &Vec<String>, b: &Vec<String>) -> (r: bool)
    ensures
        r == (strs::views(a@) == strs::views(b@)),
{
    if a.len() != b.len() {
        assert(strs::views(a@).len() != strs::views(b@).len());
        return false;
    }
    let mut i: usize = 0;
    while i < a.len()
        invariant
            a.len() == b.len(),
            0 <= i <= a.len(),
            forall|j: int| 0 <= j < i ==> #[trigger] strs::views(a@)[j] == strs::views(b@)[j],
        decreases a.len() - i,
    {
        if !(a[i] == b[i]) {
            assert(strs::views(a@)[i as int] != strs::views(b@)[i as int]);
            return false;
        }
        i += 1;
    }
    assert(strs::views(a@) =~= strs::views(b@));
    true
}

/// Whether two paths name the same file, component by component.
pub fn same_path(a: &str, b: &str) -> (r: bool)
    ensures
        r == same(a@, b@),
{
    let (ra, pa) = components_of(a);
    let (rb, pb) = components_of(b);
    ra == rb && same_texts(&pa, &pb)
}

/// The last component of a path, where that names a file.
pub open spec fn file_name(path: Seq<char>) -> Option<Seq<char>> {
    let parts = components(path).1;
    if parts.len() > 0 && parts.last() != ".."@ && parts.last() != "."@ {
        Some(parts.last())
    } else {
        None
    }
}

/// What stands behind the last dot of the file's name, unless that is its first character.
pub open spec fn extension(path: Seq<char>) -> Option<Seq<char>> {
    match file_name(path) {
        Some(name) => {
            let i = text::last_index(name, '.');
            if i > 0 {
                Some(name.skip(i + 1))
            } else {
                None
            }
        },
        None => None,
    }
}

/// The last component of a path, where that names a file.
pub fn file_name_of(path: &str) -> (r: Option<String>)
    ensures
        strs::opt_view(r) == file_name(path@),
{
    let (_, parts) = components_of(path);
    assert(strs::views(parts@).len() == parts@.len());
    if parts.len() == 0 {
        return None;
    }
    let last = &parts[parts.len() - 1];
    assert(last@ == strs::views(parts@).last());
    if same_text(last.as_str(), "..") || same_text(last.as_str(), ".") {
        None
    } else {
        Some(last.clone())
    }
}

/// What stands behind the last dot of the file's name, unless that is its first character.
pub fn extension_of(path: &str) -> (r: Option<String>)
    ensures
        strs::opt_view(r) == extension(path@),
{
    match file_name_of(path) {
        Some(name) => {
            let v = strs::chars_of(name.as_str());
            match text::rfind(&v, '.') {
                Some(i) => {
                    if i == 0 {
                        return None;
                    }
                    let n: usize = v.len();
                    let s = strs::string_of(&v, i + 1, n);
                    assert(v@.subrange(i + 1, v@.len() as int) == name@.skip(i + 1));
                    Some(s)
                },
                None => None,
            }
        },
        None => None,
    }
}

} // verus!
