//! What the inputs named on the command line are: where the patch comes from, and which shape
//! a comments file has.
use crate::diff::model::Changeset;
use crate::diff::parse;
use crate::diff::parse::try_parse;
use crate::strs;
use vstd::prelude::*;

verus! {

/// Whether the patch is read from stdin: no path is given, or `-`.
pub open spec fn from_stdin(path: Option<Seq<char>>) -> bool {
    path is None || path == Some("-"@)
}

/// Whether the patch is read from stdin: no path is given, or `-`.
pub fn reads_stdin(path: Option<&str>) -> (r: bool)
    ensures
        r == match path {
            Some(p) => from_stdin(Some(p@)),
            None => from_stdin(None),
        },
{
    match path {
        Some(p) => strs::same_text(p, "-"),
        None => true,
    }
}

/// Bare `hew` with no file argument and an interactive stdin has nothing to review: reading
/// stdin would block. An explicit `-` still means "read stdin".
pub fn nothing_to_read(file_given: bool, terminal: bool) -> (r: bool)
    ensures
        r == (!file_given && terminal),
{
    !file_given && terminal
}

/// Whether a comments file is a bare array of threads: the first character that is no white
/// space is `[`. Anything else is taken as `{ "threads": [...] }`.
pub open spec fn bare_array(text: Seq<char>) -> bool {
    strs::starts_with(strs::trim_start(text), seq!['['])
}

/// Whether a comments file is a bare array of threads. The top-level kind selects the shape,
/// so an error inside the *right* shape is reported directly.
pub fn is_thread_array(text: &str) -> (r: bool)
    ensures
        r == bare_array(text@),
{
    let chars = strs::chars_of(text);
    let mut i: usize = 0;
    assert(text@.skip(0) == text@);
    while i < chars.len()
        invariant
            chars@ == text@,
            i <= chars.len(),
            strs::trim_start(text@.skip(i as int)) == strs::trim_start(text@),
        decreases chars.len() - i,
    {
        let ghost rest = text@.skip(i as int);
        assert(rest[0] == text@[i as int]);
        assert(rest.skip(1) == text@.skip(i + 1));
        if !strs::is_whitespace(chars[i]) {
            assert(strs::trim_start(rest) == rest);
            assert(rest.take(1) == seq![rest[0]]);
            assert(seq![rest[0]][0] == rest[0] && seq!['['][0] == '[');
            assert(rest[0] != '[' ==> rest.take(1) != seq!['[']);
            return chars[i] == '[';
        }
        i += 1;
    }
    assert(strs::trim_start(text@.skip(i as int)).len() == 0);
    false
}

/// What is said of a text that looks like a patch and is none.
pub open spec fn patch_warning(error: Seq<char>) -> Seq<char> {
    "hew: warning: input looks like a patch but failed to parse: "@ + error
}

/// Parse a patch that was read, with the warning to print.
///
/// A patch that *looks* like a unified diff but fails to parse is reported, so the user isn't
/// left staring at a silent "no changes to review". A genuinely empty diff stays quiet. `None`
/// where the reader of patches would panic.
pub fn changeset_of(text: &str) -> (r: Option<(Changeset, Option<String>)>)
    ensures
        match r {
            Some((cs, warning)) => {
                let (files, error) = parse::report_of(parse::patches_in(text@), text@);
                &&& crate::diff::grammar::readable(text@)
                &&& cs@ == files
                &&& strs::opt_view(warning) == match error {
                    Some(e) => Some(patch_warning(e)),
                    None => None,
                }
            },
            None => !crate::diff::grammar::readable(text@),
        },
{
    match try_parse(text) {
        Some((cs, error)) => {
            let warning = match error {
                Some(e) => {
                    let mut w = strs::owned(
                        "hew: warning: input looks like a patch but failed to parse: ",
                    );
                    w.append(e.as_str());
                    Some(w)
                },
                None => None,
            };
            Some((cs, warning))
        },
        None => None,
    }
}

} // verus!
