//! Sessions: how a running viewer is named in the registry and found by a client.
//!
//! A running viewer advertises itself under a registry directory
//! (`$XDG_RUNTIME_DIR/hew/` or `/tmp/hew-$UID/`) as a pair of files:
//!
//!   `<id>.sock`  a Unix-domain socket that the client connects to
//!   `<id>.json`  small metadata (pid, cwd, name, files) for discovery
use crate::comments::model;
use crate::comments::model::fresh_id;
use crate::strs;
use crate::strs::{join, push_dec};
use std::path::PathBuf;
use vstd::prelude::*;

verus! {

/// Cap on a single request line, so a flood can't exhaust memory.
pub const MAX_REQUEST_BYTES: u64 = 65536;

/// How many seconds the listener waits for a client to send its request line.
pub const READ_TIMEOUT_SECS: u64 = 5;

/// A path, as std has it.
#[verifier::external_type_specification]
#[verifier::external_body]
pub struct ExPathBuf(PathBuf);

/// A request decoded from the wire and handed to the main loop.
#[derive(Debug, Clone, Copy, PartialEq, Eq, Structural)]
pub enum IpcRequest {
    /// Dump the current review store as JSON.
    List,
}

/// Discovery metadata persisted next to each session socket.
#[derive(Debug)]
pub struct Meta {
    pub id: String,
    pub pid: u32,
    pub name: Option<String>,
    pub cwd: String,
    pub files: Vec<String>,
}

/// A live session discovered in the registry, with its socket path.
#[derive(Debug)]
pub struct Found {
    pub meta: Meta,
    pub sock: PathBuf,
}

/// What was found of a registry entry's metadata.
#[derive(Debug, Clone, Copy, PartialEq, Eq, Structural)]
pub enum Entry {
    /// It could not be read.
    Unread,
    /// It is not the metadata of a session.
    Garbled,
    /// It names a process, which is alive or not.
    Owned { alive: bool },
}

/// Whether a character may stand in the name of a session.
pub open spec fn safe_char(c: char) -> bool {
    ||| 'a' <= c && c <= 'z'
    ||| 'A' <= c && c <= 'Z'
    ||| '0' <= c && c <= '9'
    ||| c == '-'
    ||| c == '_'
    ||| c == '.'
}

/// Whether a name is safe as a single path component: letters, digits, `-`, `_` and `.`,
/// between 1 and 64 of them, and neither `.` nor `..`.
pub open spec fn safe_name(s: Seq<char>) -> bool {
    &&& 0 < s.len() <= 64
    &&& s != seq!['.']
    &&& s != seq!['.', '.']
    &&& forall|i: int| 0 <= i < s.len() ==> safe_char(#[trigger] s[i])
}

fn is_safe(c: char) -> (r: bool)
    ensures
        r == safe_char(c),
{
    ('a' <= c && c <= 'z') || ('A' <= c && c <= 'Z') || ('0' <= c && c <= '9') || c == '-' || c
        == '_' || c == '.'
}

/// Reject names that aren't safe as a single path component, so `--name` can't escape the
/// registry directory or produce an unbindable socket path.
pub fn valid_id(s: &str) -> (r: bool)
    ensures
        r == safe_name(s@),
{
    let chars = strs::chars_of(s);
    if chars.len() == 0 || chars.len() > 64 {
        return false;
    }
    if chars.len() == 1 && chars[0] == '.' {
        assert(s@ == seq!['.']);
        return false;
    }
    if chars.len() == 2 && chars[0] == '.' && chars[1] == '.' {
        assert(s@ == seq!['.', '.']);
        return false;
    }
    let mut i: usize = 0;
    while i < chars.len()
        invariant
            chars@ == s@,
            i <= chars.len(),
            forall|k: int| 0 <= k < i ==> safe_char(#[trigger] s@[k]),
        decreases chars.len() - i,
    {
        if !is_safe(chars[i]) {
            assert(!safe_char(s@[i as int]));
            return false;
        }
        i += 1;
    }
    true
}

/// A short, filesystem-safe session id: the first eight digits of a random id.
pub fn short_id() -> (r: String)
    ensures
        r@.len() == 8,
        forall|i: int| 0 <= i < 8 ==> model::is_hex(#[trigger] r@[i]),
        safe_name(r@),
{
    let chars = strs::chars_of(fresh_id().as_str());
    let mut out = String::new();
    let mut i: usize = 0;
    while i < 8
        invariant
            model::is_uuid(chars@),
            i <= 8,
            out@ == chars@.take(i as int),
        decreases 8 - i,
    {
        out.push(chars[i]);
        assert(chars@.take(i + 1) == chars@.take(i as int).push(chars@[i as int]));
        i += 1;
    }
    assert(forall|k: int| 0 <= k < 8 ==> #[trigger] out@[k] == chars@[k]);
    out
}

/// What is said of a name that is not safe.
pub open spec fn bad_name(name: Seq<char>) -> Seq<char> {
    "invalid --name '"@ + name
        + "': use only letters, digits, '-', '_', '.' (≤64 chars)"@
}

/// The id of a session: its name, or `drawn` where it has none; an unsafe name is refused.
pub open spec fn id_for(name: Option<Seq<char>>, drawn: Seq<char>) -> Result<Seq<char>, Seq<char>> {
    match name {
        Some(n) => if safe_name(n) {
            Ok(n)
        } else {
            Err(bad_name(n))
        },
        None => Ok(drawn),
    }
}

/// The view of a text or a message.
pub open spec fn told(r: Result<String, String>) -> Result<Seq<char>, Seq<char>> {
    match r {
        Ok(s) => Ok(s@),
        Err(e) => Err(e@),
    }
}

/// The id of a session: its name, or `drawn` where it has none.
pub fn choose_id(name: &Option<String>, drawn: String) -> (r: Result<String, String>)
    ensures
        told(r) == id_for(strs::opt_view(*name), drawn@),
{
    match name {
        Some(n) => if valid_id(n.as_str()) {
            Ok(n.clone())
        } else {
            let mut e = strs::owned("invalid --name '");
            e.append(n.as_str());
            e.append("': use only letters, digits, '-', '_', '.' (≤64 chars)");
            Err(e)
        },
        None => Ok(drawn),
    }
}

/// The id under which a session is registered: its name where that is safe, a short random id
/// where it has none. What is registered is always safe as a path component.
pub fn session_id(name: &Option<String>) -> (r: Result<String, String>)
    ensures
        exists|drawn: Seq<char>| #[trigger]
            safe_name(drawn) && told(r) == id_for(strs::opt_view(*name), drawn),
        match r {
            Ok(id) => safe_name(id@),
            Err(_) => *name is Some && !safe_name((*name)->0@),
        },
{
    let drawn = short_id();
    assert(safe_name(drawn@));
    choose_id(name, drawn)
}

/// The name of a session's socket.
pub fn socket_file(id: &str) -> (r: String)
    ensures
        r@ == id@ + ".sock"@,
{
    let mut r = strs::owned(id);
    r.append(".sock");
    r
}

/// The name of a session's metadata.
pub fn meta_file(id: &str) -> (r: String)
    ensures
        r@ == id@ + ".json"@,
{
    let mut r = strs::owned(id);
    r.append(".json");
    r
}

/// The name of the registry below the runtime directory, or below the directory for temporary
/// files, where it bears the user's id.
pub fn registry_name(runtime: bool, uid: u32) -> (r: String)
    ensures
        r@ == if runtime {
            "hew"@
        } else {
            "hew-"@ + strs::dec(uid as nat)
        },
{
    if runtime {
        strs::owned("hew")
    } else {
        let mut r = strs::owned("hew-");
        push_dec(&mut r, uid as u64);
        r
    }
}

/// Whether a registry entry is to be removed: its owner is gone, or it makes no sense. One
/// that could not be read is left alone.
pub fn is_stale(e: Entry) -> (r: bool)
    ensures
        r == (e == Entry::Garbled || e == Entry::Owned { alive: false }),
{
    match e {
        Entry::Unread => false,
        Entry::Garbled => true,
        Entry::Owned { alive } => !alive,
    }
}

/// Whether a session is the one that a selector means: by its id or its name.
pub open spec fn meant(f: Found, selector: Seq<char>) -> bool {
    f.meta.id@ == selector || strs::opt_view(f.meta.name) == Some(selector)
}

/// One line on a session, for the list of candidates.
pub open spec fn candidate(f: Found) -> Seq<char> {
    "  "@ + f.meta.id@ + "  ("@ + f.meta.cwd@ + ", "@ + strs::dec(f.meta.files@.len()) + " files)"@
}

/// The lines on all sessions.
pub open spec fn candidates(sessions: Seq<Found>) -> Seq<Seq<char>> {
    Seq::new(sessions.len(), |i: int| candidate(sessions[i]))
}

/// What is said where no session is meant by the selector.
pub open spec fn no_match(selector: Seq<char>) -> Seq<char> {
    "no hew session matching '"@ + selector + "' (id or name)"@
}

/// What is said where there are several sessions and no selector.
pub open spec fn too_many(sessions: Seq<Found>) -> Seq<char> {
    "multiple hew sessions; pass --session <id|name>:\n"@ + strs::joined(
        candidates(sessions),
        '\n',
    )
}

fn is_meant(f: &Found, selector: &str) -> (r: bool)
    ensures
        r == meant(*f, selector@),
{
    if strs::same_text(f.meta.id.as_str(), selector) {
        return true;
    }
    match &f.meta.name {
        Some(n) => strs::same_text(n.as_str(), selector),
        None => false,
    }
}

fn describe(f: &Found) -> (r: String)
    ensures
        r@ == candidate(*f),
{
    let mut r = strs::owned("  ");
    r.append(f.meta.id.as_str());
    r.append("  (");
    r.append(f.meta.cwd.as_str());
    r.append(", ");
    push_dec(&mut r, f.meta.files.len() as u64);
    r.append(" files)");
    r
}

/// Resolve which of the live sessions a client command targets.
///
/// Order: explicit `--session` (id or name) → the only live session → error listing the
/// candidates.
pub fn resolve_target(selector: Option<&str>, sessions: Vec<Found>) -> (r: Result<Found, String>)
    ensures
        match selector {
            Some(sel) => match r {
                Ok(f) => exists|i: int|
                    {
                        &&& 0 <= i < sessions@.len()
                        &&& #[trigger] sessions@[i] == f
                        &&& meant(f, sel@)
                        &&& forall|j: int| 0 <= j < i ==> !meant(#[trigger] sessions@[j], sel@)
                    },
                Err(e) => e@ == no_match(sel@) && forall|j: int|
                    0 <= j < sessions@.len() ==> !meant(#[trigger] sessions@[j], sel@),
            },
            None => match r {
                Ok(f) => sessions@ == seq![f],
                Err(e) => {
                    ||| sessions@.len() == 0 && e@ == "no running hew session"@
                    ||| sessions@.len() > 1 && e@ == too_many(sessions@)
                },
            },
        },
{
    let ghost all = sessions@;
    let mut left = sessions;
    if let Some(sel) = selector {
        let mut i: usize = 0;
        while i < left.len()
            invariant
                left@ == all,
                all == sessions@,
                selector == Some(sel),
                i <= left.len(),
                forall|j: int| 0 <= j < i ==> !meant(#[trigger] all[j], sel@),
            decreases left.len() - i,
        {
            if is_meant(&left[i], sel) {
                let f = left.remove(i);
                assert(all[i as int] == f);
                return Ok(f);
            }
            i += 1;
        }
        let mut e = strs::owned("no hew session matching '");
        e.append(sel);
        e.append("' (id or name)");
        return Err(e);
    }
    if left.len() == 0 {
        return Err(strs::owned("no running hew session"));
    }
    if left.len() == 1 {
        let f = left.remove(0);
        assert(all == seq![f]);
        return Ok(f);
    }
    let mut lines: Vec<String> = Vec::new();
    let mut i: usize = 0;
    assert(strs::views(lines@) == candidates(all).take(0));
    while i < left.len()
        invariant
            left@ == all,
            i <= left.len(),
            strs::views(lines@) == candidates(all).take(i as int),
        decreases left.len() - i,
    {
        let ghost before = lines@;
        lines.push(describe(&left[i]));
        assert(strs::views(lines@) == strs::views(before).push(candidates(all)[i as int]));
        assert(candidates(all).take(i + 1) == candidates(all).take(i as int).push(
            candidates(all)[i as int],
        ));
        i += 1;
    }
    assert(candidates(all).take(all.len() as int) == candidates(all));
    let mut e = strs::owned("multiple hew sessions; pass --session <id|name>:\n");
    e.append(join(&lines, '\n').as_str());
    Err(e)
}

/// What a request line comes to.
#[derive(Debug)]
pub enum Outcome {
    /// The line is no request.
    Unknown,
    /// The main loop did not answer.
    Silent,
    /// The main loop answered.
    Answered(String),
}

/// What the client is told.
pub open spec fn response_to(o: Outcome) -> Seq<char> {
    match o {
        Outcome::Unknown => "{\"error\":\"unknown request\"}"@,
        Outcome::Silent => "{\"error\":\"no reply\"}"@,
        Outcome::Answered(s) => s@,
    }
}

/// The line that a client is sent in reply.
pub fn response(o: Outcome) -> (r: String)
    ensures
        r@ == response_to(o),
{
    match o {
        Outcome::Unknown => strs::owned("{\"error\":\"unknown request\"}"),
        Outcome::Silent => strs::owned("{\"error\":\"no reply\"}"),
        Outcome::Answered(s) => s,
    }
}

/// A name that would leave the registry directory is refused: a safe name holds no `/`, and is
/// neither `.` nor `..`.
pub proof fn law_names_stay_inside(name: Seq<char>)
    requires
        safe_name(name),
    ensures
        !name.contains('/'),
        name != "."@,
        name != ".."@,
        name.len() > 0,
{
    reveal_strlit(".");
    reveal_strlit("..");
    assert(forall|i: int| 0 <= i < name.len() ==> safe_char(#[trigger] name[i]));
    assert("."@ == seq!['.']);
    assert(".."@ == seq!['.', '.']);
}

} // verus!
