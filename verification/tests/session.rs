//! Sessions.
use hew::session::{Entry, Found, Meta, Outcome, choose_id, is_stale, meta_file, registry_name, resolve_target, response, session_id, short_id, socket_file, valid_id};

#[test]
fn rejects_unsafe_names() {
    assert!(valid_id("pr-42"));
    assert!(valid_id("feature_x.v2"));
    assert!(!valid_id(""));
    assert!(!valid_id("."));
    assert!(!valid_id(".."));
    assert!(!valid_id("a/b"));
    assert!(!valid_id("../escape"));
    assert!(!valid_id("has space"));
}

fn found(id: &str, name: Option<&str>, files: usize) -> Found {
    Found {
        meta: Meta {
            id: id.to_string(),
            pid: 7,
            name: name.map(str::to_string),
            cwd: "/work".to_string(),
            files: (0..files).map(|i| format!("f{i}")).collect(),
        },
        sock: std::path::PathBuf::from(format!("/run/{id}.sock")),
    }
}

#[test]
fn long_and_foreign_names_are_refused() {
    assert!(valid_id(&"x".repeat(64)));
    assert!(!valid_id(&"x".repeat(65)));
    assert!(!valid_id("naïve"));
    assert!(valid_id("..."));
}

#[test]
fn ids_of_sessions() {
    let id = short_id();
    assert_eq!(id.len(), 8);
    assert!(valid_id(&id));
    assert_ne!(id, short_id());
    assert_eq!(choose_id(&Some("pr-1".to_string()), "x".to_string()), Ok("pr-1".to_string()));
    assert_eq!(choose_id(&None, "x".to_string()), Ok("x".to_string()));
    assert_eq!(
        choose_id(&Some("a/b".to_string()), "x".to_string()),
        Err("invalid --name 'a/b': use only letters, digits, '-', '_', '.' (≤64 chars)".to_string())
    );
    assert!(session_id(&Some("..".to_string())).is_err());
    assert!(valid_id(&session_id(&None).unwrap()));
}

#[test]
fn names_in_the_registry() {
    assert_eq!(socket_file("ab"), "ab.sock");
    assert_eq!(meta_file("ab"), "ab.json");
    assert_eq!(registry_name(true, 1000), "hew");
    assert_eq!(registry_name(false, 1000), "hew-1000");
    assert!(is_stale(Entry::Garbled));
    assert!(is_stale(Entry::Owned { alive: false }));
    assert!(!is_stale(Entry::Owned { alive: true }));
    assert!(!is_stale(Entry::Unread));
}

#[test]
fn targets_by_id_and_by_name() {
    let all = || vec![found("one", None, 0), found("two", Some("x"), 3), found("x", None, 1)];
    assert_eq!(resolve_target(Some("two"), all()).unwrap().meta.id, "two");
    // The first that is meant wins.
    assert_eq!(resolve_target(Some("x"), all()).unwrap().meta.id, "two");
    assert_eq!(
        resolve_target(Some("nope"), all()).unwrap_err(),
        "no hew session matching 'nope' (id or name)"
    );
}

#[test]
fn targets_without_a_selector() {
    assert_eq!(resolve_target(None, vec![]).unwrap_err(), "no running hew session");
    let f = resolve_target(None, vec![found("only", None, 2)]).unwrap();
    assert_eq!(f.meta.id, "only");
    assert_eq!(f.sock, std::path::PathBuf::from("/run/only.sock"));
    assert_eq!(
        resolve_target(None, vec![found("a", None, 2), found("b", None, 12)]).unwrap_err(),
        "multiple hew sessions; pass --session <id|name>:\n  a  (/work, 2 files)\n  b  (/work, 12 files)"
    );
}

#[test]
fn replies_to_clients() {
    assert_eq!(response(Outcome::Unknown), "{\"error\":\"unknown request\"}");
    assert_eq!(response(Outcome::Silent), "{\"error\":\"no reply\"}");
    assert_eq!(response(Outcome::Answered("{}".to_string())), "{}");
}
