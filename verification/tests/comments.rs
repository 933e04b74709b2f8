//! Comments and the action log.
use hew::comments::actions::{Action, diff};
use hew::comments::model::{stamp, CommentStore, LineRange};
use hew::diff::model::Side;

fn store() -> CommentStore {
    CommentStore::default()
}

fn range(start: u32, end: u32) -> LineRange {
    LineRange { start, end }
}

#[test]
fn added_thread_with_reply() {
    let base = store();
    let mut cur = store();
    let id = cur.add_thread(
        "a.rs".into(),
        Side::New,
        LineRange { start: 5, end: 5 },
        Some("you".into()),
        "root".into(),
    );
    cur.reply(&id, Some("you".into()), "more".into());

    let actions = diff(&base, &cur);
    assert_eq!(actions.len(), 2);
    assert!(matches!(
        &actions[0],
        Action::AddComment {
            start_line: None,
            line: 5,
            ..
        }
    ));
    assert!(matches!(&actions[1], Action::Reply { .. }));
}

#[test]
fn multi_line_add_carries_start_line() {
    let base = store();
    let mut cur = store();
    cur.add_thread(
        "a.rs".into(),
        Side::New,
        LineRange { start: 10, end: 14 },
        None,
        "spans".into(),
    );
    let actions = diff(&base, &cur);
    assert!(matches!(
        &actions[0],
        Action::AddComment {
            start_line: Some(10),
            line: 14,
            ..
        }
    ));
}

#[test]
fn add_then_delete_cancels() {
    let base = store();
    let mut cur = store();
    let id = cur.add_thread(
        "a.rs".into(),
        Side::New,
        LineRange { start: 1, end: 1 },
        None,
        "x".into(),
    );
    // Deleting the lone comment empties (and drops) the in-session thread,
    // so the add and delete cancel to an empty log.
    let cid = cur.threads[0].comments[0].id.clone();
    cur.remove_comment(&id, &cid);
    assert!(diff(&base, &cur).is_empty());
}

#[test]
fn resolve_toggle_cancels_but_single_resolve_shows() {
    let mut base = store();
    let id = base.add_thread(
        "a.rs".into(),
        Side::Old,
        LineRange { start: 2, end: 2 },
        None,
        "x".into(),
    );

    // Toggle resolve twice => no net change.
    let mut cur = base.clone();
    cur.toggle_resolved(&id);
    cur.toggle_resolved(&id);
    assert!(diff(&base, &cur).is_empty());

    // Resolve once => one Resolve action.
    let mut cur = base.clone();
    cur.toggle_resolved(&id);
    let actions = diff(&base, &cur);
    assert_eq!(actions, vec![Action::Resolve { thread_id: id }]);
}

#[test]
fn reply_to_base_thread() {
    let mut base = store();
    let id = base.add_thread(
        "a.rs".into(),
        Side::New,
        LineRange { start: 4, end: 4 },
        None,
        "root".into(),
    );
    let mut cur = base.clone();
    cur.reply(&id, Some("you".into()), "reply".into());
    let actions = diff(&base, &cur);
    assert_eq!(actions.len(), 1);
    assert!(matches!(&actions[0], Action::Reply { body, .. } if body == "reply"));
}

#[test]
fn add_thread_then_reply() {
    let mut store = CommentStore::default();
    let id = store.add_thread(
        "src/main.rs".into(),
        Side::New,
        range(10, 12),
        Some("agent".into()),
        "looks off".into(),
    );
    assert_eq!(store.threads.len(), 1);
    assert_eq!(store.threads[0].comments.len(), 1);
    assert!(!store.threads[0].resolved);

    assert!(store.reply(&id, Some("you".into()), "good catch".into()));
    assert_eq!(store.threads[0].comments.len(), 2);
    assert_eq!(store.threads[0].comments[1].body, "good catch");

    // Replying to an unknown thread is a no-op.
    assert!(!store.reply("no such thread", None, "x".into()));
    assert_eq!(store.threads[0].comments.len(), 2);
}

#[test]
fn toggle_resolved_flips_and_reports_missing() {
    let mut store = CommentStore::default();
    let id = store.add_thread("f".into(), Side::Old, range(1, 1), None, "hi".into());
    assert_eq!(store.toggle_resolved(&id), Some(true));
    assert!(store.threads[0].resolved);
    assert_eq!(store.toggle_resolved(&id), Some(false));
    assert!(!store.threads[0].resolved);
    // Unknown ids report failure without panicking.
    assert_eq!(store.toggle_resolved("no such thread"), None);
}

#[test]
fn remove_thread_reports_hit() {
    let mut store = CommentStore::default();
    let id = store.add_thread("f".into(), Side::New, range(2, 2), None, "hi".into());
    assert!(store.remove_thread(&id));
    assert!(store.threads.is_empty());
    // Removing again is a no-op.
    assert!(!store.remove_thread(&id));
}

#[test]
fn ids_are_written_out_in_full_and_differ() {
    let mut s = store();
    let a = s.add_thread("f".into(), Side::New, range(1, 2), None, "x".into());
    let b = s.add_thread("f".into(), Side::New, range(1, 2), None, "x".into());
    assert_ne!(a, b);
    assert_eq!(a.len(), 36);
    assert!(a.chars().enumerate().all(|(i, c)| match i {
        8 | 13 | 18 | 23 => c == '-',
        _ => c.is_ascii_hexdigit() && !c.is_ascii_uppercase(),
    }));
    // The clock is behind the year 2020 for nobody.
    assert!(s.threads[0].comments[0].created_at > 1_577_836_800_000);
}

#[test]
fn a_range_holds_both_its_ends() {
    let r = range(3, 5);
    assert!(!r.contains(2) && r.contains(3) && r.contains(5) && !r.contains(6));
}

#[test]
fn the_log_tells_every_change() {
    let mut base = store();
    let kept = base.add_thread("a.rs".into(), Side::Old, range(2, 2), None, "old".into());
    let done = base.add_thread("a.rs".into(), Side::New, range(3, 3), None, "done".into());
    base.toggle_resolved(&done);
    let mut cur = base.clone();
    cur.toggle_resolved(&done);
    cur.reply(&kept, Some("you".into()), "yes".into());
    cur.toggle_resolved(&kept);
    let fresh = cur.add_thread("b.rs".into(), Side::New, range(4, 6), Some("you".into()), "n".into());
    let log = diff(&base, &cur);
    assert!(log.contains(&Action::Reply {
        thread_id: kept.clone(),
        body: "yes".into(),
        author: Some("you".into()),
    }));
    assert!(log.contains(&Action::Resolve { thread_id: kept }));
    assert!(log.contains(&Action::Unresolve { thread_id: done }));
    assert!(log.contains(&Action::AddComment {
        thread_id: fresh,
        file: "b.rs".into(),
        side: Side::New,
        start_line: Some(4),
        line: 6,
        body: "n".into(),
        author: Some("you".into()),
    }));
    assert_eq!(log.len(), 4);
    assert!(diff(&base, &base).is_empty());
}

#[test]
fn stamps_of_known_clocks() {
    assert_eq!(stamp(None), 0);
    assert_eq!(stamp(Some(1_735_689_599_999)), 1_735_689_599_999);
    assert_eq!(stamp(Some(u64::MAX as u128 + 8)), 7);
}
