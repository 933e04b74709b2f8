//! The sidebar tree.
use hew::comments::model::{CommentStore, LineRange};
use hew::diff::model::{Changeset, DiffFile, Side};
use hew::ui::sidebar::{SbRow, base_of, build_sidebar_rows, dir_of, file_comment_state, file_status};
use hew::ui::theme::fallback;

fn file(path: &str) -> DiffFile {
    DiffFile {
        old_path: path.into(),
        new_path: path.into(),
        is_binary: false,
        hunks: vec![],
    }
}

fn cs(paths: &[&str]) -> Changeset {
    Changeset {
        files: paths.iter().map(|p| file(p)).collect(),
    }
}

#[test]
fn dir_and_base_split() {
    assert_eq!(dir_of("a/b/c.rs"), "a/b");
    assert_eq!(dir_of("top.rs"), "");
    assert_eq!(base_of("a/b/c.rs"), "c.rs");
    assert_eq!(base_of("top.rs"), "top.rs");
}

#[test]
fn nests_dirs_and_shares_common_prefix() {
    let changeset = cs(&["src/a.rs", "src/b.rs", "src/ui/c.rs"]);
    let (rows, map) = build_sidebar_rows(&changeset, &Vec::new());
    // src (dir), a.rs, b.rs, src/ui (dir), c.rs — the shared `src` prefix
    // is emitted once, not per file.
    let dirs: Vec<&str> = rows
        .iter()
        .filter_map(|r| match r {
            SbRow::Dir { path, .. } => Some(path.as_str()),
            _ => None,
        })
        .collect();
    assert_eq!(dirs, vec!["src", "src/ui"]);
    // Every file maps to a real row.
    assert!(map.iter().all(|&r| r != usize::MAX));
    assert_eq!(map.len(), 3);
}

#[test]
fn collapsed_dir_hides_its_subtree() {
    let changeset = cs(&["src/a.rs", "src/ui/c.rs", "top.rs"]);
    let mut collapsed = Vec::new();
    collapsed.push("src".to_string());
    let (rows, map) = build_sidebar_rows(&changeset, &collapsed);
    // The `src` dir row stays, but nothing beneath it (a.rs, src/ui, c.rs).
    assert!(rows
        .iter()
        .any(|r| matches!(r, SbRow::Dir { path, .. } if path == "src")));
    assert!(!rows
        .iter()
        .any(|r| matches!(r, SbRow::Dir { path, .. } if path == "src/ui")));
    // Hidden files map to usize::MAX; the visible top-level file does not.
    assert_eq!(map[0], usize::MAX); // src/a.rs hidden
    assert_eq!(map[1], usize::MAX); // src/ui/c.rs hidden
    assert_ne!(map[2], usize::MAX); // top.rs visible
}

#[test]
fn reuses_non_contiguous_directories() {
    let changeset = cs(&[
        ".github/workflows/a.yml",
        "src/lib.rs",
        ".github/workflows/b.yml",
    ]);
    let (rows, map) = build_sidebar_rows(&changeset, &Vec::new());
    let dirs: Vec<&str> = rows
        .iter()
        .filter_map(|r| match r {
            SbRow::Dir { path, .. } => Some(path.as_str()),
            _ => None,
        })
        .collect();
    assert_eq!(dirs, vec![".github", ".github/workflows", "src"]);
    assert!(map.iter().all(|&r| r != usize::MAX));
}

#[test]
fn file_status_classifies_add_delete_rename_modify() {
    assert_eq!(file_status(&file("a.rs"), &fallback()).0, 'M');
    let mut added = file("a.rs");
    added.old_path = "/dev/null".into();
    assert_eq!(file_status(&added, &fallback()).0, 'A');
    let mut deleted = file("a.rs");
    deleted.new_path = "/dev/null".into();
    assert_eq!(file_status(&deleted, &fallback()).0, 'D');
    let renamed = DiffFile {
        old_path: "a.rs".into(),
        new_path: "b.rs".into(),
        is_binary: false,
        hunks: vec![],
    };
    assert_eq!(file_status(&renamed, &fallback()).0, 'R');
}

#[test]
fn depths_and_names() {
    let (rows, map) = build_sidebar_rows(&cs(&["src/ui/c.rs", "top.rs"]), &Vec::new());
    let shown: Vec<(String, usize)> = rows
        .iter()
        .map(|r| match r {
            SbRow::Dir { name, depth, .. } => (name.clone(), *depth),
            SbRow::File { idx, depth } => (format!("#{idx}"), *depth),
        })
        .collect();
    assert_eq!(
        shown,
        vec![
            ("src".to_string(), 0),
            ("ui".to_string(), 1),
            ("#0".to_string(), 2),
            ("#1".to_string(), 0),
        ]
    );
    assert_eq!(map, vec![2, 3]);
}

#[test]
fn a_file_with_comments_is_open_until_all_are_resolved() {
    let mut s = CommentStore::default();
    assert_eq!(file_comment_state(&s, "a.rs"), None);
    let id = s.add_thread("a.rs".into(), Side::New, LineRange { start: 1, end: 1 }, None, "x".into());
    assert_eq!(file_comment_state(&s, "a.rs"), Some(true));
    assert_eq!(file_comment_state(&s, "b.rs"), None);
    s.toggle_resolved(&id);
    assert_eq!(file_comment_state(&s, "a.rs"), Some(false));
}
