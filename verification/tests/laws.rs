//! What holds of the library as a whole, on examples.
use hew::comments::actions::{diff, Action};
use hew::comments::model::{Comment, CommentStore, LineRange, Thread};
use hew::diff::generate::diff_texts;
use hew::diff::model::{LineKind, Side};
use hew::diff::parse::parse_report;
use hew::ui::app::editor::{KeyCode, Mods};
use hew::ui::app::paint::{elide_left, fit_text, pad_width};
use hew::ui::app::start::{base64, file_stats};
use hew::ui::app::wrap::wrap_runs;
use hew::ui::app::{App, ButtonAction, Focus, ViewMode};
use hew::ui::highlight::Run;
use hew::ui::highlight_cache::HighlightCache;
use hew::ui::render_rows::date::fmt_date;
use hew::ui::render_rows::text::wrap_preserve;
use hew::ui::render_rows::{
    build_file_rows, build_file_split_rows, build_rows, build_split_rows, sanitize_line,
    str_width, CommentKind, CommentLine, RowKind, SplitRowKind,
};
use hew::ui::sidebar::SbRow;
use hew::ui::style::{Color, Rect};

const NONE: Mods = Mods { ctrl: false, alt: false, shift: false };
const CONTROL: Mods = Mods { ctrl: true, alt: false, shift: false };

const PATCH: &str = "\
--- a/src/one.rs
+++ b/src/one.rs
@@ -1,4 +1,4 @@ fn one
 a
-b
-c
+B
 d
+e
--- a/src/two.rs
+++ b/src/two.rs
@@ -7 +7,2 @@
 p
+q
";

fn store() -> CommentStore {
    let mut s = CommentStore::default();
    let id = s.add_thread(
        "src/one.rs".into(),
        Side::New,
        LineRange { start: 2, end: 3 },
        Some("agent".into()),
        "look here".into(),
    );
    s.reply(&id, None, "why?".into());
    s.add_thread(
        "src/one.rs".into(),
        Side::Old,
        LineRange { start: 40, end: 41 },
        None,
        "not in any hunk".into(),
    );
    s.add_thread(
        "src/two.rs".into(),
        Side::New,
        LineRange { start: 8, end: 8 },
        None,
        "q?".into(),
    );
    s
}

/// Apply a log to a base, as a consumer of it does.
fn replay(base: &CommentStore, log: &[Action]) -> CommentStore {
    let mut s = base.clone();
    let comment = |author: &Option<String>, body: &str| Comment {
        id: String::new(),
        author: author.clone(),
        body: body.to_string(),
        created_at: 0,
    };
    for a in log {
        match a {
            Action::AddComment { thread_id, file, side, start_line, line, body, author } => {
                s.threads.push(Thread {
                    id: thread_id.clone(),
                    file: file.clone(),
                    side: *side,
                    range: LineRange { start: start_line.unwrap_or(*line), end: *line },
                    resolved: false,
                    comments: vec![comment(author, body)],
                })
            }
            Action::Reply { thread_id, body, author } => {
                let t = s.threads.iter_mut().find(|t| t.id == *thread_id).unwrap();
                t.comments.push(comment(author, body));
            }
            Action::Resolve { thread_id } => {
                s.threads.iter_mut().find(|t| t.id == *thread_id).unwrap().resolved = true
            }
            Action::Unresolve { thread_id } => {
                s.threads.iter_mut().find(|t| t.id == *thread_id).unwrap().resolved = false
            }
        }
    }
    s
}

/// What a store says: all but the comments' ids and times.
fn reviewed(s: &CommentStore) -> Vec<String> {
    s.threads
        .iter()
        .map(|t| {
            let c: Vec<_> = t.comments.iter().map(|c| (&c.author, &c.body)).collect();
            format!("{} {} {:?} {:?} {} {c:?}", t.id, t.file, t.side, t.range, t.resolved)
        })
        .collect()
}

fn app() -> App {
    App::with_comments(parse_report(PATCH).0, store())
}

fn frame(app: &mut App, hl: &mut HighlightCache) {
    app.draw(hl, Rect { x: 0, y: 0, width: 100, height: 20 });
}

#[test]
fn replaying_the_log_gives_the_reviewed_state() {
    let base = store();
    let mut cur = base.clone();
    cur.toggle_resolved(&base.threads[0].id);
    cur.reply(&base.threads[1].id, Some("you".into()), "gone?".into());
    let n = cur.add_thread(
        "src/two.rs".into(),
        Side::New,
        LineRange { start: 7, end: 8 },
        Some("you".into()),
        "both".into(),
    );
    cur.reply(&n, Some("you".into()), "really".into());
    cur.toggle_resolved(&n);
    assert_eq!(reviewed(&replay(&base, &diff(&base, &cur))), reviewed(&cur));
    assert!(diff(&base, &base).is_empty());
}

#[test]
fn a_session_at_the_keyboard_replays() {
    let mut a = app();
    let base = store_of(&a);
    let mut hl = HighlightCache::new(&a.changeset, true, Color::Gray);
    frame(&mut a, &mut hl);
    for c in "l".chars() {
        a.on_key(KeyCode::Char(c), NONE);
    }
    a.on_key(KeyCode::Enter, NONE);
    a.on_key(KeyCode::Char('i'), NONE);
    a.on_key(KeyCode::Char('h'), NONE);
    a.on_key(KeyCode::Char('i'), NONE);
    a.on_key(KeyCode::Char('s'), CONTROL);
    a.on_key(KeyCode::Char('n'), NONE);
    a.on_key(KeyCode::Char('R'), NONE);
    frame(&mut a, &mut hl);
    let cur = a.into_comments();
    let log = diff(&base, &cur);
    assert!(!log.is_empty());
    assert_eq!(reviewed(&replay(&base, &log)), reviewed(&cur));
}

fn store_of(a: &App) -> CommentStore {
    a.comments.clone()
}

#[test]
fn keys_keep_the_spans_and_the_input() {
    let mut a = app();
    let mut hl = HighlightCache::new(&a.changeset, true, Color::Gray);
    let input: Vec<String> =
        a.comments.threads.iter().flat_map(|t| &t.comments).map(|c| c.id.clone()).collect();
    frame(&mut a, &mut hl);
    let keys = "jjjkGgnNDvjjy]D[wsRDhlksjnDRbq";
    for c in keys.chars().take(keys.len() - 1) {
        a.on_key(KeyCode::Char(c), NONE);
        frame(&mut a, &mut hl);
        let len = a.active_len();
        for (fi, span) in a.file_spans.iter().enumerate() {
            let rows: Vec<usize> = (0..len).filter(|&i| a.row_file_idx(i) == Some(fi)).collect();
            let want = match (rows.first(), rows.last()) {
                (Some(s), Some(e)) => (*s, e + 1),
                _ => (len, len),
            };
            assert_eq!(*span, want, "file {fi} after {c:?}");
        }
        let ids: Vec<String> =
            a.comments.threads.iter().flat_map(|t| &t.comments).map(|c| c.id.clone()).collect();
        assert!(input.iter().all(|i| ids.contains(i)), "after {c:?}");
        assert!(!a.quit);
    }
    a.on_key(KeyCode::Char('q'), NONE);
    assert!(a.quit);
}

#[test]
fn the_cursor_is_in_view_after_every_move() {
    let mut a = app();
    a.wrap = false;
    a.height = 3;
    for down in [true, true, true, true, true, false, false, true, false] {
        a.move_by(down, 2);
        let (s, e) = a.file_range();
        let top = a.comment_unit_span(a.selected).map_or(a.selected, |u| u.0);
        assert!(s <= a.selected && a.selected < e);
        assert!(a.scroll <= top && top < a.scroll + a.height);
    }
}

#[test]
fn every_thread_has_one_box_in_either_layout() {
    let cs = parse_report(PATCH).0;
    let s = store();
    let rows = build_rows(&cs, &s, 30, None);
    let split = build_split_rows(&cs, &s, 30, None);
    for t in &s.threads {
        let n = rows
            .iter()
            .filter(|r| {
                matches!(&r.kind, RowKind::Comment(c)
                    if matches!(c.kind, CommentKind::Top) && c.thread_id == t.id)
            })
            .count();
        assert_eq!(n, 1);
        let n = split
            .iter()
            .filter(|r| {
                matches!(&r.kind, SplitRowKind::Comment { line: c, .. }
                    if matches!(c.kind, CommentKind::Top) && c.thread_id == t.id)
            })
            .count();
        assert_eq!(n, 1);
    }
}

#[test]
fn a_file_built_alone_has_the_rows_it_has_among_all() {
    let cs = parse_report(PATCH).0;
    let s = store();
    for fi in 0..cs.files.len() {
        let all: Vec<String> = build_rows(&cs, &s, 30, None)
            .iter()
            .filter(|r| r.file_idx == fi)
            .map(|r| format!("{r:?}"))
            .collect();
        let one: Vec<String> =
            build_file_rows(&cs, &s, 30, None, fi).iter().map(|r| format!("{r:?}")).collect();
        assert_eq!(all, one);
        let all: Vec<String> = build_split_rows(&cs, &s, 30, None)
            .iter()
            .filter(|r| r.file_idx == fi)
            .map(|r| format!("{r:?}"))
            .collect();
        let one: Vec<String> = build_file_split_rows(&cs, &s, 30, None, fi)
            .iter()
            .map(|r| format!("{r:?}"))
            .collect();
        assert_eq!(all, one);
    }
}

#[test]
fn both_layouts_show_the_lines_of_the_new_side() {
    let cs = parse_report(PATCH).0;
    let s = store();
    let mut a: Vec<(usize, u32)> = build_rows(&cs, &s, 30, None)
        .iter()
        .filter_map(|r| match r.anchor() {
            Some((Side::New, l)) => Some((r.file_idx, l)),
            _ => None,
        })
        .collect();
    let mut b: Vec<(usize, u32)> = build_split_rows(&cs, &s, 30, None)
        .iter()
        .filter_map(|r| match r.anchor() {
            Some((Side::New, l)) => Some((r.file_idx, l)),
            _ => None,
        })
        .collect();
    a.sort_unstable();
    b.sort_unstable();
    assert_eq!(a, vec![(0, 1), (0, 2), (0, 3), (0, 4), (1, 7), (1, 8)]);
    assert_eq!(a, b);
}

#[test]
fn toggling_the_layout_twice_comes_back() {
    let mut a = app();
    a.view = ViewMode::Split;
    a.move_by(true, 2);
    let line = a.anchor_at(a.selected);
    a.toggle_view();
    assert_eq!(a.view, ViewMode::Unified);
    assert_eq!(a.anchor_at(a.selected), line);
    a.toggle_view();
    assert_eq!(a.view, ViewMode::Split);
    assert_eq!(a.anchor_at(a.selected), line);
}

#[test]
fn frames_are_laid_out_exactly() {
    let mut a = app();
    let mut hl = HighlightCache::new(&a.changeset, true, Color::Gray);
    for (w, h) in [(100u16, 20u16), (60, 2), (250, 70), (61, 3)] {
        let s = a.draw(&mut hl, Rect { x: 0, y: 0, width: w, height: h });
        assert_eq!(s.footer.area, Rect { x: 0, y: h - 1, width: w, height: 1 });
        assert_eq!(
            s.sidebar.unwrap().area,
            Rect { x: 0, y: 0, width: a.sidebar_width, height: h - 1 }
        );
        let left = a.sidebar_width;
        assert_eq!(s.panel, Rect { x: left, y: 0, width: w - left, height: h - 1 });
    }
    // Too narrow for the file list.
    let s = a.draw(&mut hl, Rect { x: 3, y: 4, width: 59, height: 10 });
    assert!(s.sidebar.is_none());
    assert_eq!(s.panel, Rect { x: 3, y: 4, width: 59, height: 9 });
    assert_eq!(s.footer.area, Rect { x: 3, y: 13, width: 59, height: 1 });
}

#[test]
fn base64_of_known_texts() {
    assert_eq!(base64(&b"".to_vec()), "");
    assert_eq!(base64(&b"f".to_vec()), "Zg==");
    assert_eq!(base64(&b"fo".to_vec()), "Zm8=");
    assert_eq!(base64(&b"foobar".to_vec()), "Zm9vYmFy");
    assert_eq!(base64(&vec![0, 255, 254]), "AP/+");
}

#[test]
fn dates_of_known_times() {
    assert_eq!(fmt_date(0), "1970-01-01 00:00");
    assert_eq!(fmt_date(951_827_640_000), "2000-02-29 12:34");
    assert_eq!(fmt_date(1_735_689_599_999), "2024-12-31 23:59");
}

#[test]
fn sanitizing_twice_is_sanitizing_once() {
    for s in ["a\tb\u{1b}[31mc\u{0}", "\t\t", "日\t本", "\u{1b}]0;x\u{7}y", "plain"] {
        let once = sanitize_line(s);
        assert_eq!(sanitize_line(&once), once);
        assert!(!once.chars().any(char::is_control));
    }
}

#[test]
fn fitted_texts_fill_their_cells() {
    assert_eq!(pad_width("ab", 4), "ab  ");
    assert_eq!(pad_width("abcde", 4), "abcde");
    assert_eq!(fit_text("abcdef", 4), "abcd");
    assert_eq!(fit_text("日本", 3), "日 ");
    assert_eq!(fit_text("日", 3), "日 ");
    assert_eq!(str_width(&elide_left("a/long/path.rs", 8)), 8);
    assert!(elide_left("a/long/path.rs", 8).ends_with("path.rs"));
    assert_eq!(elide_left("short", 8), "short");
}

#[test]
fn wrapped_lines_fit_and_spell_the_text() {
    let runs = vec![
        Run { color: Color::Red, text: "let 日本 = ".to_string() },
        Run { color: Color::Blue, text: "\"語\";".to_string() },
    ];
    for budget in [2usize, 3, 5, 40] {
        let lines = wrap_runs(&runs, budget, None);
        let mut text = String::new();
        for l in &lines {
            let w: usize = l.spans.iter().map(|s| str_width(&s.text)).sum();
            assert_eq!(w, l.width);
            assert!(w <= budget);
            text.extend(l.spans.iter().map(|s| s.text.as_str()));
        }
        assert_eq!(text, "let 日本 = \"語\";");
    }
}

#[test]
fn stats_count_additions_and_deletions() {
    assert_eq!(file_stats(&parse_report(PATCH).0), vec![(2, 2), (1, 0)]);
}

#[test]
fn the_log_holds_one_action_per_change() {
    let base = store();
    let mut cur = base.clone();
    // One reply and one net change of state; toggling three times is toggling once.
    cur.reply(&base.threads[0].id, Some("you".into()), "yes".into());
    for _ in 0..3 {
        cur.toggle_resolved(&base.threads[0].id);
    }
    for _ in 0..2 {
        cur.toggle_resolved(&base.threads[1].id);
    }
    // A new thread of two comments that is resolved.
    let n = cur.add_thread(
        "src/two.rs".into(),
        Side::New,
        LineRange { start: 8, end: 8 },
        None,
        "root".into(),
    );
    cur.reply(&n, None, "more".into());
    cur.toggle_resolved(&n);
    // One that is gone again.
    let gone = cur.add_thread(
        "src/two.rs".into(),
        Side::New,
        LineRange { start: 7, end: 7 },
        None,
        "never mind".into(),
    );
    cur.remove_thread(&gone);
    let log = diff(&base, &cur);
    assert_eq!(log.len(), 5);
    assert_eq!(reviewed(&replay(&base, &log)), reviewed(&cur));
    // Without any of them the reviewed state is not reached.
    for i in 0..log.len() {
        let mut fewer = log.clone();
        fewer.remove(i);
        if fewer.iter().any(|a| matches!(a, Action::AddComment { .. })) {
            assert!(reviewed(&replay(&base, &fewer)) != reviewed(&cur));
        }
    }
}

#[test]
fn the_log_refers_to_known_threads() {
    let base = store();
    let mut cur = base.clone();
    cur.toggle_resolved(&base.threads[2].id);
    let n = cur.add_thread(
        "src/two.rs".into(),
        Side::New,
        LineRange { start: 8, end: 8 },
        None,
        "root".into(),
    );
    cur.reply(&n, None, "more".into());
    cur.toggle_resolved(&n);
    let mut known: Vec<String> = base.threads.iter().map(|t| t.id.clone()).collect();
    for a in diff(&base, &cur) {
        match a {
            Action::AddComment { thread_id, .. } => known.push(thread_id),
            Action::Reply { thread_id, .. }
            | Action::Resolve { thread_id }
            | Action::Unresolve { thread_id } => assert!(known.contains(&thread_id)),
        }
    }
    assert!(known.contains(&n));
}

#[test]
fn boxes_leave_the_diff_as_it_is() {
    let cs = parse_report(PATCH).0;
    let bare = CommentStore::default();
    let of_diff = |k: &RowKind| !matches!(k, RowKind::Comment(_) | RowKind::Composer(_));
    for width in [1usize, 12, 80] {
        let with: Vec<String> = build_rows(&cs, &store(), width, None)
            .iter()
            .filter(|r| of_diff(&r.kind))
            .map(|r| format!("{r:?}"))
            .collect();
        let without: Vec<String> =
            build_rows(&cs, &bare, 0, None).iter().map(|r| format!("{r:?}")).collect();
        assert_eq!(with, without);
        let with: Vec<String> = build_split_rows(&cs, &store(), width, None)
            .iter()
            .filter(|r| {
                !matches!(r.kind, SplitRowKind::Comment { .. } | SplitRowKind::Composer { .. })
            })
            .map(|r| format!("{r:?}"))
            .collect();
        let without: Vec<String> =
            build_split_rows(&cs, &bare, 0, None).iter().map(|r| format!("{r:?}")).collect();
        assert_eq!(with, without);
    }
}

#[test]
fn buttons_do_what_their_keys_do() {
    for key in ['r', 'R'] {
        let mut by_key = app();
        by_key.on_key(KeyCode::Enter, NONE);
        let tid = by_key.comments.threads[0].id.clone();
        by_key.select_thread(&tid);
        assert_eq!(by_key.focused_thread_id(), Some(tid));
        by_key.on_key(KeyCode::Char(key), NONE);

        let mut by_button = app();
        by_button.on_key(KeyCode::Enter, NONE);
        let tid = by_button.comments.threads[0].id.clone();
        by_button.dispatch_button(if key == 'r' {
            ButtonAction::Reply(tid)
        } else {
            ButtonAction::ToggleResolve(tid)
        });

        assert_eq!(by_key.status, by_button.status);
        assert_eq!(by_key.selected, by_button.selected);
        assert_eq!(by_key.scroll, by_button.scroll);
        let flags = |a: &App| a.comments.threads.iter().map(|t| t.resolved).collect::<Vec<_>>();
        assert_eq!(flags(&by_key), vec![key == 'R', false, false]);
        assert_eq!(flags(&by_key), flags(&by_button));
        assert_eq!(by_key.composer.is_some(), key == 'r');
        assert_eq!(by_button.composer.is_some(), key == 'r');
        if key == 'r' {
            by_key.on_key(KeyCode::Esc, NONE);
            by_button.dispatch_button(ButtonAction::Cancel);
            assert_eq!(by_key.status, by_button.status);
            assert_eq!(by_key.split_rows.len(), by_button.split_rows.len());
        }
    }
}

#[test]
fn edits_keep_the_cursor_on_its_line() {
    let mut a = app();
    a.on_key(KeyCode::Enter, NONE);
    for _ in 0..2 {
        a.on_key(KeyCode::Char('j'), NONE);
    }
    let line = a.anchor_at(a.selected);
    assert!(line.is_some());
    a.on_key(KeyCode::Char('i'), NONE);
    assert_eq!(a.anchor_at(a.selected), line);
    a.on_key(KeyCode::Char('x'), NONE);
    a.on_key(KeyCode::Char('s'), CONTROL);
    assert_eq!(a.comments.threads.len(), 4);
    assert_eq!(a.anchor_at(a.selected), line);
}

#[test]
fn both_layouts_show_the_same_boxes() {
    let cs = parse_report(PATCH).0;
    let s = store();
    let mut unified: Vec<String> = build_rows(&cs, &s, 30, None)
        .iter()
        .filter_map(|r| match &r.kind {
            RowKind::Comment(c) => Some(format!("{c:?}")),
            _ => None,
        })
        .collect();
    let mut split: Vec<String> = build_split_rows(&cs, &s, 30, None)
        .iter()
        .filter_map(|r| match &r.kind {
            SplitRowKind::Comment { line, .. } => Some(format!("{line:?}")),
            _ => None,
        })
        .collect();
    unified.sort();
    split.sort();
    assert!(!unified.is_empty());
    assert_eq!(unified, split);
}

#[test]
fn frames_end_at_the_last_coordinate() {
    let mut a = app();
    let mut hl = HighlightCache::new(&a.changeset, true, Color::Gray);
    let s = a.draw(&mut hl, Rect { x: 1, y: 0, width: u16::MAX, height: 10 });
    let left = a.sidebar_width;
    assert_eq!(s.footer.area, Rect { x: 1, y: 9, width: u16::MAX - 1, height: 1 });
    assert_eq!(s.sidebar.unwrap().area, Rect { x: 1, y: 0, width: left, height: 9 });
    assert_eq!(s.panel, Rect { x: 1 + left, y: 0, width: u16::MAX - 1 - left, height: 9 });
    let s = a.draw(&mut hl, Rect { x: 0, y: 65533, width: 100, height: 20 });
    assert_eq!(s.footer.area, Rect { x: 0, y: 65534, width: 100, height: 1 });
}

#[test]
fn a_frame_asks_for_a_file_once() {
    let mut a = app();
    let mut hl = HighlightCache::new(&a.changeset, true, Color::Gray);
    let area = Rect { x: 0, y: 0, width: 100, height: 20 };
    assert!(a.draw(&mut hl, area).warm);
    assert!(!a.draw(&mut hl, area).warm);
    a.current_file = 1;
    assert!(a.draw(&mut hl, area).warm);
    assert!(!a.draw(&mut hl, area).warm);
}

fn body(text: &str) -> CommentLine {
    CommentLine {
        kind: CommentKind::Body(text.to_string()),
        resolved: false,
        thread_id: "t".to_string(),
        comment_id: None,
    }
}

#[test]
fn lines_of_boxes_fill_the_width() {
    let a = app();
    for width in 0..20usize {
        for text in ["", "ab", "日本語です", "a日"] {
            for focused in [false, true] {
                let l = a.comment_line_to_line(&body(text), focused, width);
                let w: usize = l.spans.iter().map(|s| str_width(&s.text)).sum();
                assert_eq!(w, width, "{text:?}");
            }
        }
    }
}

#[test]
fn preserved_lines_fit() {
    assert_eq!(wrap_preserve(" ab日", 3), [" ", "ab", "日"]);
    for width in 2..8usize {
        for text in ["ab 日本 cd", "日 日日 a", "   x日本語", "word"] {
            let lines = wrap_preserve(text, width);
            assert!(lines.iter().all(|l| str_width(l) <= width), "{lines:?}");
            assert_eq!(lines.concat(), text);
        }
    }
}

#[test]
fn right_goes_from_a_directory_to_the_diff() {
    let mut a = app();
    a.focus = Focus::Sidebar;
    a.sidebar_sel =
        a.sidebar_rows.iter().position(|r| matches!(r, SbRow::Dir { .. })).unwrap();
    a.on_key_sidebar(KeyCode::Left);
    assert_eq!(a.collapsed, ["src"]);
    assert_eq!(a.focus, Focus::Sidebar);
    a.on_key_sidebar(KeyCode::Right);
    assert_eq!(a.focus, Focus::Diff);
    assert_eq!(a.collapsed, ["src"]);
}

#[test]
fn a_thread_on_a_binary_file_has_one_box() {
    let cs = parse_report("Binary files a/p.bin and b/p.bin differ\n").0;
    let mut s = CommentStore::default();
    let range = LineRange { start: 1, end: 1 };
    let path = cs.files[0].display_path().to_string();
    s.add_thread(path, Side::New, range, None, "why binary?".into());
    let tops = build_rows(&cs, &s, 30, None)
        .iter()
        .filter(|r| {
            matches!(&r.kind, RowKind::Comment(c) if matches!(c.kind, CommentKind::Top))
        })
        .count();
    assert_eq!(tops, 1);
    let tops = build_split_rows(&cs, &s, 30, None)
        .iter()
        .filter(|r| {
            matches!(&r.kind, SplitRowKind::Comment { line: c, .. }
                if matches!(c.kind, CommentKind::Top))
        })
        .count();
    assert_eq!(tops, 1);
}

#[test]
fn toggling_the_layout_keeps_a_lone_deletion() {
    let text = "--- a/x.rs\n+++ b/x.rs\n@@ -1,3 +1,2 @@\n a\n-b\n c\n";
    let mut a = App::with_comments(parse_report(text).0, CommentStore::default());
    let gone = Some((0, Side::Old, 2));
    a.selected = (0..20usize).find(|&i| a.anchor_at(i) == gone).unwrap();
    for _ in 0..3 {
        a.toggle_view();
        assert_eq!(a.anchor_at(a.selected), gone);
    }
}

#[test]
fn differing_texts_have_a_change() {
    for (old, new) in [("a\nb\n", "a\nc\n"), ("x", "x\n"), ("", "\n"), ("a\nb\n", "b\na\n")] {
        let f = diff_texts("f", "f", old, new, 3);
        let lines: Vec<_> = f.hunks.iter().flat_map(|h| &h.lines).collect();
        assert!(lines.iter().any(|l| l.kind != LineKind::Context), "{old:?} {new:?}");
    }
}
