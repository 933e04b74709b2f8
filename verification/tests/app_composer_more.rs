//! The composer.
use hew::comments::model::{CommentStore, LineRange};
use hew::diff::model::Side;
use hew::diff::parse::parse_report;
use hew::ui::app::{App, ViewMode};
use hew::ui::app::editor::{KeyCode, Mods};
use hew::ui::render_rows::{ComposerKind, ComposerLine, RowKind};

const NONE: Mods = Mods { ctrl: false, alt: false, shift: false };
const CONTROL: Mods = Mods { ctrl: true, alt: false, shift: false };
const SHIFT: Mods = Mods { ctrl: false, alt: false, shift: true };

// Four additions framed by two context lines, so the new side carries
// lines 1..=6 and there are six selectable rows in a known order.
const DIFF: &str = "\
--- a/f.rs
+++ b/f.rs
@@ -1,2 +1,6 @@
 a
+b
+c
+d
+e
 f
";

fn app_with(diff: &str) -> App {
    let cs = parse_report(diff).0;
    let mut app = App::with_comments(cs, CommentStore::default());
    app.height = 4; // deterministic viewport for scroll math
    // Pin the 1:1 geometry for tests that assert exact row/line positions;
    // the wrap-specific tests opt back in explicitly.
    app.wrap = false;
    app
}

/// Move the cursor onto the row anchored at `(current_file, side, line)`.
fn goto(app: &mut App, side: Side, line: u32) {
    let (s, e) = app.file_range();
    for i in s..e {
        if app.anchor_at(i) == Some((app.current_file, side, line)) {
            app.selected = i;
            return;
        }
    }
    panic!("no selectable row for {side:?} line {line}");
}

/// Build an app with one new-side thread (two messages) anchored to `line`,
/// rendered inline.
fn app_with_thread(line: u32) -> (App, String, String) {
    let cs = parse_report(DIFF).0;
    let mut store = CommentStore::default();
    let tid = store.add_thread(
        "f.rs".into(),
        Side::New,
        LineRange {
            start: line,
            end: line,
        },
        Some("a".into()),
        "root message".into(),
    );
    store.reply(&tid, Some("b".into()), "a reply".into());
    let reply_id = store.threads[0].comments[1].id.clone();
    let mut app = App::with_comments(cs, store);
    app.height = 40; // tall enough to hold the whole thread
    app.wrap = false;
    (app, tid, reply_id)
}

/// Open a new-thread composer anchored on a known diff line.
fn open_composer(app: &mut App) {
    goto(app, Side::New, 3);
    app.open_new_thread();
    assert!(app.composer.is_some(), "composer should be open");
}

/// The current composer text (no caret), for assertions.
fn composer_text(app: &App) -> String {
    app.composer.as_ref().unwrap().text()
}

#[test]
fn app_composer_supports_readline_cursor_editing() {
    let mut app = app_with(DIFF);
    open_composer(&mut app);
    // Type "ac", move left (←), insert "b" between them — cursor editing.
    app.on_key_compose(KeyCode::Char('a'), NONE);
    app.on_key_compose(KeyCode::Char('c'), NONE);
    app.on_key_compose(KeyCode::Left, NONE);
    app.on_key_compose(KeyCode::Char('b'), NONE);
    assert_eq!(composer_text(&app), "abc");

    // Ctrl+A jumps to line start; typed text lands there.
    app.on_key_compose(KeyCode::Char('a'), CONTROL);
    app.on_key_compose(KeyCode::Char('X'), NONE);
    assert_eq!(composer_text(&app), "Xabc");

    // Ctrl+E jumps to line end.
    app.on_key_compose(KeyCode::Char('e'), CONTROL);
    app.on_key_compose(KeyCode::Char('Z'), NONE);
    assert_eq!(composer_text(&app), "XabcZ");
}

#[test]
fn app_ctrl_d_deletes_forward_and_does_not_cancel() {
    // Ctrl+D is readline delete-forward now, not a cancel chord.
    let mut app = app_with(DIFF);
    open_composer(&mut app);
    app.on_key_compose(KeyCode::Char('a'), NONE);
    app.on_key_compose(KeyCode::Char('b'), NONE);
    app.on_key_compose(KeyCode::Char('a'), CONTROL); // to start
    app.on_key_compose(KeyCode::Char('d'), CONTROL); // delete 'a'
    assert!(app.composer.is_some(), "Ctrl+D must not cancel");
    assert_eq!(composer_text(&app), "b");
}

#[test]
fn app_composer_keeps_caret_visible_when_taller_than_viewport() {
    // Regression: typing a long comment scrolled the box's *top* into view
    // and pushed the caret (its bottom body line) off-screen below. The
    // viewport must follow the caret instead.
    let mut app = app_with(DIFF);
    app.height = 6; // viewport far shorter than the box
    app.toggle_view(); // default Split -> Unified (refreshes file span)
    assert!(matches!(app.view, ViewMode::Unified));
    open_composer(&mut app);
    for _ in 0..200 {
        app.on_key_compose(KeyCode::Enter, NONE);
    }
    app.on_key_compose(KeyCode::Char('x'), NONE);
    app.ensure_composer_visible();

    let (s, e) = app.file_range();
    // The caret rides the last composer Body row.
    let caret = (s..e)
        .rev()
        .find(|&i| {
            matches!(
                app.rows.get(i).map(|r| &r.kind),
                Some(RowKind::Composer(ComposerLine {
                    kind: ComposerKind::Body(_)
                }))
            )
        })
        .expect("composer body row");
    assert!(
        caret >= app.scroll && caret < app.scroll + app.height,
        "caret row {caret} must stay within view [{}, {})",
        app.scroll,
        app.scroll + app.height
    );
}

#[test]
fn app_composer_caret_visible_on_a_tiny_viewport() {
    // The caret sits on the last Body row, with Hint+Bottom chrome below it.
    // Anchoring to the box's bottom border (height < 3) would leave the
    // caret off-screen, so the scroll must follow the body row instead.
    let mut app = app_with(DIFF);
    app.height = 2;
    app.toggle_view(); // default Split -> Unified
    open_composer(&mut app);
    for _ in 0..50 {
        app.on_key_compose(KeyCode::Enter, NONE);
    }
    app.on_key_compose(KeyCode::Char('x'), NONE);
    app.ensure_composer_visible();

    let (s, e) = app.file_range();
    let caret = (s..e)
        .find(|&i| app.is_composer_caret_at(i))
        .expect("composer caret row");
    assert!(
        caret >= app.scroll && caret < app.scroll + app.height,
        "caret row {caret} must stay within view [{}, {}) on a tiny viewport",
        app.scroll,
        app.scroll + app.height
    );
}

#[test]
fn app_ensure_composer_visible_follows_caret_upward() {
    // Regression: scrolling anchored to the *last* body row, so with the
    // cursor moved up in a box taller than the viewport, a bottom-anchored
    // scroll left the caret off-screen above. The pass must pull the
    // viewport up to the caret row.
    let mut app = app_with(DIFF);
    app.height = 4;
    app.toggle_view(); // Split -> Unified
    open_composer(&mut app);
    app.comment_wrap = 40;
    for _ in 0..40 {
        app.on_key_compose(KeyCode::Enter, NONE);
    }
    app.on_key_compose(KeyCode::Char('x'), NONE);
    // Cursor to the top of the buffer, then force the viewport to the
    // bottom (as if we'd just been typing at the end) and re-run the pass.
    for _ in 0..45 {
        app.on_key_compose(KeyCode::Up, NONE);
    }
    let (_, e) = app.file_range();
    app.scroll = e.saturating_sub(app.height); // bottom-anchored
    app.ensure_composer_visible();

    let (s, e) = app.file_range();
    let caret = (s..e)
        .find(|&i| app.is_composer_caret_at(i))
        .expect("composer caret row");
    assert!(
        caret >= app.scroll && caret < app.scroll + app.height,
        "caret row {caret} must stay within view [{}, {}) when the cursor is up",
        app.scroll,
        app.scroll + app.height
    );
}

#[test]
fn app_bare_enter_inserts_a_newline_in_the_composer() {
    let mut app = app_with(DIFF);
    open_composer(&mut app);
    app.on_key_compose(KeyCode::Char('a'), NONE);
    app.on_key_compose(KeyCode::Enter, NONE);
    app.on_key_compose(KeyCode::Char('b'), NONE);
    // A bare Enter must NOT submit — the composer stays open with a newline.
    assert!(app.composer.is_some(), "bare Enter should not submit");
    assert_eq!(
        app.composer.as_ref().unwrap().text(),
        "a\nb"
    );
}

#[test]
fn app_ctrl_enter_submits_the_composer() {
    let (mut app, _tid, _reply) = app_with_thread(3);
    let before = app.comments.threads.len();
    goto(&mut app, Side::New, 1);
    app.open_new_thread();
    app.on_key_compose(KeyCode::Char('h'), NONE);
    app.on_key_compose(KeyCode::Char('i'), NONE);
    app.on_key_compose(KeyCode::Enter, CONTROL);
    // Ctrl+Enter submits: composer closes and a new thread is recorded.
    assert!(app.composer.is_none(), "Ctrl+Enter should submit");
    assert_eq!(app.comments.threads.len(), before + 1);
}

#[test]
fn app_ctrl_s_submits_the_composer() {
    // The protocol-free primary submit: a C0 control byte that survives
    // tmux/SSH even when the kitty keyboard protocol (and thus Ctrl+Enter)
    // is not forwarded.
    let (mut app, _tid, _reply) = app_with_thread(3);
    let before = app.comments.threads.len();
    goto(&mut app, Side::New, 1);
    app.open_new_thread();
    app.on_key_compose(KeyCode::Char('h'), NONE);
    app.on_key_compose(KeyCode::Char('i'), NONE);
    app.on_key_compose(KeyCode::Char('s'), CONTROL);
    assert!(app.composer.is_none(), "Ctrl+S should submit");
    assert_eq!(app.comments.threads.len(), before + 1);
}

#[test]
fn app_shift_enter_does_not_submit_the_composer() {
    // Regression: Shift+Enter is indistinguishable from a bare Enter under
    // the DISAMBIGUATE_ESCAPE_CODES protocol, so it must behave like one
    // (insert a newline) rather than submit.
    let mut app = app_with(DIFF);
    open_composer(&mut app);
    app.on_key_compose(KeyCode::Char('x'), NONE);
    app.on_key_compose(KeyCode::Enter, SHIFT);
    assert!(app.composer.is_some(), "Shift+Enter must not submit");
    assert_eq!(
        app.composer.as_ref().unwrap().text(),
        "x\n"
    );
}
