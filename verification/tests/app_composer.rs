//! The composer.
use hew::comments::model::{CommentStore, LineRange};
use hew::diff::model::Side;
use hew::diff::parse::parse_report;
use hew::ui::app::{App, ButtonAction, ViewMode};
use hew::ui::app::editor::{KeyCode, Mods};
use hew::ui::app::state::COMPOSER_CARET;
use hew::ui::render_rows::{ComposerKind, ComposerLine, RowKind, str_width};

const NONE: Mods = Mods { ctrl: false, alt: false, shift: false };
const CONTROL: Mods = Mods { ctrl: true, alt: false, shift: false };
const ALT: Mods = Mods { ctrl: false, alt: true, shift: false };
const SHIFT: Mods = Mods { ctrl: false, alt: false, shift: true };

// Four additions framed by two context lines, so the new side carries
// lines 1..=6 and there are six selectable rows in a known order.
const DIFF: &str = "\
--- a/f.rs
+++ b/f.rs
@@ -1,2 +1,6 @@
 a
+b
+c
+d
+e
 f
";

fn app_with(diff: &str) -> App {
    let cs = parse_report(diff).0;
    let mut app = App::with_comments(cs, CommentStore::default());
    app.height = 4; // deterministic viewport for scroll math
    // Pin the 1:1 geometry for tests that assert exact row/line positions;
    // the wrap-specific tests opt back in explicitly.
    app.wrap = false;
    app
}

/// Move the cursor onto the row anchored at `(current_file, side, line)`.
fn goto(app: &mut App, side: Side, line: u32) {
    let (s, e) = app.file_range();
    for i in s..e {
        if app.anchor_at(i) == Some((app.current_file, side, line)) {
            app.selected = i;
            return;
        }
    }
    panic!("no selectable row for {side:?} line {line}");
}

/// Build an app with one new-side thread (two messages) anchored to `line`,
/// rendered inline.
fn app_with_thread(line: u32) -> (App, String, String) {
    let cs = parse_report(DIFF).0;
    let mut store = CommentStore::default();
    let tid = store.add_thread(
        "f.rs".into(),
        Side::New,
        LineRange {
            start: line,
            end: line,
        },
        Some("a".into()),
        "root message".into(),
    );
    store.reply(&tid, Some("b".into()), "a reply".into());
    let reply_id = store.threads[0].comments[1].id.clone();
    let mut app = App::with_comments(cs, store);
    app.height = 40; // tall enough to hold the whole thread
    app.wrap = false;
    (app, tid, reply_id)
}

/// Open a new-thread composer anchored on a known diff line.
fn open_composer(app: &mut App) {
    goto(app, Side::New, 3);
    app.open_new_thread();
    assert!(app.composer.is_some(), "composer should be open");
}

/// The current composer text (no caret), for assertions.
fn composer_text(app: &App) -> String {
    app.composer.as_ref().unwrap().text()
}

#[test]
fn composer_composer_supports_readline_cursor_editing() {
    let mut app = app_with(DIFF);
    open_composer(&mut app);
    // Type "ac", move left (←), insert "b" between them — cursor editing.
    app.on_key_compose(KeyCode::Char('a'), NONE);
    app.on_key_compose(KeyCode::Char('c'), NONE);
    app.on_key_compose(KeyCode::Left, NONE);
    app.on_key_compose(KeyCode::Char('b'), NONE);
    assert_eq!(composer_text(&app), "abc");

    // Ctrl+A jumps to line start; typed text lands there.
    app.on_key_compose(KeyCode::Char('a'), CONTROL);
    app.on_key_compose(KeyCode::Char('X'), NONE);
    assert_eq!(composer_text(&app), "Xabc");

    // Ctrl+E jumps to line end.
    app.on_key_compose(KeyCode::Char('e'), CONTROL);
    app.on_key_compose(KeyCode::Char('Z'), NONE);
    assert_eq!(composer_text(&app), "XabcZ");
}

#[test]
fn composer_cursor_move_rebuilds_the_rendered_composer() {
    // Regression: a cursor-only key (←) doesn't change the text, so
    // TextArea::input returns false. The row stream must still be rebuilt,
    // or the drawn caret would stay put while the real cursor moved.
    let mut app = app_with(DIFF);
    app.toggle_view(); // Split -> Unified, so the caret rides a `Row`
    open_composer(&mut app);
    // Tests never draw, so `comment_wrap` would be 0 and wrap each glyph
    // onto its own line; give the body a real width so it stays one line.
    app.comment_wrap = 40;
    app.on_key_compose(KeyCode::Char('a'), NONE);
    app.on_key_compose(KeyCode::Char('b'), NONE);
    app.on_key_compose(KeyCode::Left, NONE);
    let body = app
        .rows
        .iter()
        .find_map(|r| match &r.kind {
            RowKind::Composer(ComposerLine {
                kind: ComposerKind::Body(s),
            }) if s.contains(COMPOSER_CARET) => Some(s.clone()),
            _ => None,
        })
        .expect("a composer body row carrying the caret");
    assert_eq!(
        body,
        format!("a{COMPOSER_CARET}b"),
        "the caret marker must follow the cursor"
    );
}

#[test]
fn composer_composer_caret_renders_at_the_cursor() {
    let mut app = app_with(DIFF);
    open_composer(&mut app);
    app.on_key_compose(KeyCode::Char('a'), NONE);
    app.on_key_compose(KeyCode::Char('b'), NONE);
    app.on_key_compose(KeyCode::Char('a'), CONTROL); // to start
    let spec = app.composer_spec().expect("composer spec");
    assert_eq!(
        spec.body,
        format!("{COMPOSER_CARET}ab"),
        "caret renders at the cursor, not the end"
    );
}

#[test]
fn composer_body_overlay_fills_exactly_the_inner_width() {
    // Regression: the caret-overlay path must honor the same width contract
    // as `fit` — a body longer than the box is truncated, never overflowed.
    let app = app_with(DIFF);
    let width = 12; // inner_w = width - margin(2) - borders(2) = 8
    let cl = ComposerLine {
        kind: ComposerKind::Body(format!("{COMPOSER_CARET}abcdefghijklmnopqrstuvwxyz")),
    };
    let line = app.composer_line_to_line(&cl, width);
    let total: usize = line.spans.iter().map(|s| str_width(&s.text)).sum();
    assert_eq!(
        total, width,
        "composer body line must fill exactly the row width, even when truncated"
    );
}

#[test]
fn composer_ctrl_d_deletes_forward_and_does_not_cancel() {
    // Ctrl+D is readline delete-forward now, not a cancel chord.
    let mut app = app_with(DIFF);
    open_composer(&mut app);
    app.on_key_compose(KeyCode::Char('a'), NONE);
    app.on_key_compose(KeyCode::Char('b'), NONE);
    app.on_key_compose(KeyCode::Char('a'), CONTROL); // to start
    app.on_key_compose(KeyCode::Char('d'), CONTROL); // delete 'a'
    assert!(app.composer.is_some(), "Ctrl+D must not cancel");
    assert_eq!(composer_text(&app), "b");
}

#[test]
fn composer_composer_keeps_caret_visible_when_taller_than_viewport() {
    // Regression: typing a long comment scrolled the box's *top* into view
    // and pushed the caret (its bottom body line) off-screen below. The
    // viewport must follow the caret instead.
    let mut app = app_with(DIFF);
    app.height = 6; // viewport far shorter than the box
    app.toggle_view(); // default Split -> Unified (refreshes file span)
    assert!(matches!(app.view, ViewMode::Unified));
    open_composer(&mut app);
    for _ in 0..200 {
        app.on_key_compose(KeyCode::Enter, NONE);
    }
    app.on_key_compose(KeyCode::Char('x'), NONE);
    app.ensure_composer_visible();

    let (s, e) = app.file_range();
    // The caret rides the last composer Body row.
    let caret = (s..e)
        .rev()
        .find(|&i| {
            matches!(
                app.rows.get(i).map(|r| &r.kind),
                Some(RowKind::Composer(ComposerLine {
                    kind: ComposerKind::Body(_)
                }))
            )
        })
        .expect("composer body row");
    assert!(
        caret >= app.scroll && caret < app.scroll + app.height,
        "caret row {caret} must stay within view [{}, {})",
        app.scroll,
        app.scroll + app.height
    );
}

#[test]
fn composer_composer_caret_visible_on_a_tiny_viewport() {
    // The caret sits on the last Body row, with Hint+Bottom chrome below it.
    // Anchoring to the box's bottom border (height < 3) would leave the
    // caret off-screen, so the scroll must follow the body row instead.
    let mut app = app_with(DIFF);
    app.height = 2;
    app.toggle_view(); // default Split -> Unified
    open_composer(&mut app);
    for _ in 0..50 {
        app.on_key_compose(KeyCode::Enter, NONE);
    }
    app.on_key_compose(KeyCode::Char('x'), NONE);
    app.ensure_composer_visible();

    let (s, e) = app.file_range();
    let caret = (s..e)
        .find(|&i| app.is_composer_caret_at(i))
        .expect("composer caret row");
    assert!(
        caret >= app.scroll && caret < app.scroll + app.height,
        "caret row {caret} must stay within view [{}, {}) on a tiny viewport",
        app.scroll,
        app.scroll + app.height
    );
}

#[test]
fn composer_ensure_composer_visible_follows_caret_upward() {
    // Regression: scrolling anchored to the *last* body row, so with the
    // cursor moved up in a box taller than the viewport, a bottom-anchored
    // scroll left the caret off-screen above. The pass must pull the
    // viewport up to the caret row.
    let mut app = app_with(DIFF);
    app.height = 4;
    app.toggle_view(); // Split -> Unified
    open_composer(&mut app);
    app.comment_wrap = 40;
    for _ in 0..40 {
        app.on_key_compose(KeyCode::Enter, NONE);
    }
    app.on_key_compose(KeyCode::Char('x'), NONE);
    // Cursor to the top of the buffer, then force the viewport to the
    // bottom (as if we'd just been typing at the end) and re-run the pass.
    for _ in 0..45 {
        app.on_key_compose(KeyCode::Up, NONE);
    }
    let (_, e) = app.file_range();
    app.scroll = e.saturating_sub(app.height); // bottom-anchored
    app.ensure_composer_visible();

    let (s, e) = app.file_range();
    let caret = (s..e)
        .find(|&i| app.is_composer_caret_at(i))
        .expect("composer caret row");
    assert!(
        caret >= app.scroll && caret < app.scroll + app.height,
        "caret row {caret} must stay within view [{}, {}) when the cursor is up",
        app.scroll,
        app.scroll + app.height
    );
}

#[test]
fn composer_bare_enter_inserts_a_newline_in_the_composer() {
    let mut app = app_with(DIFF);
    open_composer(&mut app);
    app.on_key_compose(KeyCode::Char('a'), NONE);
    app.on_key_compose(KeyCode::Enter, NONE);
    app.on_key_compose(KeyCode::Char('b'), NONE);
    // A bare Enter must NOT submit — the composer stays open with a newline.
    assert!(app.composer.is_some(), "bare Enter should not submit");
    assert_eq!(
        app.composer.as_ref().unwrap().text(),
        "a\nb"
    );
}

#[test]
fn composer_ctrl_enter_submits_the_composer() {
    let (mut app, _tid, _reply) = app_with_thread(3);
    let before = app.comments.threads.len();
    goto(&mut app, Side::New, 1);
    app.open_new_thread();
    app.on_key_compose(KeyCode::Char('h'), NONE);
    app.on_key_compose(KeyCode::Char('i'), NONE);
    app.on_key_compose(KeyCode::Enter, CONTROL);
    // Ctrl+Enter submits: composer closes and a new thread is recorded.
    assert!(app.composer.is_none(), "Ctrl+Enter should submit");
    assert_eq!(app.comments.threads.len(), before + 1);
}

#[test]
fn composer_ctrl_s_submits_the_composer() {
    // The protocol-free primary submit: a C0 control byte that survives
    // tmux/SSH even when the kitty keyboard protocol (and thus Ctrl+Enter)
    // is not forwarded.
    let (mut app, _tid, _reply) = app_with_thread(3);
    let before = app.comments.threads.len();
    goto(&mut app, Side::New, 1);
    app.open_new_thread();
    app.on_key_compose(KeyCode::Char('h'), NONE);
    app.on_key_compose(KeyCode::Char('i'), NONE);
    app.on_key_compose(KeyCode::Char('s'), CONTROL);
    assert!(app.composer.is_none(), "Ctrl+S should submit");
    assert_eq!(app.comments.threads.len(), before + 1);
}

#[test]
fn composer_shift_enter_does_not_submit_the_composer() {
    // Regression: Shift+Enter is indistinguishable from a bare Enter under
    // the DISAMBIGUATE_ESCAPE_CODES protocol, so it must behave like one
    // (insert a newline) rather than submit.
    let mut app = app_with(DIFF);
    open_composer(&mut app);
    app.on_key_compose(KeyCode::Char('x'), NONE);
    app.on_key_compose(KeyCode::Enter, SHIFT);
    assert!(app.composer.is_some(), "Shift+Enter must not submit");
    assert_eq!(
        app.composer.as_ref().unwrap().text(),
        "x\n"
    );
}

/// Type `text`, a line break as Enter.
fn type_text(app: &mut App, text: &str) {
    for c in text.chars() {
        let code = if c == '\n' { KeyCode::Enter } else { KeyCode::Char(c) };
        app.on_key_compose(code, NONE);
    }
}

/// The composer's text with the caret in it.
fn body_with_caret(app: &App) -> String {
    app.composer_spec().expect("composer spec").body
}

#[test]
fn composer_kills_to_either_end_of_the_line() {
    let mut app = app_with(DIFF);
    open_composer(&mut app);
    type_text(&mut app, "one\nleft right");
    for _ in 0..5 {
        app.on_key_compose(KeyCode::Left, NONE);
    }
    app.on_key_compose(KeyCode::Char('u'), CONTROL);
    assert_eq!(body_with_caret(&app), format!("one\n{COMPOSER_CARET}right"));
    app.on_key_compose(KeyCode::Right, NONE);
    app.on_key_compose(KeyCode::Char('k'), CONTROL);
    assert_eq!(body_with_caret(&app), format!("one\nr{COMPOSER_CARET}"));
    // At an end of the line the line break goes.
    app.on_key_compose(KeyCode::Char('u'), CONTROL);
    app.on_key_compose(KeyCode::Char('u'), CONTROL);
    assert_eq!(body_with_caret(&app), format!("one{COMPOSER_CARET}"));
    type_text(&mut app, "\ntwo");
    app.on_key_compose(KeyCode::Up, NONE);
    app.on_key_compose(KeyCode::Char('k'), CONTROL);
    assert_eq!(body_with_caret(&app), format!("one{COMPOSER_CARET}two"));
}

#[test]
fn composer_undoes_and_redoes() {
    let mut app = app_with(DIFF);
    open_composer(&mut app);
    type_text(&mut app, "kept");
    app.on_key_compose(KeyCode::Char('u'), CONTROL);
    assert_eq!(composer_text(&app), "");
    // Terminals report Ctrl-_ in one of these ways.
    for c in ['_', '/', '7'] {
        app.on_key_compose(KeyCode::Char(c), CONTROL);
        assert_eq!(composer_text(&app), "kept");
        app.on_key_compose(KeyCode::Char('r'), CONTROL);
        assert_eq!(composer_text(&app), "");
    }
}

#[test]
fn composer_rubs_out_what_was_typed() {
    let mut app = app_with(DIFF);
    open_composer(&mut app);
    type_text(&mut app, "ab\ncd");
    app.on_key_compose(KeyCode::Left, NONE);
    let before = body_with_caret(&app);
    for code in [KeyCode::Char('x'), KeyCode::Char('日'), KeyCode::Enter] {
        app.on_key_compose(code, NONE);
        assert!(body_with_caret(&app) != before);
        app.on_key_compose(KeyCode::Backspace, NONE);
        assert_eq!(body_with_caret(&app), before);
    }
    // Delete and Backspace join lines.
    app.on_key_compose(KeyCode::Home, NONE);
    app.on_key_compose(KeyCode::Backspace, NONE);
    assert_eq!(body_with_caret(&app), format!("ab{COMPOSER_CARET}cd"));
    app.on_key_compose(KeyCode::Enter, NONE);
    app.on_key_compose(KeyCode::Left, NONE);
    app.on_key_compose(KeyCode::Delete, NONE);
    assert_eq!(body_with_caret(&app), format!("ab{COMPOSER_CARET}cd"));
    app.on_key_compose(KeyCode::Delete, NONE);
    assert_eq!(body_with_caret(&app), format!("ab{COMPOSER_CARET}d"));
}

#[test]
fn composer_cursor_keys_cross_lines() {
    let mut app = app_with(DIFF);
    open_composer(&mut app);
    type_text(&mut app, "a\nlong");
    app.on_key_compose(KeyCode::Up, NONE);
    assert_eq!(body_with_caret(&app), format!("a{COMPOSER_CARET}\nlong"));
    app.on_key_compose(KeyCode::Right, NONE);
    assert_eq!(body_with_caret(&app), format!("a\n{COMPOSER_CARET}long"));
    app.on_key_compose(KeyCode::Char('b'), CONTROL);
    assert_eq!(body_with_caret(&app), format!("a{COMPOSER_CARET}\nlong"));
    app.on_key_compose(KeyCode::Char('n'), CONTROL);
    assert_eq!(body_with_caret(&app), format!("a\nl{COMPOSER_CARET}ong"));
    app.on_key_compose(KeyCode::Char('p'), CONTROL);
    app.on_key_compose(KeyCode::Char('f'), CONTROL);
    assert_eq!(body_with_caret(&app), format!("a\n{COMPOSER_CARET}long"));
}

#[test]
fn composer_moves_by_words() {
    let mut app = app_with(DIFF);
    open_composer(&mut app);
    type_text(&mut app, "one, two  three");
    let texts = ["one, two  |three", "one, |two  three", "one|, two  three", "|one, two  three"];
    for text in texts {
        app.on_key_compose(KeyCode::Char('b'), ALT);
        assert_eq!(body_with_caret(&app), text.replace('|', &COMPOSER_CARET.to_string()));
    }
    app.on_key_compose(KeyCode::Char('b'), ALT);
    let texts = ["one|, two  three", "one, |two  three", "one, two  |three", "one, two  three|"];
    for text in texts {
        app.on_key_compose(KeyCode::Char('f'), ALT);
        assert_eq!(body_with_caret(&app), text.replace('|', &COMPOSER_CARET.to_string()));
    }
    // Words do not reach over the ends of lines.
    type_text(&mut app, "\nfour");
    app.on_key_compose(KeyCode::Left, CONTROL);
    app.on_key_compose(KeyCode::Left, CONTROL);
    assert_eq!(body_with_caret(&app), format!("one, two  three{COMPOSER_CARET}\nfour"));
    app.on_key_compose(KeyCode::Right, CONTROL);
    assert_eq!(body_with_caret(&app), format!("one, two  three\n{COMPOSER_CARET}four"));
}

#[test]
fn composer_deletes_words() {
    let mut app = app_with(DIFF);
    open_composer(&mut app);
    type_text(&mut app, "one, two  three");
    for text in ["one, two  |", "one, |", "one|", "|"] {
        app.on_key_compose(KeyCode::Char('w'), CONTROL);
        assert_eq!(body_with_caret(&app), text.replace('|', &COMPOSER_CARET.to_string()));
    }
    type_text(&mut app, "a\n  ");
    app.on_key_compose(KeyCode::Char('w'), CONTROL);
    assert_eq!(body_with_caret(&app), format!("a\n{COMPOSER_CARET}"));
    app.on_key_compose(KeyCode::Backspace, ALT);
    assert_eq!(body_with_caret(&app), format!("a{COMPOSER_CARET}"));
    type_text(&mut app, "b, two\nx");
    app.on_key_compose(KeyCode::Char('<'), ALT);
    app.on_key_compose(KeyCode::Home, NONE);
    for text in ["|, two\nx", "| two\nx", "|\nx", "|x", "|"] {
        app.on_key_compose(KeyCode::Char('d'), ALT);
        assert_eq!(body_with_caret(&app), text.replace('|', &COMPOSER_CARET.to_string()));
    }
}

#[test]
fn composer_goes_to_the_ends() {
    let mut app = app_with(DIFF);
    open_composer(&mut app);
    type_text(&mut app, "long\nab");
    app.on_key_compose(KeyCode::Char('<'), ALT);
    assert_eq!(body_with_caret(&app), format!("lo{COMPOSER_CARET}ng\nab"));
    app.on_key_compose(KeyCode::End, NONE);
    app.on_key_compose(KeyCode::Char('>'), ALT);
    assert_eq!(body_with_caret(&app), format!("long\nab{COMPOSER_CARET}"));
    app.on_key_compose(KeyCode::Home, NONE);
    assert_eq!(body_with_caret(&app), format!("long\n{COMPOSER_CARET}ab"));
    app.on_key_compose(KeyCode::Char('m'), CONTROL);
    assert_eq!(body_with_caret(&app), format!("long\n\n{COMPOSER_CARET}ab"));
}

#[test]
fn composer_takes_back_what_was_put_in() {
    let mut app = app_with(DIFF);
    open_composer(&mut app);
    // Nothing to take back.
    app.on_key_compose(KeyCode::Char('_'), CONTROL);
    assert_eq!(composer_text(&app), "");
    type_text(&mut app, "ab\ncd");
    app.on_key_compose(KeyCode::Left, NONE);
    for step in 0..5 {
        let before = body_with_caret(&app);
        match step {
            0 => app.on_key_compose(KeyCode::Char('x'), NONE),
            1 => app.on_key_compose(KeyCode::Enter, NONE),
            2 => app.on_key_compose(KeyCode::Char('日'), SHIFT),
            3 => app.on_paste("pasted".into()),
            _ => app.on_paste("p\r\nq\rr\n".into()),
        }
        let after = body_with_caret(&app);
        assert_ne!(before, after);
        app.on_key_compose(KeyCode::Char('_'), CONTROL);
        assert_eq!(body_with_caret(&app), before);
        app.on_key_compose(KeyCode::Char('r'), CONTROL);
        assert_eq!(body_with_caret(&app), after);
        // Building the rows anew leaves the history alone.
        app.rebuild_rows();
        app.on_key_compose(KeyCode::Char('_'), CONTROL);
        assert_eq!(body_with_caret(&app), before);
    }
}

#[test]
fn composer_replaces_a_selection() {
    let mut app = app_with(DIFF);
    open_composer(&mut app);
    type_text(&mut app, "abcd");
    app.on_key_compose(KeyCode::Left, SHIFT);
    app.on_key_compose(KeyCode::Left, SHIFT);
    app.on_paste("X\nY".into());
    assert_eq!(body_with_caret(&app), format!("abX\nY{COMPOSER_CARET}"));
    app.on_key_compose(KeyCode::Left, SHIFT);
    app.on_key_compose(KeyCode::Char('z'), NONE);
    assert_eq!(body_with_caret(&app), format!("abX\nz{COMPOSER_CARET}"));
    // What was killed can be yanked.
    app.on_key_compose(KeyCode::Char('w'), CONTROL);
    app.on_key_compose(KeyCode::Char('y'), CONTROL);
    app.on_key_compose(KeyCode::Char('y'), CONTROL);
    assert_eq!(body_with_caret(&app), format!("abX\nzz{COMPOSER_CARET}"));
}

fn is_uuid(id: &str) -> bool {
    id.len() == 36
        && id.chars().enumerate().all(|(i, c)| match i {
            8 | 13 | 18 | 23 => c == '-',
            _ => c.is_ascii_hexdigit() && !c.is_ascii_uppercase(),
        })
}

#[test]
fn submitted_comments_have_ids_of_their_own() {
    let mut app = app_with(DIFF);
    for by_button in [false, true] {
        open_composer(&mut app);
        type_text(&mut app, "hi");
        if by_button {
            app.dispatch_button(ButtonAction::Submit);
        } else {
            app.on_key(KeyCode::Char('s'), CONTROL);
        }
    }
    let ids: Vec<&str> = app
        .comments
        .threads
        .iter()
        .flat_map(|t| [t.id.as_str(), t.comments[0].id.as_str()])
        .collect();
    assert_eq!(ids.len(), 4);
    for (i, id) in ids.iter().enumerate() {
        assert!(is_uuid(id), "{id}");
        assert!(!ids[..i].contains(id));
    }
}
