//! Soft wrap.
use hew::comments::model::CommentStore;
use hew::diff::parse::parse_report;
use hew::ui::app::{App, ViewMode};
use hew::ui::app::input::{Mouse, MouseKind, Thumbs};
use hew::ui::app::wrap::{split_side_w, wrap_count, wrap_runs};
use hew::ui::highlight::Run;
use hew::ui::highlight_cache::HighlightCache;
use hew::ui::style::{Color, Rect};

// A single addition with a long code body, so wrapping it produces several
// display lines while the row count stays tiny.
const LONG_DIFF: &str = "\
--- a/f.rs
+++ b/f.rs
@@ -1,2 +1,3 @@
 a
+let total = alpha + beta + gamma + delta + epsilon + zeta + eta + theta + iota;
 f
";

const LONG_PATCH: &str = "\
diff --git a/src/lexer.rs b/src/lexer.rs
index 1111111..2222222 100644
--- a/src/lexer.rs
+++ b/src/lexer.rs
@@ -1,6 +1,12 @@ impl Lexer
 pub struct Lexer<'a> { input: &'a str, pos: usize, line: usize, column: usize, peeked: Option<Token> }
-    fn next(&mut self) -> Token { self.pos += 1; self.input.chars().nth(self.pos).map(Token::Char).unwrap_or(Token::End) }
+    /// The next token, and the place behind it: a newline starts a line, and anything else is one column further.
+    fn next(&mut self) -> Token {
+        let c = self.input[self.pos..].chars().next();
+        self.pos += c.map_or(0, char::len_utf8);	// a tab	and another
+        match c { Some('\\n') => { self.line += 1; self.column = 0; } Some(_) => self.column += 1, None => {} }
+        c.map_or(Token::End, Token::Char)
+    }
 
     // 日本語のコメント: 全角文字は二桁の幅を取るので、折り返しの位置に注意すること。
     fn peek(&mut self) -> &Token { if self.peeked.is_none() { self.peeked = Some(self.next()); } self.peeked.as_ref().unwrap() }
 }
@@ -40,3 +46,3 @@
 mod tests {
-    // short
+    // a line that is just as long as it has to be to go over the edge of a pane of two hundred columns, which takes quite a few words to fill, one after the other, until the end comes into sight and then passes by
 }
diff --git a/src/main.rs b/src/main.rs
index 3333333..4444444 100644
--- a/src/main.rs
+++ b/src/main.rs
@@ -1,2 +1,3 @@
 fn main() {
+    println!(\"{:?}\", Lexer { input: \"a b c\", pos: 0, line: 0, column: 0, peeked: None }.next());
 }
";

fn app_with(diff: &str) -> App {
    let cs = parse_report(diff).0;
    let mut app = App::with_comments(cs, CommentStore::default());
    app.height = 4; // deterministic viewport for scroll math
    // Pin the 1:1 geometry for tests that assert exact row/line positions;
    // the wrap-specific tests opt back in explicitly.
    app.wrap = false;
    app
}

/// Draw a frame of the given size (button hit rects are recorded during the draw).
fn render(app: &mut App, w: u16, h: u16) {
    let mut hl = HighlightCache::new(&app.changeset, true, Color::Gray);
    app.draw(&mut hl, Rect { x: 0, y: 0, width: w, height: h });
}

/// Draw a frame of the given size, with a cache that is kept from frame to frame.
fn render_with(app: &mut App, hl: &mut HighlightCache, w: u16, h: u16) {
    app.draw(hl, Rect { x: 0, y: 0, width: w, height: h });
}

fn click(app: &mut App, r: Rect) {
    app.on_mouse(
        Mouse { kind: MouseKind::Down, column: r.x, row: r.y },
        Thumbs { diff: 0, sidebar: 0 },
    );
}

#[test]
fn wrap_count_matches_wrap_runs_for_any_run_split() {
    // The height oracle (`wrap_count`) must agree with the renderer
    // (`wrap_runs`) regardless of how the text is partitioned into colored
    // runs — wrapping breaks only on cumulative display width.
    let red = Color::Red;
    let blue = Color::Blue;
    let long = "x".repeat(50);
    let cases = [
        "",
        "abc",
        "hello world this is a longer sentence to wrap",
        "日本語のテキストを折り返す", // wide glyphs
        "a日b本c語d",
        long.as_str(),
    ];
    for text in cases {
        for budget in [1usize, 2, 3, 4, 7, 10, 13, 80] {
            // Split `text` into two runs at every byte boundary that lands
            // on a char boundary, to exercise run-independence.
            let mut splits = vec![0usize, text.len()];
            for (i, _) in text.char_indices() {
                splits.push(i);
            }
            for &cut in &splits {
                if !text.is_char_boundary(cut) {
                    continue;
                }
                let runs = vec![
                    Run { color: red, text: text[..cut].to_string() },
                    Run { color: blue, text: text[cut..].to_string() },
                ];
                let got = wrap_runs(&runs, budget, None).len();
                assert_eq!(
                    got,
                    wrap_count(text, budget),
                    "text={text:?} budget={budget} cut={cut}"
                );
            }
        }
    }
}

#[test]
fn wrap_off_keeps_one_display_line_per_row() {
    // Regression guard: with wrap off the geometry is the original 1:1
    // model (every row is height 1), so display-line math == row count.
    let mut app = app_with(LONG_DIFF);
    app.view = ViewMode::Unified;
    app.rebuild_file_spans();
    app.recompute_file_span();
    render(&mut app, 40, 20);
    assert!(!app.wrap);
    let (s, e) = app.file_range();
    assert_eq!(app.display_lines(s, e), e - s);
    assert!((s..e).all(|i| app.row_h(i) == 1));
}

#[test]
fn long_line_wraps_into_several_display_lines() {
    let mut app = app_with(LONG_DIFF);
    app.view = ViewMode::Unified;
    app.rebuild_file_spans();
    app.recompute_file_span();
    app.toggle_wrap();
    assert!(app.wrap);
    // A narrow viewport forces the long addition to wrap.
    render(&mut app, 40, 20);
    let (s, e) = app.file_range();
    // The long addition is the only row that should exceed one line.
    let tall = (s..e).filter(|&i| app.row_h(i) > 1).count();
    assert_eq!(tall, 1, "exactly the long code line wraps");
    assert!(
        app.display_lines(s, e) > e - s,
        "wrapping adds display lines over the row count"
    );
}

#[test]
fn click_below_a_wrapped_line_maps_to_the_next_row() {
    let mut app = app_with(LONG_DIFF);
    app.view = ViewMode::Unified;
    app.rebuild_file_spans();
    app.recompute_file_span();
    app.toggle_wrap();
    render(&mut app, 40, 20);
    let (s, e) = app.file_range();
    // Find the wrapped (tall) code row and the next selectable row.
    let tall = (s..e).find(|&i| app.row_h(i) > 1).expect("a wrapped row");
    let next = (tall + 1..e)
        .find(|&i| app.is_selectable_at(i))
        .expect("a row after the wrapped one");
    app.scroll = s;
    // The wrapped row occupies `row_h(tall)` display lines starting at the
    // top of the viewport; clicking just past them must land on `next`,
    // not on the wrapped row's last visual line.
    let mut off = 0usize;
    for i in s..tall {
        off += app.row_h(i);
    }
    off += app.row_h(tall); // first display line of `next`
    let area = app.diff_area;
    let row = area.y + off as u16;
    click(
        &mut app,
        Rect {
            x: area.x + 8,
            y: row,
            width: 1,
            height: 1,
        },
    );
    assert_eq!(app.selected, next, "click maps through the wrapped row");
}

#[test]
fn wrapping_a_real_patch_keeps_heights_and_render_in_sync() {
    // row_h must equal the lines actually produced, over a real, highlighted
    // patch in both views at a range of widths — the tightest guard against
    // oracle/renderer drift.
    let cs = parse_report(LONG_PATCH).0;
    let mut app = App::with_comments(cs, CommentStore::default());
    app.wrap = true;
    app.geom.dirty = true;
    let mut hl = HighlightCache::new(&app.changeset, true, Color::Gray);
    for view in [ViewMode::Unified, ViewMode::Split] {
        if app.view != view {
            app.toggle_view();
        }
        for w in [50u16, 80, 120, 200] {
            render_with(&mut app, &mut hl, w, 30);
            // Scroll through the whole file so every row is rendered.
            for _ in 0..40 {
                app.move_by(true, app.height.max(1));
                render_with(&mut app, &mut hl, w, 30);
            }
            for i in 0..app.active_len() {
                let width = app.diff_area.width as usize;
                let lines = match view {
                    ViewMode::Unified => {
                        app.row_to_lines(&mut hl, &app.rows[i], false, width).len()
                    }
                    ViewMode::Split => {
                        let side = split_side_w(width);
                        app.split_row_to_lines(&mut hl, &app.split_rows[i], false, side).len()
                    }
                };
                assert_eq!(lines, app.row_h(i), "row {i} at width {w}");
            }
        }
    }
}

#[test]
fn display_lines_prefix_sum_matches_a_direct_walk() {
    // The O(1) prefix-sum query must equal the naive per-row sum it
    // replaces, for every sub-range of the file.
    let mut app = app_with(LONG_DIFF);
    app.view = ViewMode::Unified;
    app.rebuild_file_spans();
    app.recompute_file_span();
    app.toggle_wrap();
    render(&mut app, 40, 20);
    let (s, e) = app.file_range();
    assert_eq!(app.geom.offsets.len(), app.active_len() + 1);
    for a in s..=e {
        for b in a..=e {
            let walk: usize = (a..b).map(|i| app.row_h(i)).sum();
            assert_eq!(app.display_lines(a, b), walk, "range {a}..{b}");
        }
    }
}

#[test]
fn widening_reclamps_scroll_off_the_end() {
    // Regression: after a resize that shrinks wrap heights, a scroll value
    // valid for the narrow geometry must be clamped so the viewport never
    // paints empty space past EOF.
    let mut app = app_with(LONG_DIFF);
    app.view = ViewMode::Unified;
    app.rebuild_file_spans();
    app.recompute_file_span();
    app.toggle_wrap();
    // Narrow + short viewport so the long line wraps and content overflows;
    // scroll to the bottom.
    render(&mut app, 30, 4);
    app.scroll_view(100);
    render(&mut app, 30, 4);
    // Now widen a lot: the long line no longer wraps, so far less content.
    render(&mut app, 400, 4);
    let (s, e) = app.file_range();
    assert!(
        app.scroll <= app.max_scroll_row(s, e, app.height.max(1)),
        "scroll {} must be clamped to max {}",
        app.scroll,
        app.max_scroll_row(s, e, app.height.max(1))
    );
}

#[test]
fn toggling_wrap_recomputes_heights_and_holds_the_cursor() {
    let mut app = app_with(LONG_DIFF);
    app.view = ViewMode::Unified;
    app.rebuild_file_spans();
    app.recompute_file_span();
    render(&mut app, 40, 6);
    let before = app.selected;
    app.toggle_wrap();
    render(&mut app, 40, 6);
    // Heights now reflect wrapping, and the cursor stayed put and in view.
    assert!(!app.geom.heights.is_empty());
    assert_eq!(app.selected, before);
    let (s, _) = app.file_range();
    assert!(app.scroll >= s);
}
