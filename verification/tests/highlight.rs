//! Highlighting and its cache.
use hew::diff::model::{Changeset, DiffFile, DiffLine, Hunk, LineKind};
use hew::ui::highlight::{Highlighter, Syntax, Token, colored_runs};
use hew::ui::highlight_cache::{HighlightCache, KEEP_FILES, highlight_line, prefetch_order};
use hew::ui::style::Color;
use hew::ui::theme::resolve;
use hew::ui::warm::{Plan, Step};

fn file_with(lines: &[&str]) -> DiffFile {
    DiffFile {
        old_path: "a.rs".into(),
        new_path: "a.rs".into(),
        is_binary: false,
        hunks: vec![Hunk {
            old_start: 1,
            old_count: lines.len() as u32,
            new_start: 1,
            new_count: lines.len() as u32,
            section: None,
            lines: lines
                .iter()
                .map(|t| DiffLine {
                    kind: LineKind::Context,
                    old_line: Some(1),
                    new_line: Some(1),
                    text: (*t).to_string(),
                })
                .collect(),
        }],
    }
}

fn cs(n_files: usize) -> Changeset {
    Changeset {
        files: (0..n_files).map(|_| file_with(&["let x = 1;"])).collect(),
    }
}

#[test]
fn runs_are_cached_and_stable() {
    let mut hc = HighlightCache::new(&cs(1), true, Color::Gray);
    let a = hc.runs(0, "let x = 1;");
    let b = hc.runs(0, "let x = 1;");
    // The second call gives the same runs from the cache.
    assert_eq!(hc.cached_len(), 1);
    assert_eq!(a.len(), b.len());
    assert!(a.iter().zip(&b).all(|(x, y)| x.color == y.color && x.text == y.text));
    assert!(!a.is_empty());
}

#[test]
fn missing_file_falls_back_to_plain() {
    let mut hc = HighlightCache::new(&cs(1), true, Color::Gray);
    let runs = hc.runs(99, "anything");
    assert_eq!(runs.len(), 1);
    assert_eq!(runs[0].text, "anything");
}

#[test]
fn prefetch_order_is_focus_then_outward_neighbors() {
    // Interior file: focus first, then +1, -1, +2, -2 within bounds.
    assert_eq!(prefetch_order(5, 10), vec![5, 6, 4, 7, 3]);
    // Clamped at the edges: out-of-range neighbors are dropped.
    assert_eq!(prefetch_order(0, 10), vec![0, 1, 2]);
    assert_eq!(prefetch_order(9, 10), vec![9, 8, 7]);
    // Out-of-range focus yields nothing.
    assert!(prefetch_order(9, 0).is_empty());
}

#[test]
fn cache_is_bounded_by_prefetch_window() {
    let mut hc = HighlightCache::new(&cs(10), true, Color::Gray);
    // Populate + mark many files as viewed; only KEEP_FILES survive.
    for fi in 0..10 {
        hc.runs(fi, "let x = 1;");
        hc.warm(fi);
    }
    let len = hc.cached_len();
    assert!(len <= KEEP_FILES, "cache should be bounded, got {len}");
}

#[test]
fn default_theme_loads_and_highlights() {
    // Guards the vendored asset: a missing/corrupt tmTheme would panic in
    // `new()`, and a theme that yields no colors would defeat the point.
    let hl = Highlighter::new(true);
    let syntax = hl.syntax_for("main.rs");
    let runs = hl.line(&syntax, "let x = 1;");
    assert!(!runs.is_empty(), "highlighting produced no runs");
    // TokyoNight is a truecolor theme; with truecolor active (the test
    // default) at least one run should carry a real RGB foreground.
    assert!(
        runs.iter().any(|r| matches!(r.color, Color::Rgb(..))),
        "expected an RGB foreground from the TokyoNight theme"
    );
}

#[test]
fn runs_spell_the_line() {
    let hl = Highlighter::new(true);
    for path in ["main.rs", "x.py", "Makefile", "no_extension", "weird.zzz"] {
        let syntax = hl.syntax_for(path);
        for line in ["", "fn main() { 1 + 2 } // 日本", "\tx = \"y\"", "   "] {
            let text: String = hl.line(&syntax, line).iter().map(|r| r.text.clone()).collect();
            assert_eq!(text, line, "{path}");
        }
    }
}

#[test]
fn syntaxes_go_by_extension_and_name() {
    let hl = Highlighter::new(true);
    assert_eq!(hl.syntax_for("a/b/main.rs"), Syntax::Extension("rs".into()));
    assert_eq!(hl.syntax_for("x.py"), Syntax::Extension("py".into()));
    assert_eq!(hl.syntax_for("sub/Makefile"), Syntax::Token("Makefile".into()));
    assert_eq!(hl.syntax_for("weird.zzz"), Syntax::Plain);
    assert_eq!(hl.syntax_for(""), Syntax::Plain);
    // Each of them highlights as its own.
    let plain = hl.line(&Syntax::Plain, "all: fn main()");
    assert_eq!(plain.len(), 1);
    assert!(hl.line(&hl.syntax_for("main.rs"), "all: fn main()").len() > 1);
    assert!(hl.line(&hl.syntax_for("Makefile"), "all: fn main()").len() > 1);
}

#[test]
fn what_the_tokens_leave_of_a_line_is_plain() {
    let token = Token { r: 1, g: 2, b: 3, text: "ab".to_string() };
    let runs = colored_runs(Some(vec![token]), "abcd", true);
    assert_eq!(runs.len(), 2);
    assert_eq!((runs[0].color, runs[0].text.as_str()), (Color::Rgb(1, 2, 3), "ab"));
    assert_eq!((runs[1].color, runs[1].text.as_str()), (Color::Gray, "cd"));
}

#[test]
fn the_palette_comes_from_the_theme() {
    let c = Highlighter::new(true).colors();
    assert!(c.background.is_some() && c.foreground.is_some());
    let scopes = [c.comment, c.keyword, c.string, c.numeric];
    assert!(scopes.iter().all(Option::is_some));
    assert_ne!(c.comment, c.keyword);
    assert_ne!(c.keyword, c.string);
    assert!(c.markup_inserted.is_some() && c.diff_deleted.is_some());
    let base = resolve(&c);
    assert_eq!(Some(base.bg), c.background);
    assert_eq!(Some(base.fg), c.foreground);
}

#[test]
fn a_focus_on_no_file_has_no_window() {
    assert!(prefetch_order(9, 8).is_empty());
    assert!(prefetch_order(8, 8).is_empty());
    assert!(prefetch_order(0, 0).is_empty());
    assert_eq!(prefetch_order(7, 8), vec![7, 6, 5]);
}

fn two_line_files(n: usize) -> Changeset {
    Changeset {
        files: (0..n).map(|i| file_with(&[&format!("a{i}"), &format!("\tb{i}")])).collect(),
    }
}

fn told(step: Step) -> Option<(usize, String)> {
    match step {
        Step::Line { file, text } => Some((file, text)),
        Step::Wait => None,
    }
}

#[test]
fn the_worker_goes_outward_and_then_waits() {
    let mut plan = Plan::new(&two_line_files(5));
    assert_eq!(told(plan.step(&vec![])), None);
    let first = told(plan.step(&vec![4, 0, 1])).unwrap();
    assert_eq!(first, (1, "a1".to_string()));
    let mut files = vec![first.0];
    while let Some((file, text)) = told(plan.step(&vec![])) {
        assert!(!text.contains('\t'));
        files.push(file);
    }
    assert_eq!(files, [1, 1, 2, 2, 0, 0, 3, 3]);
    assert_eq!(told(plan.step(&vec![])), None);
    // What lies in both windows is done already.
    assert_eq!(told(plan.step(&vec![2])), Some((4, "a4".to_string())));
}

#[test]
fn a_newer_request_preempts_the_worker() {
    let mut plan = Plan::new(&two_line_files(9));
    assert_eq!(told(plan.step(&vec![1])).unwrap().0, 1);
    assert_eq!(told(plan.step(&vec![7])), Some((7, "a7".to_string())));
    // File 1 left the window, so it starts over.
    assert_eq!(told(plan.step(&vec![1])), Some((1, "a1".to_string())));
    // There is no such file.
    assert_eq!(told(plan.step(&vec![9])), None);
}

#[test]
fn without_truecolor_runs_are_indexed() {
    let hl = Highlighter::new(false);
    let syntax = hl.syntax_for("main.rs");
    assert!(hl
        .line(&syntax, "let x = 1;")
        .iter()
        .all(|r| matches!(r.color, Color::Indexed(_))));
}

#[test]
fn a_worker_hands_its_lines_over() {
    let mut hc = HighlightCache::new(&cs(2), true, Color::Gray);
    let hl = Highlighter::new(true);
    hc.offer(1, highlight_line(&hl, "a.rs", "let x = 1;"));
    assert_eq!(hc.cached_len(), 0, "nothing was asked for");
    hc.warm(0);
    hc.offer(1, highlight_line(&hl, "a.rs", "let x = 1;"));
    let n = hc.cached_len();
    assert_eq!(n, 1);
    let runs = hc.runs(1, "let x = 1;");
    assert_eq!(hc.cached_len(), n);
    let syntax = hl.syntax_for("a.rs");
    let direct = hl.line(&syntax, "let x = 1;");
    assert_eq!(runs.len(), direct.len());
    assert!(runs.iter().zip(&direct).all(|(x, y)| x.color == y.color && x.text == y.text));
}

#[test]
fn lines_from_outside_the_window_are_not_taken_over() {
    let mut hc = HighlightCache::new(&cs(9), true, Color::Gray);
    let hl = Highlighter::new(true);
    hc.warm(1);
    hc.offer(4, highlight_line(&hl, "a.rs", "let x = 1;"));
    hc.offer(2, highlight_line(&hl, "other.rs", "let x = 1;"));
    assert_eq!(hc.cached_len(), 0);
    hc.offer(3, highlight_line(&hl, "a.rs", "let x = 1;"));
    assert_eq!(hc.cached_len(), 1);
}

#[test]
fn a_line_that_cannot_be_highlighted_is_plain() {
    let runs = colored_runs(None, "abc", true);
    assert_eq!(runs.len(), 1);
    assert_eq!((runs[0].color, runs[0].text.as_str()), (Color::Gray, "abc"));
}
