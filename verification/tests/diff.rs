//! Reading, comparing and walking diffs.
use hew::diff::generate::{LineChange, diff_texts, to_hunk};
use hew::diff::grammar::is_readable;
use hew::diff::model::{Hunk, LineKind};
use hew::diff::parse::{RawHunk, RawPatch, parse_report, try_parse};
use hew::loader::{changeset_of, is_thread_array, nothing_to_read, reads_stdin};
use hew::vcs::git::{Walk, kind_of, path_of, section_of};

#[test]
fn parses_simple_diff() {
    let input = "\
--- a/foo.txt
+++ b/foo.txt
@@ -1,3 +1,3 @@ fn main
 a
-b
+B
 c
";
    let cs = parse_report(input).0;
    assert_eq!(cs.files.len(), 1);
    let f = &cs.files[0];
    assert_eq!(f.display_path(), "foo.txt");
    assert_eq!(f.hunks.len(), 1);
    let h = &f.hunks[0];
    assert_eq!(h.section.as_deref(), Some("fn main"));
    assert_eq!(h.lines.len(), 4);
    assert_eq!(h.lines[1].kind, LineKind::Deletion);
    assert_eq!(h.lines[1].old_line, Some(2));
    assert_eq!(h.lines[2].kind, LineKind::Addition);
    assert_eq!(h.lines[2].new_line, Some(2));
}

#[test]
fn parses_added_file() {
    let input = "\
--- /dev/null
+++ b/new.txt
@@ -0,0 +1,2 @@
+hello
+world
";
    let cs = parse_report(input).0;
    assert_eq!(cs.files.len(), 1);
    assert_eq!(cs.files[0].display_path(), "new.txt");
    assert_eq!(cs.files[0].hunks[0].lines.len(), 2);
}

#[test]
fn empty_input_is_empty() {
    assert!(parse_report("").0.is_empty());
}

#[test]
fn empty_and_nonpatch_input_report_no_error() {
    // A clean `git diff` (no changes) and arbitrary non-patch text must
    // stay silent — no spurious "failed to parse" warning.
    assert!(parse_report("").1.is_none());
    assert!(parse_report("   \n\n").1.is_none());
    assert!(parse_report("hello world\nnot a patch\n").1.is_none());
}

#[test]
fn malformed_patch_reports_error() {
    // Looks like a diff (`---`/`@@`) but the hunk is bogus → surfaced.
    let (cs, err) = parse_report("--- a/x\n+++ b/x\n@@ bogus @@\n+y\n");
    assert!(cs.is_empty());
    assert!(err.is_some(), "malformed patch should report an error");
}

#[test]
fn valid_patch_reports_no_error() {
    let (cs, err) = parse_report("--- a/f\n+++ b/f\n@@ -1 +1 @@\n-a\n+b\n");
    assert_eq!(cs.files.len(), 1);
    assert!(err.is_none());
}

#[test]
fn detects_binary_files_alongside_text() {
    let input = "\
diff --git a/logo.png b/logo.png
index e69de29..d95f3ad 100644
Binary files a/logo.png and b/logo.png differ
diff --git a/src/main.rs b/src/main.rs
--- a/src/main.rs
+++ b/src/main.rs
@@ -1,2 +1,2 @@
-old
+new
 ctx
";
    let cs = parse_report(input).0;
    // One text file (with a hunk) + one binary file (hunk-less).
    assert_eq!(cs.files.len(), 2);
    let bin = cs
        .files
        .iter()
        .find(|f| f.is_binary)
        .expect("binary file detected");
    assert_eq!(bin.display_path(), "logo.png");
    assert!(bin.hunks.is_empty());
    let text = cs.files.iter().find(|f| !f.is_binary).unwrap();
    assert_eq!(text.hunks.len(), 1);
}

#[test]
fn binary_add_and_delete_resolve_paths() {
    let added = parse_report("Binary files /dev/null and b/new.bin differ\n").0;
    assert_eq!(added.files.len(), 1);
    assert_eq!(added.files[0].display_path(), "new.bin");

    let deleted = parse_report("Binary files a/old.bin and /dev/null differ\n").0;
    assert_eq!(deleted.files.len(), 1);
    assert_eq!(deleted.files[0].display_path(), "old.bin");
}

#[test]
fn pure_rename_is_not_dropped() {
    let input = "\
diff --git a/old.txt b/new.txt
similarity index 100%
rename from old.txt
rename to new.txt
";
    let (cs, err) = parse_report(input);
    assert!(err.is_none());
    assert_eq!(cs.files.len(), 1);
    let f = &cs.files[0];
    assert_eq!(f.old_path, "old.txt");
    assert_eq!(f.new_path, "new.txt");
    assert!(f.hunks.is_empty());
    assert!(!f.is_binary);
}

#[test]
fn mode_only_change_is_not_dropped() {
    let input = "\
diff --git a/script.sh b/script.sh
old mode 100644
new mode 100755
";
    let (cs, err) = parse_report(input);
    assert!(err.is_none());
    assert_eq!(cs.files.len(), 1);
    assert_eq!(cs.files[0].display_path(), "script.sh");
    assert!(cs.files[0].hunks.is_empty());
}

#[test]
fn content_rename_is_not_duplicated() {
    let input = "\
diff --git a/old.txt b/new.txt
similarity index 88%
rename from old.txt
rename to new.txt
--- a/old.txt
+++ b/new.txt
@@ -1 +1 @@
-old
+new
";
    let cs = parse_report(input).0;
    assert_eq!(cs.files.len(), 1);
    assert_eq!(cs.files[0].old_path, "old.txt");
    assert_eq!(cs.files[0].new_path, "new.txt");
    assert_eq!(cs.files[0].hunks.len(), 1);
}

#[test]
fn generates_change() {
    let old = "a\nb\nc\n";
    let new = "a\nB\nc\n";
    let f = diff_texts("foo", "foo", old, new, 3);
    assert_eq!(f.hunks.len(), 1);
    let kinds: Vec<_> = f.hunks[0].lines.iter().map(|l| l.kind).collect();
    assert!(kinds.contains(&LineKind::Deletion));
    assert!(kinds.contains(&LineKind::Addition));
}

#[test]
fn identical_has_no_hunks() {
    let f = diff_texts("foo", "foo", "x\ny\n", "x\ny\n", 3);
    assert!(f.hunks.is_empty());
}

#[test]
fn header_numbers_and_line_numbers() {
    let (cs, err) = parse_report("--- a/f\n+++ b/f\n@@ -7,3 +9,3 @@\n x\n-y\n+Y\n z\n");
    assert!(err.is_none());
    let h = &cs.files[0].hunks[0];
    assert_eq!((h.old_start, h.old_count, h.new_start, h.new_count), (7, 3, 9, 3));
    assert_eq!(h.section, None);
    let numbers: Vec<_> = h.lines.iter().map(|l| (l.old_line, l.new_line)).collect();
    assert_eq!(
        numbers,
        vec![(Some(7), Some(9)), (Some(8), None), (None, Some(10)), (Some(9), Some(11))]
    );
    let texts: Vec<_> = h.lines.iter().map(|l| l.text.as_str()).collect();
    assert_eq!(texts, vec!["x", "y", "Y", "z"]);
}

#[test]
fn assembling_what_was_read() {
    let read = vec![RawPatch {
        old: " a/x.rs".to_string(),
        new: "b/y.rs ".to_string(),
        hunks: vec![RawHunk {
            old: (u32::MAX as u64, 1),
            new: ((1u64 << 32) + 5, 2),
            hint: "  fn f  ".to_string(),
            lines: vec![" c".to_string(), "+d".to_string(), "-e".to_string()],
        }],
    }];
    let (cs, err) = hew::diff::parse::assemble(Ok(read), "Binary files a/p and b/q differ");
    assert!(err.is_none());
    assert_eq!(cs.files.len(), 2);
    assert_eq!((cs.files[0].old_path.as_str(), cs.files[0].new_path.as_str()), ("x.rs", "y.rs"));
    let h = &cs.files[0].hunks[0];
    // Numbers are taken modulo 2^32, and the line number behind the last one is 0.
    assert_eq!((h.old_start, h.old_count, h.new_start, h.new_count), (u32::MAX, 1, 5, 2));
    assert_eq!(h.section.as_deref(), Some("fn f"));
    assert_eq!(h.lines[1].new_line, Some(6));
    assert_eq!(h.lines[2].old_line, Some(0));
    assert!(cs.files[1].is_binary);
}

#[test]
fn an_error_is_told_only_of_a_text_that_looks_like_a_diff() {
    let fail = || Err("bad".to_string());
    let (cs, err) = hew::diff::parse::assemble(fail(), "nothing here");
    assert!(cs.is_empty() && err.is_none());
    let (_, err) = hew::diff::parse::assemble(fail(), "x\n@@ -1 +1 @@\n");
    assert_eq!(err.as_deref(), Some("bad"));
    let (_, err) = hew::diff::parse::assemble(fail(), "@@ quoted\n");
    assert!(err.is_none());
    // Something was recovered, so there is nothing to complain of.
    let (cs, err) =
        hew::diff::parse::assemble(fail(), "--- x\nBinary files a/p and b/q differ\n");
    assert_eq!(cs.files.len(), 1);
    assert!(err.is_none());
}

#[test]
fn empty_files_come_from_their_metadata() {
    let cs = parse_report(
        "diff --git a/new.txt b/new.txt\nnew file mode 100644\nindex 0000000..e69de29\n\
         diff --git a/gone.txt b/gone.txt\ndeleted file mode 100644\n\
         diff --git a/one b/two\ncopy from one\ncopy to two\n\
         diff --git nonsense\nnew file mode 100644\n",
    )
    .0;
    let paths: Vec<_> =
        cs.files.iter().map(|f| (f.old_path.as_str(), f.new_path.as_str())).collect();
    assert_eq!(
        paths,
        vec![("/dev/null", "new.txt"), ("gone.txt", "/dev/null"), ("one", "two")]
    );
}

#[test]
fn readable_texts_are_read_as_the_grammar_says() {
    // On these texts the reader must neither panic nor differ from the grammar.
    for (text, ok) in [
        ("", false),
        ("hello\n", false),
        ("--- a/x\n+++ b/x\n@@ bogus @@\n+y\n", false),
        ("--- a/f\n+++ b/f\n@@ -1 +1 @@\n-a\n+b\n", true),
        ("--- a/f\n+++ b/f\n@@ -1,2 +1 @@ hint\n-a\n b\n\\ No newline at end of file\n", true),
        ("--- a/f\t2020-01-01 00:00:00\n+++ b/f\n@@ -1 +1 @@\n-a\n+b\n", true),
        ("--- \"a b\"\n+++ \"c\\td\"\n@@ -0,0 +1 @@\n+x\n", true),
        ("junk\nmore junk\n--- a/f\n+++ b/f\n@@ -1 +1 @@\n-a\n+b\n", true),
        ("--- a/f\r\n+++ b/f\r\n@@ -1 +1 @@\r\n-a\r\n+b\r\n", true),
    ] {
        assert!(is_readable(text), "{text:?}");
        assert_eq!(patch::Patch::from_multiple(text).is_ok(), ok, "{text:?}");
        assert!(try_parse(text).is_some());
        assert!(changeset_of(text).is_some());
    }
}

#[test]
fn texts_on_which_the_reader_would_panic_are_not_readable() {
    // A number that does not fit, and text that is left behind a patch.
    let big = "--- a/f\n+++ b/f\n@@ -99999999999999999999 +1 @@\n-a\n+b\n";
    assert!(!is_readable(big));
    assert!(try_parse(big).is_none());
    assert!(changeset_of(big).is_none());
}

#[test]
fn a_warning_quotes_the_error() {
    let text = "--- a/x\n+++ b/x\n@@ bogus @@\n+y\n";
    let (cs, warning) = changeset_of(text).unwrap();
    assert!(cs.is_empty());
    let error = parse_report(text).1.unwrap();
    assert_eq!(
        warning,
        Some(format!("hew: warning: input looks like a patch but failed to parse: {error}"))
    );
    assert!(changeset_of("").unwrap().1.is_none());
}

#[test]
fn compared_texts_have_exact_hunks() {
    let old = "1\n2\n3\n4\n5\n6\n7\n8\n9\n";
    let new = "1\n2\n3\n4\nfive\n6\n7\n8\n9\nten\n";
    let f = diff_texts("a", "b", old, new, 1);
    assert_eq!((f.old_path.as_str(), f.new_path.as_str(), f.is_binary), ("a", "b", false));
    assert_eq!(f.hunks.len(), 2);
    let h = &f.hunks[0];
    assert_eq!((h.old_start, h.old_count, h.new_start, h.new_count), (4, 3, 4, 3));
    let lines: Vec<_> =
        h.lines.iter().map(|l| (l.kind, l.old_line, l.new_line, l.text.as_str())).collect();
    assert_eq!(
        lines,
        vec![
            (LineKind::Context, Some(4), Some(4), "4"),
            (LineKind::Deletion, Some(5), None, "5"),
            (LineKind::Addition, None, Some(5), "five"),
            (LineKind::Context, Some(6), Some(6), "6"),
        ]
    );
    let h = &f.hunks[1];
    assert_eq!((h.old_start, h.old_count, h.new_start, h.new_count), (9, 1, 9, 2));
}

#[test]
fn a_hunk_without_old_lines_starts_at_zero() {
    let f = diff_texts("a", "a", "", "x\n\n", 3);
    let h = &f.hunks[0];
    assert_eq!((h.old_start, h.old_count, h.new_start, h.new_count), (0, 0, 1, 2));
    assert_eq!(h.lines[1].text, "");
    let h = to_hunk(&vec![LineChange {
        kind: LineKind::Deletion,
        old: Some(6),
        new: None,
        text: "gone\n\n".to_string(),
    }]);
    assert_eq!((h.old_start, h.old_count, h.new_start, h.new_count), (7, 1, 0, 0));
    assert_eq!(h.lines[0].text, "gone");
}

#[test]
fn walking_a_diff() {
    let mut w = Walk::new();
    // Nothing to add to yet.
    w.on_binary();
    w.on_hunk((1, 1), (1, 1), b"@@ -1 +1 @@");
    w.on_line('+', b"x\n", None, Some(1));
    w.on_file(Some("a.rs".to_string()), Some("b.rs".to_string()));
    w.on_line('+', b"before any hunk\n", None, Some(1));
    w.on_hunk((3, 2), (4, 1), b"@@ -3,2 +4 @@ fn main()\n");
    w.on_line(' ', b"same\n", Some(3), Some(4));
    w.on_line('-', b"ol\xffd", Some(4), None);
    w.on_line('>', b"\\ No newline\n", None, None);
    w.on_file(None, Some("logo.png".to_string()));
    w.on_binary();
    let cs = w.finish();
    assert_eq!(cs.files.len(), 2);
    let f = &cs.files[0];
    assert_eq!((f.old_path.as_str(), f.new_path.as_str(), f.is_binary), ("a.rs", "b.rs", false));
    assert_eq!(f.hunks.len(), 1);
    let h = &f.hunks[0];
    assert_eq!((h.old_start, h.old_count, h.new_start, h.new_count), (3, 2, 4, 1));
    assert_eq!(h.section.as_deref(), Some("fn main()"));
    let lines: Vec<_> =
        h.lines.iter().map(|l| (l.kind, l.old_line, l.new_line, l.text.as_str())).collect();
    assert_eq!(
        lines,
        vec![
            (LineKind::Context, Some(3), Some(4), "same"),
            (LineKind::Deletion, Some(4), None, "ol\u{fffd}d"),
        ]
    );
    assert_eq!(cs.files[1].old_path, "/dev/null");
    assert!(cs.files[1].is_binary);
}

#[test]
fn sections_paths_and_kinds() {
    assert_eq!(section_of(b"@@ -1 +1 @@ impl X \n").as_deref(), Some("impl X"));
    assert_eq!(section_of(b"@@ -1 +1 @@\n"), None);
    assert_eq!(section_of(b"@@ -1 +1"), None);
    assert_eq!(section_of(b"x @@ -1 @@ y"), None);
    assert_eq!(path_of(None), "/dev/null");
    assert_eq!(path_of(Some("x".to_string())), "x");
    assert_eq!(kind_of('='), None);
    assert_eq!(kind_of('+'), Some(LineKind::Addition));
}

#[test]
fn where_inputs_come_from() {
    assert!(reads_stdin(None));
    assert!(reads_stdin(Some("-")));
    assert!(!reads_stdin(Some("--")));
    assert!(!reads_stdin(Some("x.patch")));
    assert!(nothing_to_read(false, true));
    assert!(!nothing_to_read(true, true));
    assert!(!nothing_to_read(false, false));
    assert!(is_thread_array(" \n\t[ ]"));
    assert!(!is_thread_array("{ \"threads\": [] }"));
    assert!(!is_thread_array("  "));
}

#[test]
fn generated_hunks_hold_the_lines_of_the_texts() {
    let old = "a\nb\r\nc\rd\n\ne\nf\ng\nh\ni\nj\nk\n";
    let new = "a\nB\r\nc\rd\n\ne\nf\ng\nh\ni\nj2\nk\nlast";
    let old_lines = ["a", "b\r", "c\r", "d", "", "e", "f", "g", "h", "i", "j", "k"];
    let new_lines = ["a", "B\r", "c\r", "d", "", "e", "f", "g", "h", "i", "j2", "k", "last"];
    let f = diff_texts("o", "n", old, new, 1);
    assert_eq!(f.hunks.len(), 2);
    for h in &f.hunks {
        let (mut olds, mut news) = (0, 0);
        for l in &h.lines {
            if let Some(n) = l.old_line {
                assert_eq!(l.text, old_lines[n as usize - 1]);
                olds += 1;
            }
            if let Some(n) = l.new_line {
                assert_eq!(l.text, new_lines[n as usize - 1]);
                news += 1;
            }
        }
        assert_eq!((h.old_count, h.new_count), (olds, news));
    }
}

/// The lines of a text that the hunks of a diff do not delete, or do not add.
fn left_over(text: &str, hunks: &[Hunk], kind: LineKind) -> Vec<String> {
    let gone: Vec<u32> = hunks
        .iter()
        .flat_map(|h| &h.lines)
        .filter(|l| l.kind == kind)
        .map(|l| if kind == LineKind::Deletion { l.old_line } else { l.new_line }.unwrap())
        .collect();
    (1u32..)
        .zip(text.split_inclusive('\n'))
        .filter(|(n, _)| !gone.contains(n))
        .map(|(_, l)| l.to_string())
        .collect()
}

#[test]
fn hunks_lead_from_one_text_to_the_other() {
    let mut seed: u64 = 7;
    let mut next = |below: u64| {
        seed = seed.wrapping_mul(6364136223846793005).wrapping_add(1442695040888963407);
        (seed >> 33) % below
    };
    for round in 0..600u64 {
        // Few distinct lines, so that there are many ways to align the texts.
        let longest = if round % 100 == 0 { 150 } else { 9 };
        let mut text = |end: &str| {
            let mut t = String::new();
            for _ in 0..next(longest) {
                t.push_str(["a\n", "b\n", "c\n"][next(3) as usize]);
            }
            t + end
        };
        let old = text("");
        let new = text(if round % 3 == 0 { "b" } else { "" });
        let f = diff_texts("o", "n", &old, &new, (round % 4) as usize);
        assert_eq!(
            left_over(&old, &f.hunks, LineKind::Deletion),
            left_over(&new, &f.hunks, LineKind::Addition),
            "{old:?} {new:?}"
        );
        assert_eq!(old == new, f.hunks.is_empty());
    }
}
