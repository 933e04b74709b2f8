//! Which texts the reader of patches takes.
use hew::diff::grammar::is_readable;
use hew::diff::parse::try_parse;

const BASE: &str = "junk\ndiff --git a/f b/f\n--- a/f\t2020-01-01 10:00:00.5 +0100\n+++ \"b/f\\n\"\n@@ -1,2 +1 @@ fn f\n-a\n b\n@@ -9 +8,0 @@\n-z\n\\ No newline at end of file\n--- c\n+++ d\n@@ -0,0 +1 @@\n+q\n";

/// Texts that differ from the base at one place.
fn variants() -> Vec<String> {
    let chars: Vec<char> = BASE.chars().collect();
    let mut out = vec![BASE.to_string()];
    for i in 0..=chars.len() {
        let head: String = chars[..i].iter().collect();
        let tail: String = chars[i..].iter().collect();
        out.push(head.clone());
        for c in ['\n', '\r', '9', '@', '-', '+', ' ', '"', '\\', '\t', 'x', 'é'] {
            out.push(format!("{head}{c}{tail}"));
        }
        if i < chars.len() {
            let rest: String = chars[i + 1..].iter().collect();
            out.push(format!("{head}{rest}"));
        }
    }
    let lines: Vec<&str> = BASE.split_inclusive('\n').collect();
    for i in 0..lines.len() {
        for j in 0..lines.len() {
            let mut l = lines.clone();
            l.insert(j, lines[i]);
            out.push(l.concat());
            let mut l = lines.clone();
            l.swap(i, j);
            out.push(l.concat());
        }
    }
    out
}



#[test]
fn readable_texts_are_read_without_a_panic() {
    let (mut ok, mut failed, mut refused) = (0, 0, 0);
    for t in variants() {
        if !is_readable(&t) {
            assert!(try_parse(&t).is_none());
            refused += 1;
            continue;
        }
        let (cs, err) = try_parse(&t).unwrap();
        match patch::Patch::from_multiple(&t) {
            Ok(ps) => {
                ok += 1;
                assert!(err.is_none(), "{t:?}");
                for (p, f) in ps.iter().zip(&cs.files) {
                    assert_eq!(p.hunks.len(), f.hunks.len(), "{t:?}");
                    let read: Vec<usize> = p.hunks.iter().map(|h| h.lines.len()).collect();
                    let got: Vec<usize> = f.hunks.iter().map(|h| h.lines.len()).collect();
                    assert_eq!(read, got, "{t:?}");
                }
            }
            Err(_) => {
                failed += 1;
                assert!(cs.files.iter().all(|f| f.hunks.is_empty()), "{t:?}");
            }
        }
    }
    assert!(ok > 1000 && failed > 100 && refused > 100, "{ok} {failed} {refused}");
}
