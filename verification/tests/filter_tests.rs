use repodoc::filter::{select_files, DirEntry, SelectError};
use repodoc::text::{contains_substring, str_lex_le};

fn entry(path: &str, is_file: bool) -> DirEntry {
    DirEntry { path: path.to_string(), is_file }
}

fn strings(items: &[&str]) -> Vec<String> {
    items.iter().map(|s| s.to_string()).collect()
}

#[test]
fn scenario_ignore_directory() {
    let entries = vec![
        entry("a.py", true),
        entry("b/node_modules/x.js", true),
        entry("b/lib/y.js", true),
        entry("b", false),
        entry("b/lib", false),
        entry("b/node_modules", false),
    ];
    let patterns = strings(&["**/*.py", "**/*.js"]);
    let ignores = strings(&["node_modules"]);
    let got = select_files(&entries, &patterns, &ignores).unwrap();
    assert_eq!(got, strings(&["a.py", "b/lib/y.js"]));
}

#[test]
fn select_output_is_sorted_and_deduplicated() {
    let entries = vec![
        entry("c.py", true),
        entry("a.py", true),
        entry("b.py", true),
        entry("a.py", true),
    ];
    let patterns = strings(&["**/*.py", "*.py"]);
    let got = select_files(&entries, &patterns, &strings(&[])).unwrap();
    assert_eq!(got, strings(&["a.py", "b.py", "c.py"]));
}

#[test]
fn select_is_deterministic() {
    let entries = vec![
        entry("src/z.rs", true),
        entry("src/a.rs", true),
        entry("target/t.rs", true),
    ];
    let patterns = strings(&["**/*.rs"]);
    let ignores = strings(&["target"]);
    let first = select_files(&entries, &patterns, &ignores).unwrap();
    let second = select_files(&entries, &patterns, &ignores).unwrap();
    assert_eq!(first, second);
    assert_eq!(first, strings(&["src/a.rs", "src/z.rs"]));
}

#[test]
fn select_drops_non_files() {
    let entries = vec![entry("dir.py", false), entry("file.py", true)];
    let got = select_files(&entries, &strings(&["*.py"]), &strings(&[])).unwrap();
    assert_eq!(got, strings(&["file.py"]));
}

#[test]
fn ignore_matches_anywhere_in_the_path() {
    // the ignore entry matches as a literal substring, not as a path segment
    let entries = vec![entry("my-target.txt", true), entry("kept.txt", true)];
    let got = select_files(&entries, &strings(&["*.txt"]), &strings(&["target"])).unwrap();
    assert_eq!(got, strings(&["kept.txt"]));
}

#[test]
fn empty_match_is_not_an_error() {
    let entries = vec![entry("a.py", true)];
    let got = select_files(&entries, &strings(&["**/*.zz"]), &strings(&[])).unwrap();
    assert_eq!(got, Vec::<String>::new());
}

#[test]
fn star_does_not_cross_separators() {
    // `*` stays within one path segment, as the original's expansion had it
    let entries = vec![entry("top.js", true), entry("b/lib/y.js", true)];
    let got = select_files(&entries, &strings(&["*.js"]), &strings(&[])).unwrap();
    assert_eq!(got, strings(&["top.js"]));
}

#[test]
fn no_patterns_selects_nothing() {
    let entries = vec![entry("a.py", true)];
    let got = select_files(&entries, &strings(&[]), &strings(&[])).unwrap();
    assert_eq!(got, Vec::<String>::new());
}

#[test]
fn default_options_select_source_files() {
    let options = repodoc::pipeline::ProcessOptions::default();
    let entries = vec![
        entry("src/lib.rs", true),
        entry("web/app.js", true),
        entry("tool.py", true),
        entry("target/out.rs", true),
        entry("notes.md", true),
    ];
    let got = select_files(&entries, &options.match_patterns, &options.ignore).unwrap();
    assert_eq!(got, strings(&["src/lib.rs", "tool.py", "web/app.js"]));
}

#[test]
fn bad_pattern_is_fatal() {
    let entries = vec![entry("a.py", true)];
    let r = select_files(&entries, &strings(&["a**b"]), &strings(&[]));
    match r {
        Err(SelectError::BadPattern(p)) => assert_eq!(p, "a**b"),
        _ => panic!("expected the malformed pattern to be rejected"),
    }
}

#[test]
fn substring_search_is_literal() {
    assert!(contains_substring("my-target.txt", "target"));
    assert!(contains_substring("abc", ""));
    assert!(!contains_substring("abc", "abcd"));
    assert!(contains_substring("node_modules/x", "node_modules"));
    assert!(!contains_substring("nodemodules/x", "node_modules"));
}

#[test]
fn substring_search_handles_multibyte_text() {
    assert!(contains_substring("docs/r\u{e9}sum\u{e9}.txt", "r\u{e9}sum\u{e9}"));
    assert!(!contains_substring("docs/resume.txt", "r\u{e9}sum\u{e9}"));
    assert!(!str_lex_le("\u{e9}", "z"));
    assert!(str_lex_le("z", "\u{e9}"));
}

#[test]
fn lexicographic_comparison() {
    assert!(str_lex_le("a", "b"));
    assert!(str_lex_le("a", "a"));
    assert!(!str_lex_le("b", "a"));
    assert!(str_lex_le("a", "ab"));
    assert!(!str_lex_le("ab", "a"));
    assert!(str_lex_le("a/b", "a0b"));
}
