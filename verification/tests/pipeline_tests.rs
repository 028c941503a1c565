use repodoc::pipeline::{
    AuthMethod, DirectoryProcessor, FileInput, ProcessOptions, RepoProcessor,
};
use repodoc::render::render_fragment;

const DOC_PREFIX: &str = "<html><head><style>\nbody {\n    font: 10pt Georgia, \"Times New Roman\", Times, serif;\n    line-height: 1.3;\n    margin: .5cm .5cm .5cm 1.5cm;\n}\n.pagebreak {\n    margin-top: 50px;\n}\n</style></head><body>";
const DOC_SUFFIX: &str = "</body></html>";

fn readable(path: &str, content: &str) -> FileInput {
    FileInput { rel_path: path.to_string(), content: Some(content.to_string()) }
}

fn unreadable(path: &str) -> FileInput {
    FileInput { rel_path: path.to_string(), content: None }
}

#[test]
fn empty_run_produces_wrapper_and_empty_manifest() {
    let p = DirectoryProcessor::new();
    let out = p.process_files(&vec![]).unwrap();
    assert_eq!(out.html, format!("{}{}", DOC_PREFIX, DOC_SUFFIX));
    assert_eq!(out.manifest_json, "[]");
    assert!(out.manifest_paths.is_empty());
    assert!(out.skipped.is_empty());
}

#[test]
fn manifest_and_document_agree_in_order() {
    let p = DirectoryProcessor::new();
    let files = vec![readable("a.py", "print(1)\n"), readable("b/lib/y.js", "let x = 1;\n")];
    let out = p.process_files(&files).unwrap();
    assert_eq!(out.manifest_paths, vec!["a.py".to_string(), "b/lib/y.js".to_string()]);
    assert_eq!(out.manifest_json, "[\n  \"a.py\",\n  \"b/lib/y.js\"\n]");
    let first = out.html.find("<h2>a.py</h2>").expect("first heading missing");
    let second = out.html.find("<h2>b/lib/y.js</h2>").expect("second heading missing");
    assert!(first < second);
    assert!(out.html.starts_with(DOC_PREFIX));
    assert!(out.html.ends_with(DOC_SUFFIX));
    assert!(out.html.contains("class=\"language-py\""));
    assert!(out.html.contains("class=\"language-js\""));
}

#[test]
fn unreadable_file_is_skipped_not_fatal() {
    let p = RepoProcessor::new();
    let files = vec![
        readable("a.py", "print(1)\n"),
        unreadable("broken.bin"),
        readable("c.py", "print(3)\n"),
    ];
    let out = p.process_files(&files).unwrap();
    assert_eq!(out.manifest_paths, vec!["a.py".to_string(), "c.py".to_string()]);
    assert_eq!(out.skipped, vec!["broken.bin".to_string()]);
    assert!(!out.html.contains("broken.bin"));
    assert!(!out.manifest_json.contains("broken.bin"));
}

#[test]
fn unknown_extension_falls_back_to_escaped_plain_text() {
    let p = DirectoryProcessor::new();
    let files = vec![readable("notes.zzz", "<tag> & more\n")];
    let out = p.process_files(&files).unwrap();
    assert_eq!(out.manifest_paths, vec!["notes.zzz".to_string()]);
    assert!(out.html.contains("<h2>notes.zzz</h2>"));
    assert!(out.html.contains("class=\"language-zzz\""));
    // the raw content is escaped, not embedded as markup
    assert!(!out.html.contains("<tag>"));
    assert!(out.html.contains("&lt;tag&gt;"));
}

#[test]
fn rerun_produces_identical_manifest() {
    let p = RepoProcessor::new();
    let files = vec![readable("a.py", "print(1)\n"), readable("b.rs", "fn main() {}\n")];
    let out1 = p.process_files(&files).unwrap();
    let files_again = vec![readable("a.py", "print(1)\n"), readable("b.rs", "fn main() {}\n")];
    let out2 = p.process_files(&files_again).unwrap();
    assert_eq!(out1.manifest_json, out2.manifest_json);
    assert_eq!(out1.html, out2.html);
}

#[test]
fn fragment_layout_is_fixed() {
    let f = render_fragment("a.py", "py", "BODY");
    assert_eq!(f, "<h2>a.py</h2><pre><code class=\"language-py\">BODY</code></pre>");
}

#[test]
fn repo_default_options() {
    let o = ProcessOptions::repo_default();
    assert_eq!(o.match_patterns, vec!["**/*.*"]);
    assert_eq!(
        o.ignore,
        vec![".git", "node_modules", ".DS_Store", "__pycache__", "target"]
    );
    assert!(!o.debug);
    assert!(o.filename.is_none());
    assert!(matches!(o.auth_method, AuthMethod::SSH));
}

#[test]
fn default_options() {
    let o = ProcessOptions::default();
    assert_eq!(o.match_patterns, vec!["**/*.rs", "**/*.js", "**/*.py"]);
    assert_eq!(
        o.ignore,
        vec![".git", "node_modules", ".DS_Store", "__pycache__", "target"]
    );
    assert!(!o.debug);
    assert!(o.filename.is_none());
    assert!(matches!(o.auth_method, AuthMethod::SSH));
}
