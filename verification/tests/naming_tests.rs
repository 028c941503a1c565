use repodoc::naming::{extension_of, repo_name_of};
use repodoc::pipeline::{output_dir_name, output_stem};

#[test]
fn extension_from_file_name() {
    assert_eq!(extension_of("src/main.rs"), "rs");
    assert_eq!(extension_of("a.py"), "py");
    assert_eq!(extension_of("archive.tar.gz"), "gz");
}

#[test]
fn extension_sentinel_when_absent() {
    assert_eq!(extension_of("README"), "txt");
    assert_eq!(extension_of(".gitignore"), "txt");
    assert_eq!(extension_of("a.b/README"), "txt");
}

#[test]
fn extension_of_trailing_dot_is_empty() {
    assert_eq!(extension_of("strange."), "");
}

#[test]
fn repo_name_from_url() {
    assert_eq!(repo_name_of("https://github.com/expressjs/express.git"), "express");
    assert_eq!(repo_name_of("git@host:team/thing.git"), "thing");
    assert_eq!(repo_name_of("https://host/group/project"), "project");
}

#[test]
fn repo_name_strips_repeated_suffix() {
    assert_eq!(repo_name_of("x.git.git"), "x");
}

#[test]
fn repo_name_fallback() {
    assert_eq!(repo_name_of(""), "repo");
    assert_eq!(repo_name_of("///"), "repo");
}

#[test]
fn repo_name_skips_trailing_dot_components() {
    assert_eq!(repo_name_of("foo.txt/."), "foo.txt");
    assert_eq!(repo_name_of("a/b/./"), "b");
    assert_eq!(repo_name_of("a/./."), "a");
}

#[test]
fn repo_name_fallback_on_dot_components() {
    assert_eq!(repo_name_of("."), "repo");
    assert_eq!(repo_name_of(".."), "repo");
    assert_eq!(repo_name_of("x/.."), "repo");
    assert_eq!(repo_name_of("..."), "...");
}

#[test]
fn repo_name_of_trailing_slash() {
    assert_eq!(repo_name_of("https://host/a/b/"), "b");
}

#[test]
fn output_names() {
    assert_eq!(output_dir_name("express"), "express_generated");
    assert_eq!(output_stem(&None, "express"), "express");
    assert_eq!(output_stem(&Some("chosen".to_string()), "express"), "chosen");
}
