//! Comparing what is installed with upstream.

use skillfile::commands::diff::{
    cmd_diff, diff_conflict_dir, diff_conflict_single, diff_local_dir, diff_local_single, DiffStep,
};
use skillfile::commands::files::FileText;
use skillfile::error::SkillfileError;
use skillfile::models::{ConflictState, EntityType, Entry, SourceFields};
use skillfile::parser::{find_entry_in, parse_manifest_str};
use skillfile::unified::show_diff;

const SHA: &str = "abc123def456abcdef";

fn entry_of(line: &str, name: &str) -> Entry {
    let m = parse_manifest_str(line).manifest;
    find_entry_in(name, &m).ok().unwrap().clone()
}

fn test_entry() -> Entry {
    entry_of("github  skill  owner/repo  skills/test.md\n", "test")
}

fn dir_entry() -> Entry {
    entry_of("github  skill  my-dir  owner/repo  skills/my-dir  main\n", "my-dir")
}

fn two_files(content1: &str, content2: &str) -> Vec<FileText> {
    vec![
        FileText { name: "file1.md".to_string(), text: content1.to_string() },
        FileText { name: "file2.md".to_string(), text: content2.to_string() },
    ]
}

fn conflict(entry: &str) -> ConflictState {
    ConflictState {
        entry: entry.to_string(),
        entity_type: EntityType::Skill,
        old_sha: "aaaaaaaaaaaaaaaa".to_string(),
        new_sha: "bbbbbbbbbbbbbbbb".to_string(),
    }
}

fn message(r: Result<String, SkillfileError>) -> String {
    r.err().unwrap().to_string()
}

#[test]
fn diff_local_entry_prints_message() {
    let entry = entry_of("local  skill  skills/foo.md\n", "foo");
    match cmd_diff(&entry, &None, &None) {
        Ok(DiffStep::Nothing(m)) => {
            assert_eq!(m, "'foo' is a local entry \u{2014} nothing to diff")
        }
        _ => panic!("expected nothing to diff"),
    }
}

#[test]
fn diff_not_locked_errors() {
    let result = cmd_diff(&test_entry(), &None, &None);
    assert!(result.err().unwrap().to_string().contains("not locked"));
}

#[test]
fn diff_not_cached_errors() {
    let result = diff_local_single(&test_entry(), SHA, &None, &None);
    assert!(message(result).contains("not cached"));
}

#[test]
fn diff_not_installed_errors() {
    let result = diff_local_single(&test_entry(), SHA, &Some("content\n".to_string()), &None);
    assert!(message(result).contains("not installed"));
}

#[test]
fn diff_clean_shows_clean() {
    let content = Some("# Test\n\nContent.\n".to_string());
    let out = diff_local_single(&test_entry(), SHA, &content, &content).unwrap();
    assert!(out.contains("is clean"), "{out}");
}

#[test]
fn diff_modified_produces_output() {
    let out = diff_local_single(
        &test_entry(),
        SHA,
        &Some("original\n".to_string()),
        &Some("modified\n".to_string()),
    )
    .unwrap();
    assert!(out.contains("abc123def456"), "{out}");
    assert!(out.contains("\n@@ -1 +1 @@\n-original\n+modified\n"), "{out}");
}

#[test]
fn diff_entry_name_not_found() {
    let m = parse_manifest_str("github  skill  my-dir  owner/repo  skills/my-dir  main\n").manifest;
    let msg = find_entry_in("nonexistent", &m).err().unwrap().to_string();
    assert!(
        msg.contains("nonexistent"),
        "error should mention the missing entry name: {msg}"
    );
}

#[test]
fn diff_dir_entry_not_cached() {
    let msg = message(diff_local_dir(&dir_entry(), SHA, &None, &None));
    assert!(msg.contains("not cached"), "expected 'not cached' in error, got: {msg}");
}

#[test]
fn diff_dir_entry_not_installed() {
    let cached = Some(two_files("content1\n", "content2\n"));
    let msg = message(diff_local_dir(&dir_entry(), SHA, &cached, &None));
    assert!(msg.contains("not installed"), "expected 'not installed' in error, got: {msg}");
}

#[test]
fn diff_dir_entry_clean() {
    let content = "# Skill content\n\nSame in both places.\n";
    let cached = Some(two_files(content, content));
    let installed = Some(two_files(content, content));
    let out = diff_local_dir(&dir_entry(), SHA, &cached, &installed).unwrap();
    assert!(out.contains("is clean"), "{out}");
}

#[test]
fn diff_dir_entry_modified() {
    let cached = Some(two_files("original line\n", "unchanged\n"));
    let installed = Some(two_files("modified line\n", "unchanged\n"));
    let out = diff_local_dir(&dir_entry(), SHA, &cached, &installed).unwrap();
    assert!(out.contains("-original line\n+modified line\n"), "{out}");
    assert!(out.contains("file1.md") && !out.contains("file2.md"), "{out}");
}

#[test]
fn cmd_diff_dispatches_to_dir_path_for_dir_entry() {
    let entry = dir_entry();
    assert!(matches!(entry.source, SourceFields::Github { .. }));
    let step = cmd_diff(&entry, &None, &Some(SHA.to_string()));
    assert!(matches!(step, Ok(DiffStep::Local(s)) if s == SHA));
}

#[test]
fn a_pending_conflict_is_shown_first() {
    let entry = test_entry();
    let step = cmd_diff(&entry, &Some(conflict("test")), &None);
    assert!(matches!(step, Ok(DiffStep::Conflict)));
    let step = cmd_diff(&entry, &Some(conflict("other")), &Some(SHA.to_string()));
    assert!(matches!(step, Ok(DiffStep::Local(_))));
}

#[test]
fn diff_of_a_conflict() {
    let entry = test_entry();
    let out = diff_conflict_single(&entry, &conflict("test"), "old\n", "new\n");
    assert!(out.contains("-old\n+new\n"), "{out}");
    assert!(out.contains("aaaaaaaaaaaa") && out.contains("bbbbbbbbbbbb"), "{out}");
    let same = diff_conflict_single(&entry, &conflict("test"), "x\n", "x\n");
    assert!(!same.contains("@@"), "{same}");
    let dir = diff_conflict_dir(
        &dir_entry(),
        &conflict("my-dir"),
        &two_files("a\n", "b\n"),
        &two_files("a\n", "c\n"),
    );
    assert!(dir.contains("-b\n+c\n") && !dir.contains("file1.md"), "{dir}");
    let same = diff_conflict_dir(
        &dir_entry(),
        &conflict("my-dir"),
        &two_files("a\n", "b\n"),
        &two_files("a\n", "b\n"),
    );
    assert!(!same.contains("@@"), "{same}");
}

#[test]
fn diffs_are_empty_exactly_where_texts_are_equal() {
    assert_eq!(show_diff("a\n", "a\n", "x", "y"), "");
    assert_eq!(show_diff("a\n", "b\n", "x", "y"), "--- x\n+++ y\n@@ -1 +1 @@\n-a\n+b\n");
}

#[test]
fn missing_files_are_not_compared() {
    let cached = Some(two_files("original line\n", "unchanged\n"));
    let out = diff_local_dir(&dir_entry(), SHA, &cached, &Some(vec![])).unwrap();
    assert!(out.contains("is clean"), "{out}");
}
