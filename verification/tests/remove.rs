//! Removing entries from a manifest.

use skillfile::commands::common::vendor_dir_for;
use skillfile::commands::remove::{cmd_remove, remove_line};
use skillfile::error::SkillfileError;
use skillfile::parser::parse_manifest_str;

#[test]
fn remove_no_manifest() {
    let result = cmd_remove("foo", "/repo", None);
    assert!(result.is_err());
    assert!(result.err().unwrap().to_string().contains("not found"));
}

#[test]
fn unknown_name_errors() {
    let result = cmd_remove("nonexistent", "/repo", Some("local  skill  skills/foo.md\n"));
    assert!(result.is_err());
    assert!(result.err().unwrap().to_string().contains("no entry named"));
}

#[test]
fn remove_github_entry_removes_line() {
    let text = cmd_remove("my-agent", "/repo", Some("github  agent  owner/repo  agents/my-agent.md\nlocal  skill  skills/foo.md\n")).unwrap().manifest_text;
    assert!(!text.contains("my-agent"));
    assert!(text.contains("skills/foo.md"));
}

#[test]
fn remove_local_entry_removes_line() {
    let text = cmd_remove("foo", "/repo", Some("local  skill  skills/foo.md\n")).unwrap().manifest_text;
    assert!(!text.contains("foo"));
}

#[test]
fn remove_preserves_comments_and_blanks() {
    let text = cmd_remove("foo", "/repo", Some("# My agents\n\nlocal  skill  skills/foo.md\n")).unwrap().manifest_text;
    assert!(text.contains("# My agents"));
}

#[test]
fn remove_no_lock_entry_no_error() {
    cmd_remove("my-agent", "/repo", Some("github  agent  owner/repo  agents/my-agent.md\n")).unwrap();
}

#[test]
fn remove_clears_cache() {
    let plan = cmd_remove(
        "my-agent",
        "/repo",
        Some("github  agent  owner/repo  agents/my-agent.md\n"),
    )
    .unwrap();
    assert_eq!(vendor_dir_for(&plan.entry, "/repo"), "/repo/.skillfile/cache/agents/my-agent");
}

#[test]
fn remove_updates_lock() {
    let plan = cmd_remove(
        "my-agent",
        "/repo",
        Some("github  agent  owner/repo  agents/my-agent.md\n"),
    )
    .unwrap();
    assert_eq!(plan.lock_key, "github/agent/my-agent");
    assert_ne!(plan.lock_key, "github/agent/other");
    assert_eq!(plan.message, "Removed: my-agent");
}

#[test]
fn remove_takes_the_first_line_of_a_name() {
    let raw = "# c\nlocal  skill  x  a.md\nlocal  agent  x  b.md\n";
    let text = remove_line(raw, "x");
    assert_eq!(text, "# c\nlocal  agent  x  b.md\n");
    assert_eq!(remove_line(raw, "y"), raw);
    assert_eq!(remove_line("local  skill  x  a.md", "x"), "");
}

#[test]
fn removed_entries_leave_the_others() {
    let raw = "install  cursor  local\nlocal  skill  a.md\nurl  agent  https://e.org/b.md\n";
    let plan = cmd_remove("a", "/repo", Some(raw)).unwrap();
    assert_eq!(plan.entry.local_path(), "a.md");
    let m = parse_manifest_str(&plan.manifest_text).manifest;
    assert_eq!(m.entries.len(), 1);
    assert_eq!(m.entries[0].name, "b");
    assert_eq!(m.install_targets.len(), 1);
    match cmd_remove("a", "/repo", Some(&plan.manifest_text)) {
        Err(SkillfileError::Manifest(m)) => assert_eq!(m, "no entry named 'a' in Skillfile"),
        _ => panic!("expected an error"),
    }
}

#[test]
fn a_marked_first_line_is_removed() {
    let raw = "\u{feff}local  skill  skills/foo.md\nlocal  skill  skills/bar.md\n";
    let plan = cmd_remove("foo", "/repo", Some(raw)).unwrap();
    assert_eq!(plan.manifest_text, "\u{feff}local  skill  skills/bar.md\n");
    let left = parse_manifest_str(&plan.manifest_text).manifest.entries;
    assert_eq!(left.iter().map(|e| e.name.as_str()).collect::<Vec<_>>(), vec!["bar"]);
    let plan = cmd_remove("bar", "/repo", Some(raw)).unwrap();
    assert_eq!(plan.manifest_text, "\u{feff}local  skill  skills/foo.md\n");
}
