//! Checking a manifest.

use skillfile::commands::validate::cmd_validate;
use skillfile::error::SkillfileError;
use skillfile::platforms::Platform;

fn platforms() -> Vec<Platform> {
    ["cursor", "codex"]
        .iter()
        .map(|n| Platform { name: n.to_string(), takes_skills: true, takes_agents: true })
        .collect()
}

fn keys(list: &[&str]) -> Vec<String> {
    list.iter().map(|k| k.to_string()).collect()
}

fn problems(text: &str, lock_keys: &[&str]) -> String {
    match cmd_validate("/repo", Some(text), &platforms(), &keys(lock_keys)) {
        Err(SkillfileError::Manifest(m)) => m,
        _ => panic!("the manifest has no problems"),
    }
}

#[test]
fn cli_validate_golden_path() {
    let text = "install  cursor  local\n\
         github  agent  code-refactorer  iannuttall/some-agents  agents/code-refactorer.md\n\
         github  skill  requesting-code-review  obra/superpowers  skills/requesting-code-review\n";
    let lock = keys(&["github/agent/code-refactorer", "github/skill/requesting-code-review"]);
    let said = cmd_validate("/repo", Some(text), &platforms(), &lock).unwrap();
    assert_eq!(said, "Skillfile OK");
}

#[test]
fn a_missing_manifest_is_reported() {
    let r = cmd_validate("/repo", None, &platforms(), &vec![]);
    assert!(r.err().unwrap().to_string().contains("not found in /repo"));
}

#[test]
fn all_problems_are_reported() {
    assert_eq!(
        problems("install  typo  local\n", &[]),
        "unknown platform 'typo'"
    );
    assert_eq!(
        problems("install  cursor  local\ninstall  cursor  global\ninstall  cursor  local\n", &[]),
        "duplicate install target 'cursor  local'"
    );
    assert_eq!(
        problems("local  skill  a.md\n", &["local/skill/a", "local/agent/a", "url/skill/b"]),
        "orphaned lock entry 'local/agent/a'\norphaned lock entry 'url/skill/b'"
    );
    let all = problems(
        "local  skill  x/a.md\nlocal  skill  y/a.md\ninstall  typo  local\ninstall  typo  local\n",
        &["local/skill/z"],
    );
    let lines: Vec<&str> = all.lines().collect();
    assert_eq!(lines.len(), 5, "{all}");
    assert!(lines[0].contains("duplicate entry name 'a'"), "{all}");
    assert_eq!(lines[1], "unknown platform 'typo'");
    assert_eq!(lines[2], "unknown platform 'typo'");
    assert_eq!(lines[3], "duplicate install target 'typo  local'");
    assert_eq!(lines[4], "orphaned lock entry 'local/skill/z'");
}
