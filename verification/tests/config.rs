//! The user's configuration file.

use skillfile::config::{
    config_path, parse_and_resolve, read_user_targets, resolve_targets_into, write_user_targets,
    InstallEntry,
};
use skillfile::error::SkillfileError;
use skillfile::models::{InstallTarget, Manifest, Scope};

fn entry(platform: &str, scope: &str) -> InstallEntry {
    InstallEntry { platform: platform.to_string(), scope: scope.to_string() }
}

fn target(adapter: &str, scope: Scope) -> InstallTarget {
    InstallTarget { adapter: adapter.to_string(), scope }
}

#[test]
fn config_path_ends_with_expected_components() {
    assert_eq!(
        config_path(Some("/home/u/.config")).as_deref(),
        Some("/home/u/.config/skillfile/config.toml")
    );
    assert_eq!(config_path(None), None);
}

#[test]
fn read_user_targets_from_missing_file_returns_empty() {
    let targets = read_user_targets(None);
    assert!(targets.is_empty());
}

#[test]
fn read_user_targets_from_parses_toml() {
    let targets = read_user_targets(Some(&vec![entry("codex", "global"), entry("cursor", "local")]));
    assert_eq!(targets.len(), 2);
    assert_eq!(targets[0].adapter, "codex");
    assert_eq!(targets[0].scope, Scope::Global);
    assert_eq!(targets[1].adapter, "cursor");
    assert_eq!(targets[1].scope, Scope::Local);
}

#[test]
fn read_user_targets_from_ignores_invalid_scope() {
    let targets =
        read_user_targets(Some(&vec![entry("codex", "global"), entry("cursor", "invalid")]));
    assert_eq!(targets.len(), 1);
    assert_eq!(targets[0].adapter, "codex");
}

#[test]
fn read_user_targets_from_empty_file_returns_empty() {
    let targets = read_user_targets(Some(&vec![]));
    assert!(targets.is_empty());
}

#[test]
fn write_then_read_round_trips() {
    let targets = vec![target("codex", Scope::Global), target("gemini-cli", Scope::Local)];
    let written = write_user_targets(&targets, Some("/home/u/.config")).unwrap();
    let read_back = read_user_targets(Some(&written));
    assert_eq!(read_back.len(), 2);
    assert_eq!(read_back[0].adapter, "codex");
    assert_eq!(read_back[0].scope, Scope::Global);
    assert_eq!(read_back[1].adapter, "gemini-cli");
    assert_eq!(read_back[1].scope, Scope::Local);
}

#[test]
fn writing_needs_a_place() {
    match write_user_targets(&vec![], None) {
        Err(SkillfileError::Io(m)) => assert_eq!(m, "could not determine config directory"),
        _ => panic!("expected an error"),
    }
}

#[test]
fn resolve_targets_into_prefers_manifest_targets() {
    let mut manifest = Manifest {
        entries: vec![],
        install_targets: vec![InstallTarget {
            adapter: "from-skillfile".to_string(),
            scope: Scope::Global,
        }],
    };

    // Even if user config has targets, manifest targets should win.
    // resolve_targets_into only fills when manifest is empty.
    resolve_targets_into(&mut manifest, vec![target("from-user", Scope::Local)]);
    assert_eq!(manifest.install_targets.len(), 1);
    assert_eq!(manifest.install_targets[0].adapter, "from-skillfile");
}

#[test]
fn user_targets_fill_an_empty_manifest() {
    let m = parse_and_resolve(b"local  skill  a.md\n", vec![target("codex", Scope::Local)]);
    assert_eq!(m.entries.len(), 1);
    assert_eq!(m.install_targets[0].adapter, "codex");
    let m = parse_and_resolve(b"install  cursor  local\n", vec![target("codex", Scope::Local)]);
    assert_eq!(m.install_targets.len(), 1);
    assert_eq!(m.install_targets[0].adapter, "cursor");
}
