//! The state of the entries of a manifest.

use skillfile::commands::files::FileText;
use skillfile::commands::status::{
    build_annotation, check_dir_files_modified, check_single_file_modified, cmd_status,
    column_width, format_entry_status, format_summary, is_modified_local, resolve_upstream_sha,
    upstream_status_for_github, EntryFacts, LocalState, ShaCache,
};
use skillfile::models::{EntityType, Entry, InstallTarget, Manifest, Scope, SourceFields};
use skillfile::parser::parse_manifest_str;

const SHA: &str = "aaaaaaaaaaaaaaaaaaaaaaaaaaaaaaaaaaaaaaaa";
const ORIGINAL: &str = "# Agent\n\nUpstream content.\n";
const MODIFIED: &str = "# Agent\n\nUpstream content.\n\n## Custom Section\n\nAdded by user.\n";

fn local_entry(name: &str, path: &str) -> Entry {
    Entry {
        entity_type: EntityType::Skill,
        name: name.into(),
        source: SourceFields::Local { path: path.into() },
    }
}

fn github(entity_type: EntityType, name: &str, path: &str) -> Entry {
    Entry {
        entity_type,
        name: name.into(),
        source: SourceFields::Github {
            owner_repo: "owner/repo".into(),
            path_in_repo: path.into(),
            ref_: "main".into(),
        },
    }
}

fn agent() -> Entry {
    github(EntityType::Agent, "my-agent", "agents/agent.md")
}

fn dir_skill() -> Entry {
    github(EntityType::Skill, "my-dir", "skills/my-dir")
}

fn facts() -> EntryFacts {
    EntryFacts {
        local_exists: false,
        locked_sha: None,
        cached_sha: None,
        upstream_sha: None,
        pinned: false,
        modified: false,
    }
}

fn single(installed: Option<&str>, cached: Option<&str>, pinned: bool) -> LocalState {
    LocalState::Single {
        installed: installed.map(|s| s.to_string()),
        cached: cached.map(|s| s.to_string()),
        pinned,
    }
}

fn tool(text: &str) -> Vec<FileText> {
    vec![FileText { name: "tool.md".to_string(), text: text.to_string() }]
}

fn status_of(line: &str, f: EntryFacts) -> String {
    cmd_status(&parse_manifest_str(line).manifest, &vec![f])
}

#[test]
fn local_entry_path_exists_shows_local() {
    let out = status_of(
        "local  skill  foo  skills/foo.md\n",
        EntryFacts { local_exists: true, ..facts() },
    );
    assert!(out.starts_with("foo   local\n"), "{out}");
}

#[test]
fn local_entry_path_missing_shows_status_without_error() {
    let out = status_of("local  skill  foo  skills/foo.md\n", facts());
    assert!(out.contains("path missing: skills/foo.md"), "{out}");
}

#[test]
fn github_entry_unlocked() {
    let out = status_of("github  agent  my-agent  owner/repo  agents/agent.md  main\n", facts());
    assert!(out.contains("unlocked"), "{out}");
}

#[test]
fn github_entry_locked_vendor_matches() {
    let sha = "87321636a1c666283d8f17398b45c2644395044b";
    let out = status_of(
        "github  agent  my-agent  owner/repo  agents/agent.md  main\n",
        EntryFacts {
            locked_sha: Some(sha.to_string()),
            cached_sha: Some(sha.to_string()),
            ..facts()
        },
    );
    assert!(out.contains("sha=87321636a1c6"), "{out}");
    assert!(!out.contains("missing"), "{out}");
}

#[test]
fn github_entry_locked_vendor_missing() {
    let sha = "87321636a1c666283d8f17398b45c2644395044b";
    let out = status_of(
        "github  agent  my-agent  owner/repo  agents/agent.md  main\n",
        EntryFacts { locked_sha: Some(sha.to_string()), ..facts() },
    );
    assert!(out.contains("missing"), "{out}");
}

#[test]
fn modified_shows_for_changed_installed_file() {
    assert!(is_modified_local(&agent(), single(Some(MODIFIED), Some(ORIGINAL), false)));
}

#[test]
fn modified_not_shown_for_clean_entry() {
    assert!(!is_modified_local(&agent(), single(Some(ORIGINAL), Some(ORIGINAL), false)));
}

#[test]
fn modified_not_shown_when_not_installed() {
    assert!(!is_modified_local(&agent(), single(None, Some(ORIGINAL), false)));
}

#[test]
fn modified_not_shown_without_vendor_cache() {
    assert!(!is_modified_local(&agent(), single(Some(MODIFIED), None, false)));
}

#[test]
fn dir_entry_modified_shows_modified() {
    let entry = dir_skill();
    let state = LocalState::Dir {
        files: tool(MODIFIED),
        cached_files: Some(tool(ORIGINAL)),
        has_patches: false,
    };
    assert!(
        is_modified_local(&entry, state),
        "expected modified=true when installed content differs from cache"
    );
}

#[test]
fn dir_entry_clean_shows_not_modified() {
    let entry = dir_skill();
    let state = LocalState::Dir {
        files: tool(ORIGINAL),
        cached_files: Some(tool(ORIGINAL)),
        has_patches: false,
    };
    assert!(
        !is_modified_local(&entry, state),
        "expected modified=false when installed content matches cache"
    );
}

#[test]
fn dir_entry_missing_vendor_dir_not_modified() {
    let entry = dir_skill();
    let state = LocalState::Dir { files: tool(MODIFIED), cached_files: None, has_patches: false };
    assert!(
        !is_modified_local(&entry, state),
        "expected modified=false when vendor cache dir is absent"
    );
}

#[test]
fn local_entry_always_not_modified() {
    let entry = local_entry("foo", "skills/foo.md");
    assert!(
        !is_modified_local(&entry, single(Some(MODIFIED), Some(ORIGINAL), false)),
        "local entries must always report modified=false"
    );
}

#[test]
fn pinned_entry_not_modified() {
    assert!(
        !is_modified_local(&agent(), single(Some(MODIFIED), Some(ORIGINAL), true)),
        "pinned entries must not report as modified"
    );
}

#[test]
fn dir_entry_pinned_not_modified() {
    let state = LocalState::Dir {
        files: tool(MODIFIED),
        cached_files: Some(tool(ORIGINAL)),
        has_patches: true,
    };
    assert!(
        !is_modified_local(&dir_skill(), state),
        "pinned dir entries must not report as modified"
    );
}

#[test]
fn local_entry_existing_path_formats_as_local() {
    let line = format_entry_status(
        &local_entry("foo", "skills/foo.md"),
        &EntryFacts { local_exists: true, ..facts() },
        12,
    );
    assert!(
        line.contains("local") && !line.contains("path missing"),
        "existing path should show 'local' without warning, got: {line}"
    );
}

#[test]
fn local_entry_missing_path_formats_with_warning() {
    let line = format_entry_status(&local_entry("foo", "skills/foo.md"), &facts(), 12);
    assert!(line.contains("path missing"), "missing path should show warning, got: {line}");
    assert!(line.contains("skills/foo.md"), "warning should include the path, got: {line}");
    assert_eq!(line, "foo          local  \u{2717} path missing: skills/foo.md");
}

#[test]
fn summary_counts_skills_and_agents() {
    let manifest = Manifest {
        entries: vec![
            local_entry("a", "a.md"),
            local_entry("b", "b.md"),
            Entry {
                entity_type: EntityType::Agent,
                name: "c".into(),
                source: SourceFields::Github {
                    owner_repo: "o/r".into(),
                    path_in_repo: "c.md".into(),
                    ref_: "main".into(),
                },
            },
        ],
        install_targets: vec![],
    };
    let out = format_summary(&manifest, &vec![]);
    assert!(out.contains("2 skills, 1 agent"), "expected skill/agent counts, got: {out}");
}

#[test]
fn summary_shows_install_targets() {
    let manifest = Manifest {
        entries: vec![local_entry("x", "x.md")],
        install_targets: vec![
            InstallTarget { adapter: "codex".into(), scope: Scope::Local },
            InstallTarget { adapter: "cursor".into(), scope: Scope::Global },
        ],
    };
    let out = format_summary(&manifest, &vec![]);
    assert!(
        out.contains("Install targets: codex (local), cursor (global)"),
        "expected install targets line, got: {out}"
    );
}

#[test]
fn summary_shows_pinned_and_modified() {
    let manifest = Manifest { entries: vec![agent()], install_targets: vec![] };
    let out = format_summary(&manifest, &vec![EntryFacts { modified: true, ..facts() }]);
    assert!(out.contains("1 agent"), "expected agent count, got: {out}");
    assert!(out.contains("1 modified"), "expected modified flag, got: {out}");
    let out = format_summary(&manifest, &vec![EntryFacts { pinned: true, ..facts() }]);
    assert!(out.contains("1 pinned"), "{out}");
}

#[test]
fn summary_singular_skill() {
    let manifest = Manifest {
        entries: vec![local_entry("solo", "solo.md")],
        install_targets: vec![],
    };
    let out = format_summary(&manifest, &vec![]);
    assert!(
        out.contains("1 skill") && !out.contains("1 skills"),
        "expected singular 'skill', got: {out}"
    );
}

#[test]
fn upstream_is_compared_with_the_lock() {
    let e = agent();
    assert_eq!(
        upstream_status_for_github(&e, SHA, &Some(SHA.to_string())),
        "up to date  sha=aaaaaaaaaaaa"
    );
    assert_eq!(
        upstream_status_for_github(&e, SHA, &Some("bbbbbbbbbbbbbbbb".to_string())),
        "outdated    locked=aaaaaaaaaaaa  upstream=bbbbbbbbbbbb"
    );
}

#[test]
fn upstream_is_asked_only_for_cached_entries() {
    let e = agent();
    let cached = EntryFacts {
        locked_sha: Some(SHA.to_string()),
        cached_sha: Some(SHA.to_string()),
        ..facts()
    };
    assert_eq!(resolve_upstream_sha(&e, &cached), Some(("owner/repo", "main")));
    assert_eq!(resolve_upstream_sha(&e, &facts()), None);
    assert_eq!(resolve_upstream_sha(&local_entry("a", "a.md"), &cached), None);
}

#[test]
fn revisions_are_remembered() {
    let mut cache = ShaCache::new();
    assert_eq!(cache.lookup("o/r", "main"), None);
    cache.remember("o/r", "main", SHA);
    assert_eq!(cache.lookup("o/r", "main").as_deref(), Some(SHA));
    assert_eq!(cache.lookup("o/r", "v1"), None);
}

#[test]
fn annotations() {
    assert_eq!(build_annotation(false, false), "");
    assert_eq!(build_annotation(true, false), "  [pinned]");
    assert_eq!(build_annotation(true, true), "  [pinned]  [modified]");
}

#[test]
fn columns_are_as_wide_as_the_longest_name() {
    assert_eq!(column_width(&vec![]), 12);
    assert_eq!(column_width(&vec![local_entry("a-much-longer-name", "a.md")]), 20);
}

#[test]
fn edits_are_told_from_upstream() {
    let s = |t: &str| Some(t.to_string());
    assert!(check_single_file_modified(&s("a"), &s("b"), false));
    assert!(!check_single_file_modified(&s("a"), &s("b"), true));
    assert!(check_dir_files_modified(tool("a"), &Some(tool("b")), false));
    assert!(!check_dir_files_modified(tool("a"), &Some(tool("a")), false));
}
