//! Pinning local edits of an entry.

use skillfile::commands::files::{load_cache_files, pick_cache_files, FileText};
use skillfile::commands::installed_variants::{
    installed_dir_variants, installed_single_file_variants, DirVariant, FoundDir, FoundFile,
    SingleFileVariant,
};
use skillfile::commands::multi_target::{
    divergent_targets_message, format_single_file_diff, modified_dir_content,
    modified_dir_variants, modified_single_file_variants, SingleFileDiff,
};
use skillfile::commands::pin::{
    cmd_pin, cmd_unpin, pin_dir_entry, pin_entry, pin_single_file_content, PinPlan, PinSource,
};
use skillfile::error::SkillfileError;
use skillfile::models::{EntityType, Entry, InstallTarget, Manifest, Scope, SourceFields};
use skillfile::parser::{find_entry_in, parse_manifest_str};
use skillfile::patch::apply_patch_pure;
use skillfile::platforms::Platform;

fn github_entry_skill(name: &str, path_in_repo: &str) -> Entry {
    Entry {
        entity_type: EntityType::Skill,
        name: name.to_string(),
        source: SourceFields::Github {
            owner_repo: "owner/repo".into(),
            path_in_repo: path_in_repo.to_string(),
            ref_: "main".into(),
        },
    }
}

fn file(name: &str, text: &str) -> FileText {
    FileText { name: name.to_string(), text: text.to_string() }
}

fn copy(label: &str, content: &str) -> SingleFileVariant {
    SingleFileVariant { label: label.to_string(), content: content.to_string() }
}

fn dir_copy(label: &str, files: Vec<FileText>) -> DirVariant {
    DirVariant { label: label.to_string(), files }
}

fn single(cached: Option<&str>, installed: Vec<SingleFileVariant>) -> PinSource {
    PinSource::Single { cached: cached.map(|c| c.to_string()), installed }
}

fn pin_test(cached: &str, installed: &str, dry_run: bool) -> PinPlan {
    let entry = github_entry_skill("test", "skills/test.md");
    let source = single(Some(cached), vec![copy("cursor (local)", installed)]);
    pin_entry(&entry, true, &source, dry_run).ok().unwrap()
}

fn message(r: Result<PinPlan, SkillfileError>) -> String {
    r.err().unwrap().to_string()
}

#[test]
fn pin_local_entry_skipped() {
    let entry = Entry {
        entity_type: EntityType::Skill,
        name: "foo".into(),
        source: SourceFields::Local { path: "skills/foo.md".into() },
    };
    let plan = pin_entry(&entry, false, &single(None, vec![]), false).ok().unwrap();
    assert!(plan.status.contains("local entry \u{2014} skipped"));
    assert!(plan.patch.is_none());
    assert!(plan.files.is_empty());
}

#[test]
fn pin_not_locked_errors() {
    let entry = github_entry_skill("test", "agents/test.md");
    let result = pin_entry(&entry, false, &single(None, vec![]), false);
    assert_eq!(
        message(result),
        "'test' is not locked \u{2014} run `skillfile install` first"
    );
}

#[test]
fn pin_not_cached_errors() {
    let entry = github_entry_skill("test", "skills/test.md");
    let result = pin_entry(&entry, true, &single(None, vec![]), false);
    assert!(message(result).contains("not cached"));
}

#[test]
fn pin_not_installed_errors() {
    let entry = github_entry_skill("test", "skills/test.md");
    let result = pin_entry(&entry, true, &single(Some("upstream content\n"), vec![]), false);
    assert!(message(result).contains("not installed"));
}

#[test]
fn pin_matches_upstream_nothing_to_pin() {
    let content = "# Test Skill\n\nSome content.\n";
    let plan = pin_test(content, content, false);
    assert!(plan.status.contains("matches upstream \u{2014} nothing to pin"));
    assert!(plan.patch.is_none());
}

#[test]
fn pin_captures_edits() {
    let plan = pin_test("# Test\n\nOriginal content.\n", "# Test\n\nModified content.\n", false);
    assert!(plan.status.contains("Pinned 'test'"));
    let patch_text = plan.patch.unwrap();
    assert!(patch_text.contains("-Original content."));
    assert!(patch_text.contains("+Modified content."));
    assert_eq!(
        apply_patch_pure("# Test\n\nOriginal content.\n", &patch_text).unwrap(),
        "# Test\n\nModified content.\n"
    );
}

#[test]
fn pin_dry_run_does_not_write_patch() {
    let plan = pin_test("original\n", "modified\n", true);
    assert!(plan.status.contains("Would pin 'test'"));
    assert!(plan.patch.is_none());
    assert!(plan.files.is_empty());
}

#[test]
fn pin_entry_uses_second_target_when_first_is_clean() {
    let entry = github_entry_skill("test", "skills/test.md");
    let source = single(
        Some("original\n"),
        vec![copy("cursor (local)", "original\n"), copy("copilot (local)", "modified\n")],
    );
    let plan = pin_entry(&entry, true, &source, false).ok().unwrap();
    assert!(plan.status.contains("Pinned 'test'"));
    assert!(plan.patch.unwrap().contains("+modified"));
}

#[test]
fn pin_entry_errors_on_divergent_multi_target_edits() {
    let entry = github_entry_skill("test", "skills/test.md");
    let source = single(
        Some("original\n"),
        vec![copy("cursor (local)", "modified one\n"), copy("copilot (local)", "modified two\n")],
    );
    let text = message(pin_entry(&entry, true, &source, false));
    assert!(text.contains("divergent edits across install targets"));
    assert!(text.contains("cursor (local), copilot (local)"));
}

#[test]
fn pin_dir_entry_not_cached_errors() {
    let result = pin_dir_entry("lang-pro", &None, &vec![], false);
    assert!(message(result).contains("not cached"));
}

#[test]
fn cmd_pin_entry_not_found_errors() {
    let m: Manifest = parse_manifest_str("local  skill  skills/foo.md\n").manifest;
    let result = find_entry_in("nonexistent", &m);
    assert!(result.err().unwrap().to_string().contains("nonexistent"));
}

#[test]
fn cmd_pin_prints_pinned_message_when_edits_exist() {
    let plan = pin_test("# MySkill\n\nOriginal.\n", "# MySkill\n\nModified.\n", false);
    assert_eq!(
        cmd_pin(&plan.status),
        "Pinned 'test' \u{2014} customisations saved to .skillfile/patches/"
    );
    assert!(plan.patch.is_some(), "patch file must be written");
}

#[test]
fn cmd_pin_dry_run_prints_would_pin_message() {
    let plan = pin_test("original\n", "modified\n", true);
    assert_eq!(cmd_pin(&plan.status), "Would pin 'test' [dry-run]");
    assert!(plan.patch.is_none(), "dry-run must not write a patch file");
}

#[test]
fn cmd_pin_prints_nothing_to_pin_when_identical() {
    let content = "# MySkill\n\nSame content.\n";
    let plan = pin_test(content, content, false);
    assert_eq!(cmd_pin(&plan.status), "'test' matches upstream \u{2014} nothing to pin");
}

#[test]
fn pin_dir_entry_writes_patch_only_for_modified_files() {
    let cached = Some(vec![
        file("SKILL.md", "# Lang Pro\n\nOriginal.\n"),
        file("extra.md", "# Extra\n\nUnchanged.\n"),
    ]);
    let installed = vec![dir_copy(
        "cursor (local)",
        vec![
            file("SKILL.md", "# Lang Pro\n\nModified.\n"),
            file("extra.md", "# Extra\n\nUnchanged.\n"),
        ],
    )];
    let plan = pin_dir_entry("lang-pro", &cached, &installed, false).ok().unwrap();
    assert!(plan.status.contains("Pinned"), "status must start with 'Pinned': {}", plan.status);
    assert!(plan.status.contains("lang-pro"), "status must contain entry name");
    assert!(plan.status.contains("SKILL.md"), "status must list modified file");
    assert!(plan.patch.is_none());
    let skill_patch = plan.files.iter().find(|f| f.filename == "SKILL.md").unwrap();
    let patch_text = skill_patch.patch.as_ref().unwrap();
    assert!(patch_text.contains("-Original."), "patch must remove old line");
    assert!(patch_text.contains("+Modified."), "patch must add new line");
    assert!(
        !plan.files.iter().any(|f| f.filename == "extra.md" && f.patch.is_some()),
        "patch must NOT be written for unchanged file"
    );
}

#[test]
fn pin_dir_entry_dry_run_writes_no_patches() {
    let cached = Some(vec![file("SKILL.md", "# Lang Pro\n\nOriginal.\n")]);
    let installed =
        vec![dir_copy("cursor (local)", vec![file("SKILL.md", "# Lang Pro\n\nModified.\n")])];
    let plan = pin_dir_entry("lang-pro", &cached, &installed, true).ok().unwrap();
    assert!(
        plan.status.contains("Would pin"),
        "dry-run status must start with 'Would pin': {}",
        plan.status
    );
    assert!(plan.files.is_empty(), "dry-run must not create patches directory");
}

#[test]
fn pin_dir_entry_all_identical_returns_nothing_to_pin() {
    let content = "# Identical\n\nSame content everywhere.\n";
    let cached = Some(vec![file("SKILL.md", content)]);
    let installed = vec![dir_copy("cursor (local)", vec![file("SKILL.md", content)])];
    let plan = pin_dir_entry("lang-pro", &cached, &installed, false).ok().unwrap();
    assert!(
        plan.status.contains("matches upstream"),
        "must report nothing to pin when all files identical: {}",
        plan.status
    );
}

#[test]
fn pin_dir_entry_installed_not_found_errors() {
    let cached = Some(vec![file("SKILL.md", "# Lang Pro\n")]);
    let result = pin_dir_entry("lang-pro", &cached, &vec![], false);
    assert!(message(result).contains("not installed"), "error must say 'not installed'");
}

#[test]
fn cmd_pin_dir_entry_happy_path() {
    let entry = github_entry_skill("lang-pro", "skills/lang-pro");
    let source = PinSource::Dir {
        cached_files: Some(vec![file("SKILL.md", "# Lang Pro\n\nOriginal.\n")]),
        installed_dirs: vec![dir_copy(
            "cursor (local)",
            vec![file("SKILL.md", "# Lang Pro\n\nCustomised.\n")],
        )],
    };
    let plan = pin_entry(&entry, true, &source, false).ok().unwrap();
    assert_eq!(
        cmd_pin(&plan.status),
        "Pinned 'lang-pro' (SKILL.md) \u{2014} customisations saved to .skillfile/patches/"
    );
    assert!(plan.files[0].patch.is_some(), "patch must be written for SKILL.md");
}

#[test]
fn cmd_pin_dir_entry_dry_run() {
    let entry = github_entry_skill("lang-pro", "skills/lang-pro");
    let source = PinSource::Dir {
        cached_files: Some(vec![file("SKILL.md", "# Lang Pro\n\nOriginal.\n")]),
        installed_dirs: vec![dir_copy(
            "cursor (local)",
            vec![file("SKILL.md", "# Lang Pro\n\nCustomised.\n")],
        )],
    };
    let plan = pin_entry(&entry, true, &source, true).ok().unwrap();
    assert!(cmd_pin(&plan.status).ends_with(" [dry-run]"));
    assert!(plan.files.is_empty(), "dry-run must not write any patches");
}

#[test]
fn cmd_unpin_not_pinned_is_ok() {
    let plan = cmd_unpin("myskill", false, false);
    assert!(!plan.reinstall && !plan.remove_patch && !plan.remove_dir_patches);
    assert_eq!(plan.message, "'myskill' is not pinned");
}

#[test]
fn cmd_unpin_entry_not_found_errors() {
    let m: Manifest = parse_manifest_str("local  skill  skills/foo.md\n").manifest;
    let result = find_entry_in("nonexistent", &m);
    assert!(
        result.err().unwrap().to_string().contains("nonexistent"),
        "error must mention the entry name"
    );
}

#[test]
fn unpinning_removes_the_patches_there_are() {
    let plan = cmd_unpin("myskill", true, false);
    assert!(plan.reinstall && plan.remove_patch && !plan.remove_dir_patches);
    assert_eq!(plan.message, "Unpinned 'myskill' \u{2014} restored to upstream version");
    assert!(cmd_unpin("myskill", false, true).remove_dir_patches);
}

#[test]
fn pin_entry_routes_to_pin_dir_entry_for_dir_entries() {
    let entry = github_entry_skill("lang-pro", "skills/lang-pro");
    let source = PinSource::Dir { cached_files: None, installed_dirs: vec![] };
    let result = pin_entry(&entry, true, &source, false);
    assert!(message(result).contains("not cached"), "error must say 'not cached'");
}

#[test]
fn pin_dir_entry_skips_meta_file() {
    let names = vec![".meta".to_string(), "SKILL.md".to_string()];
    assert_eq!(pick_cache_files(&names), vec!["SKILL.md"]);
    assert_eq!(load_cache_files(&names), vec!["SKILL.md"]);
    let content = "# Lang Pro\n\nSame.\n";
    let on_disk = [file(".meta", "{\"sha\":\"abc123\"}"), file("SKILL.md", content)];
    let cached: Vec<FileText> = load_cache_files(&names)
        .iter()
        .map(|n| {
            let f = on_disk.iter().find(|f| &f.name == n).unwrap();
            file(&f.name, &f.text)
        })
        .collect();
    let installed = vec![dir_copy("cursor (local)", vec![file("SKILL.md", content)])];
    let plan = pin_dir_entry("lang-pro", &Some(cached), &installed, false).ok().unwrap();
    assert!(
        plan.status.contains("matches upstream"),
        "must report nothing to pin when only .meta differs: {}",
        plan.status
    );
    assert!(plan.files.iter().all(|f| f.filename != ".meta"), ".meta must never produce a patch");
}

#[test]
fn cache_files_are_ordered_where_they_are_loaded() {
    let names = vec!["b".to_string(), "a".to_string(), "sub/.meta".to_string(), "b".to_string()];
    assert_eq!(pick_cache_files(&names), vec!["b", "a", "b"]);
    assert_eq!(load_cache_files(&names), vec!["a", "b"]);
}

#[test]
fn pinned_edits_come_back() {
    let cached = Some(vec![file("a.md", "one\ntwo\nthree\n"), file("b.md", "x\n")]);
    let installed =
        vec![dir_copy("cursor (local)", vec![file("a.md", "one\n2\nthree\nfour\n"), file("b.md", "y\n")])];
    let plan = pin_dir_entry("d", &cached, &installed, false).ok().unwrap();
    assert_eq!(plan.files.len(), 2);
    for f in &plan.files {
        let before = cached.as_ref().unwrap().iter().find(|c| c.name == f.filename).unwrap();
        let after = installed[0].files.iter().find(|c| c.name == f.filename).unwrap();
        let patch = f.patch.as_ref().unwrap();
        assert_eq!(apply_patch_pure(&before.text, patch).unwrap(), after.text);
    }
}

#[test]
fn divergent_directories_are_refused() {
    let cached = Some(vec![file("a.md", "x\n")]);
    let installed = vec![
        dir_copy("cursor (local)", vec![file("a.md", "y\n")]),
        dir_copy("codex (local)", vec![file("a.md", "z\n")]),
    ];
    assert!(message(pin_dir_entry("d", &cached, &installed, false)).contains("divergent edits"));
}

#[test]
fn one_file_is_pinned_by_its_content() {
    let copies = vec![copy("t", "b\n")];
    let plan = pin_single_file_content("x", "a\n", &copies, false).ok().unwrap();
    assert_eq!(plan.patch.unwrap(), "--- a/x.md\n+++ b/x.md\n@@ -1 +1 @@\n-a\n+b\n");
}

#[test]
fn copies_are_found_where_the_platform_takes_them() {
    let platforms = vec![
        Platform { name: "cursor".to_string(), takes_skills: true, takes_agents: true },
        Platform { name: "workers".to_string(), takes_skills: false, takes_agents: true },
    ];
    let at = |adapter: &str| InstallTarget { adapter: adapter.to_string(), scope: Scope::Local };
    let found = vec![
        FoundFile { target: at("workers"), content: Some("a".to_string()) },
        FoundFile { target: at("cursor"), content: Some("b".to_string()) },
        FoundFile { target: at("cursor"), content: None },
        FoundFile { target: at("unknown"), content: Some("c".to_string()) },
    ];
    let entry = github_entry_skill("test", "skills/test.md");
    let copies = installed_single_file_variants(&entry, &platforms, &found);
    assert_eq!(copies.len(), 1);
    assert_eq!((copies[0].label.as_str(), copies[0].content.as_str()), ("cursor (local)", "b"));
    let dirs = vec![
        FoundDir { target: at("cursor"), files: None },
        FoundDir { target: at("cursor"), files: Some(vec![file("a.md", "x")]) },
        FoundDir { target: at("workers"), files: Some(vec![file("a.md", "x")]) },
    ];
    let dir_copies = installed_dir_variants(&entry, &platforms, &dirs);
    assert_eq!(dir_copies.len(), 1);
    assert_eq!(dir_copies[0].files[0].name, "a.md");
}

#[test]
fn edited_copies() {
    let copies = vec![copy("a", "x\n"), copy("b", "y\n")];
    let edited = modified_single_file_variants("x\n", &copies);
    assert_eq!(edited.len(), 1);
    assert_eq!(edited[0].label, "b");
    let cache = vec![file("a.md", "x\n"), file("b.md", "y\n")];
    let dir = dir_copy("t", vec![file("b.md", "z\n"), file("c.md", "new\n")]);
    let changed = modified_dir_content(&cache, &dir);
    assert_eq!(changed.len(), 1);
    assert_eq!((changed[0].name.as_str(), changed[0].text.as_str()), ("b.md", "z\n"));
    assert_eq!(modified_dir_variants(&cache, &vec![dir, dir_copy("u", vec![])]).len(), 1);
}

#[test]
fn divergent_targets_are_listed() {
    let e = divergent_targets_message("x", &vec!["a (local)".to_string(), "b (global)".to_string()]);
    assert_eq!(
        e.to_string(),
        "'x' has divergent edits across install targets: a (local), b (global) \u{2014} reconcile them before pinning"
    );
}

#[test]
fn diff_of_one_copy() {
    let text = format_single_file_diff(&SingleFileDiff {
        entry_name: "x",
        sha: "abcdef1234567890",
        target_label: "cursor (local)",
        upstream: "a\n",
        installed_text: "b\n",
    });
    assert!(text.contains("abcdef123456"), "{text}");
    assert!(text.contains("cursor (local)"), "{text}");
    assert!(text.ends_with("-a\n+b\n"), "{text}");
}
