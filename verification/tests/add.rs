//! Adding entries to a manifest.

use skillfile::cli::{
    handle_add, is_discovery_path, parse_entity_type, wants_quiet, AddRequest, AddSource,
};
use skillfile::commands::add::{
    cmd_add, cmd_add_bulk, discover_top_level_dirs, entry_from_github, entry_from_local,
    entry_from_url, looks_like_owner_repo, path_hint, repo_api_url, roll_back,
    validate_github_repo, AddTally, BulkAddArgs, BulkStep, GithubEntryArgs,
};
use skillfile::commands::sort::format_line;
use skillfile::error::SkillfileError;
use skillfile::models::{EntityType, SourceFields, DEFAULT_REF};
use skillfile::parser::parse_manifest_str;

#[test]
fn add_no_manifest() {
    let entry = entry_from_local("skill", "skills/foo.md", None);
    let result = cmd_add(&entry, "/repo", None);
    assert!(result.is_err());
    assert!(result.err().unwrap().to_string().contains("not found"));
}

#[test]
fn add_local_entry() {
    let entry = entry_from_local("skill", "skills/foo.md", None);
    let text = cmd_add(&entry, "/repo", Some("")).unwrap().manifest_text;
    assert!(text.contains("local  skill  skills/foo.md"));
}

#[test]
fn add_local_entry_explicit_name() {
    let entry = entry_from_local("skill", "skills/foo.md", Some("my-foo"));
    let text = cmd_add(&entry, "/repo", Some("")).unwrap().manifest_text;
    assert!(text.contains("local  skill  my-foo  skills/foo.md"));
}

#[test]
fn add_github_entry_inferred_name() {
    let entry = entry_from_github(&GithubEntryArgs {
        entity_type: "agent",
        owner_repo: "owner/repo",
        path: "agents/agent.md",
        ref_: None,
        name: None,
    });
    let text = cmd_add(&entry, "/repo", Some("")).unwrap().manifest_text;
    assert!(text.contains("github  agent  owner/repo  agents/agent.md"));
}

#[test]
fn add_github_entry_explicit_name_and_ref() {
    let entry = entry_from_github(&GithubEntryArgs {
        entity_type: "agent",
        owner_repo: "owner/repo",
        path: "agents/agent.md",
        ref_: Some("v1.0"),
        name: Some("my-agent"),
    });
    let text = cmd_add(&entry, "/repo", Some("")).unwrap().manifest_text;
    assert!(text.contains("github  agent  my-agent  owner/repo  agents/agent.md  v1.0"));
}

#[test]
fn add_url_entry() {
    let entry = entry_from_url("skill", "https://example.com/skill.md", None);
    let text = cmd_add(&entry, "/repo", Some("")).unwrap().manifest_text;
    assert!(text.contains("url  skill  https://example.com/skill.md"));
}

#[test]
fn add_url_entry_explicit_name() {
    let entry = entry_from_url("skill", "https://example.com/skill.md", Some("my-skill"));
    let text = cmd_add(&entry, "/repo", Some("")).unwrap().manifest_text;
    assert!(text.contains("url  skill  my-skill  https://example.com/skill.md"));
}

#[test]
fn add_duplicate_name_errors() {
    let entry = entry_from_local("agent", "agents/foo.md", Some("foo"));
    let result = cmd_add(&entry, "/repo", Some("local  skill  skills/foo.md\n"));
    assert!(result.is_err());
    assert!(result.err().unwrap().to_string().contains("already exists"));
}

#[test]
fn add_appends_to_existing_content() {
    let entry = entry_from_local("skill", "skills/bar.md", None);
    let text = cmd_add(&entry, "/repo", Some("local  skill  skills/foo.md
")).unwrap().manifest_text;
    assert!(text.contains("skills/foo.md"));
    assert!(text.contains("skills/bar.md"));
}

#[test]
fn add_github_dir_entry() {
    let entry = entry_from_github(&GithubEntryArgs {
        entity_type: "agent",
        owner_repo: "owner/repo",
        path: "agents/core-dev",
        ref_: None,
        name: None,
    });
    let text = cmd_add(&entry, "/repo", Some("")).unwrap().manifest_text;
    // Name "core-dev" is inferred from path, so omitted from line
    assert!(text.contains("github  agent  owner/repo  agents/core-dev"));
}

#[test]
fn add_no_install_targets_prints_message() {
    let entry = entry_from_local("skill", "skills/foo.md", None);
    // Should succeed without install targets
    cmd_add(&entry, "/repo", Some("")).unwrap();
}

#[test]
fn format_line_local() {
    // Name differs from the inferred stem ("foo"), so it must appear in the line.
    let entry = entry_from_local("skill", "skills/foo.md", Some("my-foo"));
    let line = format_line(&entry);
    assert_eq!(line, "local  skill  my-foo  skills/foo.md");
}

#[test]
fn format_line_local_inferred_name_omitted() {
    // When name matches the inferred stem, it is omitted from the line.
    let entry = entry_from_local("skill", "skills/foo.md", None);
    let line = format_line(&entry);
    assert_eq!(line, "local  skill  skills/foo.md");
}

#[test]
fn format_line_github() {
    let entry = entry_from_github(&GithubEntryArgs {
        entity_type: "agent",
        owner_repo: "owner/repo",
        path: "agents/tool.md",
        ref_: Some("v2.0"),
        name: Some("my-tool"),
    });
    let line = format_line(&entry);
    assert_eq!(
        line,
        "github  agent  my-tool  owner/repo  agents/tool.md  v2.0"
    );
}

#[test]
fn format_line_github_default_ref_omitted() {
    // When ref is "main" (DEFAULT_REF) it must be omitted from the line.
    let entry = entry_from_github(&GithubEntryArgs {
        entity_type: "skill",
        owner_repo: "owner/repo",
        path: "skills/tool.md",
        ref_: None,
        name: Some("tool"),
    });
    let line = format_line(&entry);
    assert_eq!(line, "github  skill  owner/repo  skills/tool.md");
}

#[test]
fn format_line_url() {
    // Name differs from the inferred stem ("my-skill"), so it must appear in the line.
    let entry = entry_from_url(
        "skill",
        "https://example.com/my-skill.md",
        Some("custom-name"),
    );
    let line = format_line(&entry);
    assert_eq!(
        line,
        "url  skill  custom-name  https://example.com/my-skill.md"
    );
}

#[test]
fn entry_from_github_default_ref() {
    let entry = entry_from_github(&GithubEntryArgs {
        entity_type: "skill",
        owner_repo: "o/r",
        path: "path.md",
        ref_: None,
        name: None,
    });
    match &entry.source {
        SourceFields::Github { ref_, .. } => {
            assert_eq!(
                ref_, DEFAULT_REF,
                "expected DEFAULT_REF ('main') when ref is None"
            );
        }
        _ => panic!("expected Github source"),
    }
}

#[test]
fn entry_from_github_explicit_ref() {
    let entry = entry_from_github(&GithubEntryArgs {
        entity_type: "skill",
        owner_repo: "o/r",
        path: "path.md",
        ref_: Some("v1.2.3"),
        name: None,
    });
    match &entry.source {
        SourceFields::Github { ref_, .. } => {
            assert_eq!(ref_, "v1.2.3");
        }
        _ => panic!("expected Github source"),
    }
}

#[test]
fn entry_from_url_inferred_name() {
    let entry = entry_from_url("skill", "https://example.com/browser-skill.md", None);
    assert_eq!(
        entry.name, "browser-skill",
        "name should be inferred from the URL filename stem"
    );
}

#[test]
fn entry_from_url_explicit_name_overrides_inference() {
    let entry = entry_from_url("agent", "https://example.com/agent.md", Some("my-agent"));
    assert_eq!(entry.name, "my-agent");
}

#[test]
fn add_says_what_was_added() {
    let entry = entry_from_local("skill", "skills/foo.md", None);
    let plan = cmd_add(&entry, "/repo", Some("")).unwrap();
    assert!(!plan.deploy);
    assert_eq!(
        plan.messages,
        vec![
            "Added: local  skill  skills/foo.md",
            "No install targets configured \u{2014} run `skillfile init` then `skillfile install` to deploy.",
        ]
    );
    let plan = cmd_add(&entry, "/repo", Some("install  cursor  local\n")).unwrap();
    assert!(plan.deploy);
    assert_eq!(plan.messages, vec!["Added: local  skill  skills/foo.md"]);
    assert_eq!(
        plan.manifest_text,
        "# install  <platform>  <scope>\ninstall  cursor  local\n\n# --- Skills ---\n# github  skill  [name]  <owner/repo>  <path-or-dir>  [ref]\n\nlocal  skill  skills/foo.md\n"
    );
}

#[test]
fn added_entries_come_beside_those_before() {
    let before = "install  cursor  local\nlocal  skill  skills/foo.md\nlocal  agent  a.md\n";
    let entry = entry_from_url("agent", "https://e.org/b.md", Some("zed"));
    let text = cmd_add(&entry, "/repo", Some(before)).unwrap().manifest_text;
    let old = parse_manifest_str(before).manifest;
    let new = parse_manifest_str(&text).manifest;
    assert_eq!(new.entries.len(), old.entries.len() + 1);
    for e in &old.entries {
        assert!(new.entries.iter().any(|n| n.name == e.name && n.to_string() == e.to_string()));
    }
    assert!(new.entries.iter().any(|n| n.name == "zed" && n.url() == "https://e.org/b.md"));
    assert_eq!(new.install_targets.len(), 1);
}

#[test]
fn add_errors_are_exact() {
    let entry = entry_from_local("skill", "skills/foo.md", None);
    match cmd_add(&entry, "/repo", Some("local  skill  x/foo.md\n")) {
        Err(SkillfileError::Manifest(m)) => {
            assert_eq!(m, "entry 'foo' already exists in Skillfile")
        }
        _ => panic!("expected an error"),
    }
    match cmd_add(&entry, "/repo", None) {
        Err(SkillfileError::Manifest(m)) => {
            assert_eq!(m, "Skillfile not found in /repo. Create one and run `skillfile init`.")
        }
        _ => panic!("expected an error"),
    }
}

#[test]
fn unknown_types_are_skills() {
    assert_eq!(entry_from_local("hook", "a.md", None).entity_type, EntityType::Skill);
    assert_eq!(entry_from_local("agent", "a.md", None).entity_type, EntityType::Agent);
}

#[test]
fn rolling_back_restores_both_files() {
    let r = roll_back("foo", "old text\n", Some("{}".to_string()));
    assert_eq!(r.manifest_text, "old text\n");
    assert_eq!(r.lock_text.as_deref(), Some("{}"));
    assert_eq!(r.message, "Rolled back: removed 'foo' from Skillfile");
    assert!(roll_back("foo", "", None).lock_text.is_none());
}

fn bulk(entries: &[&str], no_interactive: bool, is_terminal: bool) -> Result<BulkStep, SkillfileError> {
    let args = BulkAddArgs {
        entity_type: "skill",
        owner_repo: "o/r",
        base_path: "skills",
        ref_: None,
        no_interactive,
    };
    let list: Vec<String> = entries.iter().map(|e| e.to_string()).collect();
    cmd_add_bulk(&args, &list, is_terminal)
}

#[test]
fn bulk_addition_steps() {
    match bulk(&[], true, true) {
        Err(SkillfileError::Manifest(m)) => assert_eq!(m, "no skills found under 'skills' in o/r"),
        _ => panic!("expected an error"),
    }
    assert!(matches!(bulk(&["a"], false, false), Ok(BulkStep::Add(v)) if v == vec!["a"]));
    assert!(matches!(bulk(&["a", "b"], true, false), Ok(BulkStep::Add(v)) if v == vec!["a", "b"]));
    assert!(matches!(bulk(&["a", "b"], false, true), Ok(BulkStep::Choose)));
    match bulk(&["a", "b"], false, false) {
        Err(SkillfileError::Manifest(m)) => {
            assert_eq!(m, "interactive selection requires a terminal; use --no-interactive")
        }
        _ => panic!("expected an error"),
    }
}

#[test]
fn bulk_tally() {
    let mut tally = AddTally::new();
    assert!(tally.record("a", &Ok(())).is_none());
    assert_eq!(tally.summary("skill"), "Added 1 skill to Skillfile.");
    let warning = tally.record("b", &Err(SkillfileError::Manifest("taken".to_string()))).unwrap();
    assert!(warning.contains("b") && warning.contains("taken"), "{warning}");
    tally.record("c", &Ok(()));
    assert_eq!(tally.summary("skill"), "Added 2 skills to Skillfile. (1 skipped)");
}

#[test]
fn repositories_are_looked_up() {
    assert_eq!(repo_api_url("o/r"), "https://api.github.com/repos/o/r");
    assert!(validate_github_repo("o/r", true).is_ok());
    match validate_github_repo("o/r", false) {
        Err(SkillfileError::Network(m)) => assert_eq!(m, "repository 'o/r' not found on GitHub"),
        _ => panic!("expected an error"),
    }
    assert!(looks_like_owner_repo("o/r"));
    assert!(!looks_like_owner_repo("/r"));
    assert!(!looks_like_owner_repo("owner"));
}

#[test]
fn top_level_directories() {
    let paths: Vec<String> = ["skills/a", "agents/b.md", "skills/c", "x"].iter().map(|p| p.to_string()).collect();
    let dirs = discover_top_level_dirs(&paths);
    assert_eq!(dirs, vec!["agents", "skills", "x"]);
    assert_eq!(path_hint(&dirs), "found: agents, skills, x  (or . for all)");
    assert_eq!(path_hint(&vec![]), "press Enter to scan the entire repo");
}

#[test]
fn entity_types_on_the_command_line() {
    assert_eq!(parse_entity_type("skill").unwrap(), "skill");
    assert_eq!(parse_entity_type("agent").unwrap(), "agent");
    assert!(parse_entity_type("hook").is_err());
}

#[test]
fn paths_that_are_searched() {
    assert!(is_discovery_path("."));
    assert!(is_discovery_path("skills/"));
    assert!(!is_discovery_path("skills/a.md"));
}

#[test]
fn add_requests() {
    let source = AddSource::Github {
        entity_type: "skill".to_string(),
        owner_repo: "o/r".to_string(),
        path: "skills/".to_string(),
        ref_: Some("v1".to_string()),
        name: None,
        no_interactive: true,
    };
    match handle_add(source) {
        AddRequest::Discover { entity_type, owner_repo, base_path, ref_, no_interactive } => {
            assert_eq!((entity_type.as_str(), owner_repo.as_str(), base_path.as_str()), ("skill", "o/r", "skills/"));
            assert_eq!(ref_.as_deref(), Some("v1"));
            assert!(no_interactive);
        }
        _ => panic!("expected a search"),
    }
    let source = AddSource::Url { entity_type: "agent".to_string(), url: "https://e.org/x.md".to_string(), name: None };
    match handle_add(source) {
        AddRequest::One(e) => assert_eq!(e.to_string(), "url/agent/x"),
        _ => panic!("expected an entry"),
    }
}

#[test]
fn quiet_by_flag_or_variable() {
    assert!(wants_quiet(true, None));
    assert!(!wants_quiet(false, None));
    assert!(wants_quiet(false, Some("1")));
}

#[test]
fn adding_to_a_manifest_without_a_final_line_feed() {
    let entry = entry_from_local("skill", "skills/bar.md", None);
    for text in ["local  skill  skills/foo.md", "local  skill  skills/foo.md\r"] {
        let plan = cmd_add(&entry, "/repo", Some(text)).unwrap();
        let entries = parse_manifest_str(&plan.manifest_text).manifest.entries;
        let found: Vec<(String, String)> = entries
            .iter()
            .map(|e| match &e.source {
                SourceFields::Local { path } => (e.name.clone(), path.clone()),
                _ => panic!("not a local entry"),
            })
            .collect();
        assert_eq!(
            found,
            vec![
                ("bar".to_string(), "skills/bar.md".to_string()),
                ("foo".to_string(), "skills/foo.md".to_string()),
            ]
        );
    }
}

#[test]
fn a_new_entry_takes_its_place() {
    let text = "local  skill  skills/b.md\nlocal  agent  agents/c.md\nlocal  skill  skills/d.md\n";
    let entry = entry_from_local("agent", "agents/a.md", None);
    let plan = cmd_add(&entry, "/repo", Some(text)).unwrap();
    let manifest = parse_manifest_str(&plan.manifest_text).manifest;
    let names: Vec<&str> = manifest.entries.iter().map(|e| e.name.as_str()).collect();
    assert_eq!(names, vec!["a", "c", "b", "d"]);
}

#[test]
fn a_path_with_a_space_is_read_back() {
    let entry = entry_from_local("skill", "my dir/foo.md", None);
    let plan = cmd_add(&entry, "/repo", Some("local  skill  \"other dir/bar.md\"\n")).unwrap();
    assert_eq!(plan.messages[0], "Added: local  skill  \"my dir/foo.md\"");
    let entries = parse_manifest_str(&plan.manifest_text).manifest.entries;
    let paths: Vec<&str> = entries
        .iter()
        .map(|e| match &e.source {
            SourceFields::Local { path } => path.as_str(),
            _ => panic!("not a local entry"),
        })
        .collect();
    assert_eq!(paths, vec!["my dir/foo.md", "other dir/bar.md"]);
}
