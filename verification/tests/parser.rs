//! Reading manifests.

use skillfile::error::SkillfileError;
use skillfile::models::{EntityType, Entry, InstallTarget, Manifest, Scope, SourceFields};
use skillfile::parser::{
    find_entry_in, infer_name, is_valid_name, parse_manifest, parse_manifest_line, split_line,
    ParseResult,
};

fn parsed(content: &str) -> ParseResult {
    let text = format!("{content}\n");
    parse_manifest(text.as_bytes())
}

#[test]
fn github_entry_explicit_name_and_ref() {
    let r = parsed("github  agent  backend-dev  owner/repo  path/to/agent.md  main");
    assert_eq!(r.manifest.entries.len(), 1);
    let e = &r.manifest.entries[0];
    assert_eq!(e.source_type(), "github");
    assert_eq!(e.entity_type, EntityType::Agent);
    assert_eq!(e.name, "backend-dev");
    assert_eq!(e.owner_repo(), "owner/repo");
    assert_eq!(e.path_in_repo(), "path/to/agent.md");
    assert_eq!(e.ref_(), "main");
}

#[test]
fn local_entry_explicit_name() {
    let r = parsed("local  skill  git-commit  skills/git/commit.md");
    assert_eq!(r.manifest.entries.len(), 1);
    let e = &r.manifest.entries[0];
    assert_eq!(e.source_type(), "local");
    assert_eq!(e.entity_type, EntityType::Skill);
    assert_eq!(e.name, "git-commit");
    assert_eq!(e.local_path(), "skills/git/commit.md");
}

#[test]
fn url_entry_explicit_name() {
    let r = parsed("url  skill  my-skill  https://example.com/skill.md");
    assert_eq!(r.manifest.entries.len(), 1);
    let e = &r.manifest.entries[0];
    assert_eq!(e.source_type(), "url");
    assert_eq!(e.name, "my-skill");
    assert_eq!(e.url(), "https://example.com/skill.md");
}

#[test]
fn github_entry_inferred_name() {
    let r = parsed("github  agent  owner/repo  path/to/agent.md  main");
    assert_eq!(r.manifest.entries.len(), 1);
    let e = &r.manifest.entries[0];
    assert_eq!(e.name, "agent");
    assert_eq!(e.owner_repo(), "owner/repo");
    assert_eq!(e.path_in_repo(), "path/to/agent.md");
    assert_eq!(e.ref_(), "main");
}

#[test]
fn local_entry_inferred_name_from_path() {
    let r = parsed("local  skill  skills/git/commit.md");
    assert_eq!(r.manifest.entries.len(), 1);
    let e = &r.manifest.entries[0];
    assert_eq!(e.name, "commit");
    assert_eq!(e.local_path(), "skills/git/commit.md");
}

#[test]
fn local_entry_inferred_name_from_md_extension() {
    let r = parsed("local  skill  commit.md");
    assert_eq!(r.manifest.entries.len(), 1);
    assert_eq!(r.manifest.entries[0].name, "commit");
}

#[test]
fn url_entry_inferred_name() {
    let r = parsed("url  skill  https://example.com/my-skill.md");
    assert_eq!(r.manifest.entries.len(), 1);
    let e = &r.manifest.entries[0];
    assert_eq!(e.name, "my-skill");
    assert_eq!(e.url(), "https://example.com/my-skill.md");
}

#[test]
fn github_entry_inferred_name_default_ref() {
    let r = parsed("github  agent  owner/repo  path/to/agent.md");
    assert_eq!(r.manifest.entries[0].ref_(), "main");
}

#[test]
fn github_entry_explicit_name_default_ref() {
    let r = parsed("github  agent  my-agent  owner/repo  path/to/agent.md");
    assert_eq!(r.manifest.entries[0].ref_(), "main");
}

#[test]
fn install_target_parsed() {
    let r = parsed("install  cursor  global");
    assert_eq!(r.manifest.install_targets.len(), 1);
    assert_eq!(
        r.manifest.install_targets[0],
        InstallTarget {
            adapter: "cursor".into(),
            scope: Scope::Global,
        }
    );
}

#[test]
fn multiple_install_targets() {
    let r = parsed("install  cursor  global\ninstall  cursor  local");
    assert_eq!(r.manifest.install_targets.len(), 2);
    assert_eq!(r.manifest.install_targets[0].scope, Scope::Global);
    assert_eq!(r.manifest.install_targets[1].scope, Scope::Local);
}

#[test]
fn install_targets_not_in_entries() {
    let r = parsed("install  cursor  global\ngithub  agent  owner/repo  path/to/agent.md");
    assert_eq!(r.manifest.entries.len(), 1);
    assert_eq!(r.manifest.install_targets.len(), 1);
}

#[test]
fn comments_and_blanks_skipped() {
    let r = parsed("# this is a comment\n\n# another comment\nlocal  skill  foo  skills/foo.md");
    assert_eq!(r.manifest.entries.len(), 1);
}

#[test]
fn malformed_too_few_fields() {
    let r = parsed("github  agent");
    assert!(r.manifest.entries.is_empty());
    assert!(r.warnings.iter().any(|w| w.contains("warning")));
}

#[test]
fn unknown_source_type_skipped() {
    let r = parsed("svn  skill  foo  some/path");
    assert!(r.manifest.entries.is_empty());
    assert!(r.warnings.iter().any(|w| w.contains("warning")));
    assert!(r.warnings.iter().any(|w| w.contains("svn")));
}

#[test]
fn inline_comment_stripped() {
    let r = parsed("github  agent  owner/repo  agents/foo.md  # my note");
    assert_eq!(r.manifest.entries.len(), 1);
    let e = &r.manifest.entries[0];
    assert_eq!(e.ref_(), "main"); // not "#"
    assert_eq!(e.name, "foo");
}

#[test]
fn inline_comment_on_install_line() {
    let r = parsed("install  cursor  global  # primary target");
    assert_eq!(r.manifest.install_targets.len(), 1);
    assert_eq!(r.manifest.install_targets[0].scope, Scope::Global);
}

#[test]
fn inline_comment_after_ref() {
    let r = parsed("github  agent  my-agent  owner/repo  agents/foo.md  v1.0  # pinned version");
    assert_eq!(r.manifest.entries[0].ref_(), "v1.0");
}

#[test]
fn quoted_path_with_spaces() {
    let text = "local  skill  my-skill  \"skills/my dir/foo.md\"\n";
    let r = parse_manifest(text.as_bytes());
    assert_eq!(r.manifest.entries.len(), 1);
    assert_eq!(r.manifest.entries[0].local_path(), "skills/my dir/foo.md");
}

#[test]
fn quoted_github_path() {
    let text = "github  skill  owner/repo  \"path with spaces/skill.md\"\n";
    let r = parse_manifest(text.as_bytes());
    assert_eq!(r.manifest.entries.len(), 1);
    assert_eq!(
        r.manifest.entries[0].path_in_repo(),
        "path with spaces/skill.md"
    );
}

#[test]
fn mixed_quoted_and_unquoted() {
    let text = "github  agent  my-agent  owner/repo  \"agents/path with spaces/foo.md\"\n";
    let r = parse_manifest(text.as_bytes());
    assert_eq!(r.manifest.entries.len(), 1);
    assert_eq!(r.manifest.entries[0].name, "my-agent");
    assert_eq!(
        r.manifest.entries[0].path_in_repo(),
        "agents/path with spaces/foo.md"
    );
}

#[test]
fn unquoted_fields_parse_identically() {
    let r = parsed("github  agent  backend-dev  owner/repo  path/to/agent.md  main");
    assert_eq!(r.manifest.entries[0].name, "backend-dev");
    assert_eq!(r.manifest.entries[0].ref_(), "main");
}

#[test]
fn valid_entry_name_accepted() {
    let r = parsed("local  skill  my-skill_v2.0  skills/foo.md");
    assert_eq!(r.manifest.entries.len(), 1);
    assert_eq!(r.manifest.entries[0].name, "my-skill_v2.0");
}

#[test]
fn invalid_entry_name_rejected() {
    let text = "local  skill  \"my skill!\"  skills/foo.md\n";
    let r = parse_manifest(text.as_bytes());
    assert!(r.manifest.entries.is_empty());
    assert!(r
        .warnings
        .iter()
        .any(|w| w.to_lowercase().contains("invalid name")
            || w.to_lowercase().contains("warning")));
}

#[test]
fn inferred_name_validated() {
    let r = parsed("local  skill  skills/foo.md");
    assert_eq!(r.manifest.entries.len(), 1);
    assert_eq!(r.manifest.entries[0].name, "foo");
}

#[test]
fn valid_scope_accepted() {
    for scope in &["global", "local"] {
            let r = parsed(&format!("install  cursor  {scope}"));
        assert_eq!(r.manifest.install_targets.len(), 1);
        assert_eq!(r.manifest.install_targets[0].scope.as_str(), *scope);
    }
}

#[test]
fn invalid_scope_rejected() {
    let r = parsed("install  cursor  worldwide");
    assert!(r.manifest.install_targets.is_empty());
    assert!(r
        .warnings
        .iter()
        .any(|w| w.to_lowercase().contains("scope") || w.to_lowercase().contains("warning")));
}

#[test]
fn duplicate_entry_name_warns() {
    let r = parsed("local  skill  foo  skills/foo.md\nlocal  agent  foo  agents/foo.md");
    assert_eq!(r.manifest.entries.len(), 2); // both included
    assert!(r
        .warnings
        .iter()
        .any(|w| w.to_lowercase().contains("duplicate")));
}

#[test]
fn utf8_bom_handled() {
    let mut content = vec![0xEF, 0xBB, 0xBF]; // BOM
    content.extend_from_slice(b"install  cursor  global\n");
    let r = parse_manifest(&content);
    assert_eq!(r.manifest.install_targets.len(), 1);
    assert_eq!(
        r.manifest.install_targets[0],
        InstallTarget {
            adapter: "cursor".into(),
            scope: Scope::Global,
        }
    );
}

#[test]
fn find_entry_in_found() {
    let e = Entry {
        entity_type: EntityType::Skill,
        name: "foo".into(),
        source: SourceFields::Local {
            path: "foo.md".into(),
        },
    };
    let m = Manifest {
        entries: vec![e.clone()],
        install_targets: vec![],
    };
    assert_eq!(find_entry_in("foo", &m).unwrap(), &e);
}

#[test]
fn find_entry_in_not_found() {
    let m = Manifest::default();
    assert!(find_entry_in("missing", &m).is_err());
}

#[test]
fn infer_name_from_md_path() {
    assert_eq!(infer_name("path/to/agent.md"), "agent");
}

#[test]
fn infer_name_from_dot() {
    assert_eq!(infer_name("."), "content");
}

#[test]
fn infer_name_from_url() {
    assert_eq!(infer_name("https://example.com/my-skill.md"), "my-skill");
}

#[test]
fn split_line_simple() {
    assert_eq!(
        split_line("github  agent  owner/repo  agent.md"),
        vec!["github", "agent", "owner/repo", "agent.md"]
    );
}

#[test]
fn split_line_quoted() {
    assert_eq!(
        split_line("local  skill  \"my dir/foo.md\""),
        vec!["local", "skill", "my dir/foo.md"]
    );
}

#[test]
fn split_line_tabs() {
    assert_eq!(
        split_line("local\tskill\tfoo.md"),
        vec!["local", "skill", "foo.md"]
    );
}

#[test]
fn find_entry_in_names_the_entry() {
    let m = Manifest::default();
    match find_entry_in("missing", &m) {
        Err(SkillfileError::Manifest(text)) => {
            assert_eq!(text, "no entry named 'missing' in Skillfile");
        }
        _ => panic!("expected a manifest error"),
    }
}

#[test]
fn find_entry_in_takes_the_first_of_a_name() {
    let r = parsed("local  skill  foo  a.md\nlocal  agent  foo  b.md");
    assert_eq!(find_entry_in("foo", &r.manifest).unwrap().local_path(), "a.md");
}

#[test]
fn warnings_name_the_line() {
    let r = parsed(
        "# comment\n\ngithub\nsvn  skill  x  y\ninstall  cursor\ninstall  cursor  far\nlocal  hook  x.md\ngithub  agent  foo",
    );
    assert!(r.manifest.entries.is_empty());
    assert!(r.manifest.install_targets.is_empty());
    assert_eq!(
        r.warnings,
        vec![
            "warning: line 3: too few fields, skipping",
            "warning: line 4: unknown source type 'svn', skipping",
            "warning: line 5: install line needs: adapter scope",
            "warning: line 6: invalid scope 'far', must be one of: global, local",
            "warning: line 7: unknown entity type 'hook', skipping",
            "warning: line 8: github entry needs at least: name owner/repo path",
        ]
    );
}

#[test]
fn duplicate_names_are_both_kept() {
    let r = parsed("local  skill  foo  a.md\nlocal  skill  foo  b.md");
    assert_eq!(r.warnings, vec!["warning: line 2: duplicate entry name 'foo'"]);
    assert_eq!(r.manifest.entries.len(), 2);
    assert_eq!(r.manifest.entries[1].local_path(), "b.md");
}

#[test]
fn names_may_hold_letters_of_any_script() {
    assert!(is_valid_name("caf\u{e9}"));
    assert!(is_valid_name("a.b-c_9"));
    assert!(!is_valid_name(""));
    assert!(!is_valid_name("a b"));
    assert!(!is_valid_name("a/b"));
    assert!(!is_valid_name("\u{2014}"));
}

#[test]
fn unicode_white_space_separates_fields() {
    assert_eq!(split_line("a\u{a0}b\u{2003}c"), vec!["a", "b", "c"]);
    assert_eq!(split_line("a\u{200b}b"), vec!["a\u{200b}b"]);
}

#[test]
fn quotes_may_stand_inside_a_field() {
    assert_eq!(split_line("a\"b c\"d e"), vec!["ab cd", "e"]);
    assert_eq!(split_line("\"\" a"), vec!["a"]);
    assert_eq!(split_line("\"open end"), vec!["open end"]);
}

#[test]
fn invalid_bytes_do_not_stop_parsing() {
    let mut bytes = b"local  skill  foo  a.md\nlocal  skill  b".to_vec();
    bytes.push(0xFF);
    bytes.extend_from_slice(b"r  c.md\n");
    let r = parse_manifest(&bytes);
    assert_eq!(r.manifest.entries.len(), 1);
    assert_eq!(r.manifest.entries[0].name, "foo");
    assert_eq!(r.warnings.len(), 1);
    assert!(r.warnings[0].contains("b\u{fffd}r"));
}

#[test]
fn line_of_a_manifest_is_parsed_alone() {
    let e = parse_manifest_line("url  agent  x  https://e.org/y.md  # note").unwrap();
    assert_eq!(e.to_string(), "url/agent/x");
    assert_eq!(e.url(), "https://e.org/y.md");
    assert!(parse_manifest_line("install  cursor  global").is_none());
    assert!(parse_manifest_line("").is_none());
}

#[test]
fn infer_name_edge_cases() {
    assert_eq!(infer_name(""), "content");
    assert_eq!(infer_name(".."), "content");
    assert_eq!(infer_name("a/b/"), "b");
    assert_eq!(infer_name("x/.hidden"), ".hidden");
    assert_eq!(infer_name("x/a.tar.gz"), "a.tar");
}

#[test]
fn name_and_repository_are_told_apart_by_the_slash() {
    let e = parse_manifest_line("github  skill  o/r  p/q.md  v2").unwrap();
    assert_eq!((e.name.as_str(), e.owner_repo(), e.path_in_repo(), e.ref_()), ("q", "o/r", "p/q.md", "v2"));
    let e = parse_manifest_line("github  skill  n  o/r  p/q.md").unwrap();
    assert_eq!((e.name.as_str(), e.owner_repo(), e.path_in_repo(), e.ref_()), ("n", "o/r", "p/q.md", "main"));
}
