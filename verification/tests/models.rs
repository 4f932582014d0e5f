//! Entries, targets and manifests.

use skillfile::models::{
    short_sha, ConflictState, EntityType, Entry, InstallOptions, InstallTarget, LockEntry, Manifest,
    Scope, SourceFields,
};

#[test]
fn scope_parse_and_display() {
    assert_eq!(Scope::parse("global"), Some(Scope::Global));
    assert_eq!(Scope::parse("local"), Some(Scope::Local));
    assert_eq!(Scope::parse("worldwide"), None);
    assert_eq!(Scope::Global.to_string(), "global");
    assert_eq!(Scope::Local.to_string(), "local");
    assert_eq!(Scope::Global.as_str(), "global");
}

#[test]
fn scope_all_variants() {
    assert_eq!(Scope::ALL.len(), 2);
    assert!(Scope::ALL.contains(&Scope::Global));
    assert!(Scope::ALL.contains(&Scope::Local));
}

#[test]
fn entity_type_parse_and_display() {
    assert_eq!(EntityType::parse("skill"), Some(EntityType::Skill));
    assert_eq!(EntityType::parse("agent"), Some(EntityType::Agent));
    assert_eq!(EntityType::parse("hook"), None);
    assert_eq!(EntityType::Skill.to_string(), "skill");
    assert_eq!(EntityType::Agent.to_string(), "agent");
    assert_eq!(EntityType::Skill.as_str(), "skill");
    assert_eq!(EntityType::Agent.as_str(), "agent");
}

#[test]
fn entity_type_dir_name() {
    assert_eq!(EntityType::Skill.dir_name(), "skills");
    assert_eq!(EntityType::Agent.dir_name(), "agents");
}

#[test]
fn entity_type_all_variants() {
    assert_eq!(EntityType::ALL.len(), 2);
    assert!(EntityType::ALL.contains(&EntityType::Skill));
    assert!(EntityType::ALL.contains(&EntityType::Agent));
}

#[test]
fn short_sha_truncates() {
    let sha = "abcdef123456789012345678";
    assert_eq!(short_sha(sha), "abcdef123456");
}

#[test]
fn short_sha_short_input() {
    assert_eq!(short_sha("abc"), "abc");
}

#[test]
fn source_fields_typed_accessors() {
    let gh = SourceFields::Github {
        owner_repo: "o/r".into(),
        path_in_repo: "a.md".into(),
        ref_: "main".into(),
    };
    assert_eq!(gh.as_github(), Some(("o/r", "a.md", "main")));
    assert_eq!(gh.as_local(), None);
    assert_eq!(gh.as_url(), None);

    let local = SourceFields::Local {
        path: "test.md".into(),
    };
    assert_eq!(local.as_local(), Some("test.md"));
    assert_eq!(local.as_github(), None);

    let url = SourceFields::Url {
        url: "https://x.com/s.md".into(),
    };
    assert_eq!(url.as_url(), Some("https://x.com/s.md"));
    assert_eq!(url.as_github(), None);
}

#[test]
fn github_entry_source_type() {
    let e = Entry {
        entity_type: EntityType::Agent,
        name: "test".into(),
        source: SourceFields::Github {
            owner_repo: "o/r".into(),
            path_in_repo: "a.md".into(),
            ref_: "main".into(),
        },
    };
    assert_eq!(e.source_type(), "github");
    assert_eq!(e.entity_type, EntityType::Agent);
    assert_eq!(e.name, "test");
    assert_eq!(e.owner_repo(), "o/r");
    assert_eq!(e.path_in_repo(), "a.md");
    assert_eq!(e.ref_(), "main");
    assert_eq!(e.local_path(), "");
    assert_eq!(e.url(), "");
}

#[test]
fn github_entry_fields() {
    let e = Entry {
        entity_type: EntityType::Skill,
        name: "my-skill".into(),
        source: SourceFields::Github {
            owner_repo: "o/r".into(),
            path_in_repo: "skills/s.md".into(),
            ref_: "v1".into(),
        },
    };
    assert_eq!(e.owner_repo(), "o/r");
    assert_eq!(e.path_in_repo(), "skills/s.md");
    assert_eq!(e.ref_(), "v1");
}

#[test]
fn local_entry_fields() {
    let e = Entry {
        entity_type: EntityType::Skill,
        name: "test".into(),
        source: SourceFields::Local {
            path: "test.md".into(),
        },
    };
    assert_eq!(e.source_type(), "local");
    assert_eq!(e.local_path(), "test.md");
    assert_eq!(e.owner_repo(), "");
    assert_eq!(e.url(), "");
}

#[test]
fn url_entry_fields() {
    let e = Entry {
        entity_type: EntityType::Skill,
        name: "my-skill".into(),
        source: SourceFields::Url {
            url: "https://example.com/skill.md".into(),
        },
    };
    assert_eq!(e.source_type(), "url");
    assert_eq!(e.url(), "https://example.com/skill.md");
    assert_eq!(e.owner_repo(), "");
}

#[test]
fn entry_display() {
    let e = Entry {
        entity_type: EntityType::Agent,
        name: "test".into(),
        source: SourceFields::Github {
            owner_repo: "o/r".into(),
            path_in_repo: "a.md".into(),
            ref_: "main".into(),
        },
    };
    assert_eq!(e.to_string(), "github/agent/test");
}

#[test]
fn lock_entry() {
    let le = LockEntry {
        sha: "abc123".into(),
        raw_url: "https://example.com".into(),
    };
    assert_eq!(le.sha, "abc123");
    assert_eq!(le.raw_url, "https://example.com");
}

#[test]
fn install_target_with_scope_enum() {
    let t = InstallTarget {
        adapter: "cursor".into(),
        scope: Scope::Global,
    };
    assert_eq!(t.adapter, "cursor");
    assert_eq!(t.scope, Scope::Global);
    assert_eq!(t.to_string(), "cursor (global)");
}

#[test]
fn manifest_defaults() {
    let m = Manifest::default();
    assert!(m.entries.is_empty());
    assert!(m.install_targets.is_empty());
}

#[test]
fn manifest_with_entries() {
    let e = Entry {
        entity_type: EntityType::Skill,
        name: "test".into(),
        source: SourceFields::Local {
            path: "test.md".into(),
        },
    };
    let t = InstallTarget {
        adapter: "cursor".into(),
        scope: Scope::Local,
    };
    let m = Manifest {
        entries: vec![e],
        install_targets: vec![t],
    };
    assert_eq!(m.entries.len(), 1);
    assert_eq!(m.install_targets.len(), 1);
}

#[test]
fn conflict_state_equality() {
    let a = ConflictState {
        entry: "foo".into(),
        entity_type: EntityType::Agent,
        old_sha: "aaa".into(),
        new_sha: "bbb".into(),
    };
    let b = a.clone();
    assert_eq!(a, b);
}

#[test]
fn install_options_defaults() {
    let o = InstallOptions::default();
    assert!(!o.dry_run);
    assert!(o.overwrite);
}

#[test]
fn short_sha_counts_characters() {
    assert_eq!(short_sha("\u{e9}bcdefghijklmnop"), "\u{e9}bcdefghijkl");
    assert_eq!(short_sha("abcdefghijkl"), "abcdefghijkl");
    assert_eq!(short_sha(""), "");
}

#[test]
fn words_and_types_go_together() {
    for s in Scope::ALL {
        assert_eq!(Scope::parse(s.as_str()), Some(s));
    }
    for t in EntityType::ALL {
        assert_eq!(EntityType::parse(t.as_str()), Some(t));
    }
    assert_eq!(Scope::parse("Global"), None);
    assert_eq!(EntityType::parse(""), None);
}
