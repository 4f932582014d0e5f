//! Lock keys and where things are kept.

use skillfile::commands::common::vendor_dir_for;
use skillfile::conflict::{conflict_path, CONFLICT_FILE};
use skillfile::lock::{lock_key, LOCK_NAME};
use skillfile::models::{EntityType, Entry, SourceFields};
use skillfile::paths::{extension, file_name, file_stem, join_path};

fn make_github_entry(name: &str) -> Entry {
    Entry {
        entity_type: EntityType::Agent,
        name: name.into(),
        source: SourceFields::Github {
            owner_repo: "owner/repo".into(),
            path_in_repo: "agent.md".into(),
            ref_: "main".into(),
        },
    }
}

#[test]
fn lock_key_format() {
    let e = make_github_entry("my-agent");
    assert_eq!(lock_key(&e), "github/agent/my-agent");
}

#[test]
fn lock_keys_differ_where_entries_do() {
    let a = make_github_entry("x");
    let mut b = make_github_entry("x");
    b.entity_type = EntityType::Skill;
    assert_ne!(lock_key(&a), lock_key(&b));
    assert_eq!(LOCK_NAME, "Skillfile.lock");
}

#[test]
fn files_of_the_tool() {
    let e = make_github_entry("x");
    assert_eq!(vendor_dir_for(&e, "/r"), "/r/.skillfile/cache/agents/x");
    assert_eq!(conflict_path("/r"), "/r/.skillfile/conflict");
    assert_eq!(CONFLICT_FILE, ".skillfile/conflict");
}

#[test]
fn paths_are_as_the_standard_library_has_them() {
    for p in ["", ".", "..", "/", "a", "a/", "a//b", "a/./b", "a/..", "/x/y.md", "a.b.c", ".h", "x/.h.md", "a/b./", "..."] {
        let std_path = std::path::Path::new(p);
        let name = std_path.file_name().map(|n| n.to_string_lossy().into_owned());
        assert_eq!(file_name(p), name, "file name of {p:?}");
        if let Some(n) = name {
            let stem = std::path::Path::new(&n).file_stem().unwrap().to_string_lossy().into_owned();
            let ext = std::path::Path::new(&n).extension().map(|e| e.to_string_lossy().into_owned());
            assert_eq!(file_stem(&n), stem, "stem of {n:?}");
            assert_eq!(extension(&n), ext, "extension of {n:?}");
        }
        for base in ["", "/", "r", "r/", "/a/b"] {
            let joined = std::path::Path::new(base).join(p).to_string_lossy().into_owned();
            assert_eq!(join_path(base, p), joined, "{base:?} and {p:?}");
        }
    }
}
