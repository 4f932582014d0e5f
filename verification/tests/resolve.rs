//! Resolving conflicts between local edits and upstream.

use skillfile::commands::files::FileText;
use skillfile::commands::resolve::{
    cmd_resolve, fetching_note, merge_input, pending_conflict, reconstruct_yours_single,
    resolve_conflicts_or_clean, resolve_single_file, three_way_merge, write_merged_results,
    DirMerge, MergeResult, MergeStep, ResolveStart,
};
use skillfile::models::{ConflictState, EntityType};
use skillfile::parser::{find_entry_in, parse_manifest_str};
use skillfile::patch::{apply_patch_pure, generate_patch};

fn make_conflict(entry: &str, entity_type: EntityType) -> ConflictState {
    ConflictState {
        entry: entry.to_string(),
        entity_type,
        old_sha: "aaaaaa".to_string(),
        new_sha: "bbbbbb".to_string(),
    }
}

fn file(name: &str, text: &str) -> FileText {
    FileText { name: name.to_string(), text: text.to_string() }
}

fn merged(text: &str, has_conflicts: bool) -> MergeResult {
    MergeResult { merged: text.to_string(), has_conflicts }
}

#[test]
fn resolve_abort_no_conflict_noop() {
    match cmd_resolve(None, true, &None) {
        Ok(ResolveStart::Abort { clear, message }) => {
            assert!(!clear);
            assert_eq!(message, "No pending conflict to abort.");
        }
        _ => panic!("expected an abort"),
    }
}

#[test]
fn resolve_resolve_abort_clears_conflict() {
    let conflict = Some(make_conflict("test", EntityType::Skill));
    match cmd_resolve(None, true, &conflict) {
        Ok(ResolveStart::Abort { clear, message }) => {
            assert!(clear);
            assert_eq!(
                message,
                "Conflict for 'test' cleared. Run `skillfile install` to continue."
            );
        }
        _ => panic!("expected an abort"),
    }
}

#[test]
fn resolve_no_conflict_errors() {
    assert!(matches!(cmd_resolve(Some("test"), false, &None), Ok(ResolveStart::Resolve(n)) if n == "test"));
    let result = pending_conflict("test", &None);
    assert!(result.err().unwrap().to_string().contains("no pending conflict"));
}

#[test]
fn resolve_wrong_entry_errors() {
    let conflict = Some(make_conflict("other-entry", EntityType::Skill));
    let result = pending_conflict("test", &conflict);
    assert!(result.err().unwrap().to_string().contains("no pending conflict"));
    assert_eq!(pending_conflict("other-entry", &conflict).ok().unwrap().new_sha, "bbbbbb");
}

#[test]
fn cmd_resolve_no_name_no_abort_errors() {
    let result = cmd_resolve(None, false, &None);
    assert!(
        result.err().unwrap().to_string().contains("entry name required"),
        "expected 'entry name required' in error message"
    );
}

#[test]
fn cmd_resolve_entry_not_in_manifest_errors() {
    let m = parse_manifest_str("github  skill  owner/repo  skills/test.md\n").manifest;
    assert!(find_entry_in("nonexistent", &m).is_err(), "expected error for entry not in manifest");
}

#[test]
fn apply_patch_round_trip_via_three_way() {
    let base = "original content\n";
    let yours = "modified content\n";
    let patch = generate_patch(base, yours, "test.md");
    let reconstructed = apply_patch_pure(base, &patch).unwrap();
    assert_eq!(reconstructed, yours);
    let result = three_way_merge(true, reconstructed.as_bytes());
    assert!(!result.has_conflicts);
    assert_eq!(result.merged, yours);
}

#[test]
fn merges_are_read_from_the_output_of_the_tool() {
    let r = three_way_merge(false, b"<<<<<<< yours\na\xFF\n");
    assert!(r.has_conflicts);
    assert_eq!(r.merged, "<<<<<<< yours\na\u{fffd}\n");
}

#[test]
fn yours_is_what_the_patch_makes_of_the_base() {
    let patch = generate_patch("a\n", "b\n", "x.md");
    let r = reconstruct_yours_single("x", "a\n", &Some(patch.clone()), &None, "/p").unwrap();
    assert_eq!(r, "b\n");
    let r = reconstruct_yours_single("x", "a\n", &None, &Some("c\n".to_string()), "/p").unwrap();
    assert_eq!(r, "c\n");
    let e = reconstruct_yours_single("x", "a\n", &None, &None, "/p").unwrap_err();
    assert_eq!(e.to_string(), "'x' is not installed at /p");
    assert!(reconstruct_yours_single("x", "z\n", &Some(patch), &None, "/p").is_err());
}

#[test]
fn conflicts_go_to_an_editor() {
    assert!(matches!(resolve_conflicts_or_clean(&merged("m", false), &None), MergeStep::Merged(t) if t == "m"));
    let c = merged("<<<<<<< a", true);
    assert!(matches!(resolve_conflicts_or_clean(&c, &None), MergeStep::OpenEditor));
    let still = Some("x\n<<<<<<< a".to_string());
    assert!(matches!(resolve_conflicts_or_clean(&c, &still), MergeStep::StillConflicted));
    let edited = Some("fine".to_string());
    assert!(matches!(resolve_conflicts_or_clean(&c, &edited), MergeStep::Merged(t) if t == "fine"));
}

#[test]
fn a_resolved_file_is_pinned_against_upstream() {
    let r = resolve_single_file("x", "theirs\n", "mine\n");
    assert_eq!(r.installed, "mine\n");
    assert_eq!(apply_patch_pure("theirs\n", &r.patch.unwrap()).unwrap(), "mine\n");
    assert_eq!(r.note, "  updated .skillfile/patches/ for 'x'");
    assert_eq!(r.message, "\nResolved. Run `skillfile install` to deploy 'x'.");
    let r = resolve_single_file("x", "same\n", "same\n");
    assert!(r.patch.is_none());
    assert_eq!(r.note, "  merged result matches upstream \u{2014} removed pin for 'x'");
}

#[test]
fn a_directory_is_merged_file_by_file() {
    let base = vec![file("b.md", "b\n"), file("a.md", "a\n")];
    let theirs = vec![file("a.md", "A\n"), file("c.md", "c\n")];
    assert!(DirMerge::start("d", &base, &theirs, false)
        .err()
        .unwrap()
        .to_string()
        .contains("not installed"));
    let mut m = DirMerge::start("d", &base, &theirs, true).ok().unwrap();
    assert_eq!(m.filenames, vec!["a.md", "b.md", "c.md"]);
    assert_eq!(m.current(), Some("a.md"));
    let input = merge_input("a.md", &base, &theirs, &None, &Some("mine\n".to_string())).unwrap();
    assert_eq!((input.base.as_str(), input.theirs.as_str(), input.yours.as_str()), ("a\n", "A\n", "mine\n"));
    assert!(matches!(m.accept(&merged("<<<<<<<", true), &None), MergeStep::OpenEditor));
    assert_eq!(m.current(), Some("a.md"));
    m.accept(&merged("<<<<<<<", true), &Some("both\n".to_string()));
    assert!(m.any_conflict);
    m.accept(&merged("b\n", false), &None);
    m.accept(&merged("c\n", false), &None);
    assert_eq!(m.current(), None);
    let r = write_merged_results("d", &m.merged, &theirs);
    assert_eq!(r.patches.len(), 2);
    assert_eq!(apply_patch_pure("A\n", &r.patches[0].text).unwrap(), "both\n");
    assert_eq!(r.patches[1].name, "b.md");
    assert_eq!(r.note, "  updated .skillfile/patches/ for 'd' (a.md, b.md)");
}

#[test]
fn notes_on_fetching() {
    assert_eq!(
        fetching_note("old", "0123456789abcdef", " (common ancestor)"),
        "  fetching upstream at old sha=0123456789ab (common ancestor) ..."
    );
}
