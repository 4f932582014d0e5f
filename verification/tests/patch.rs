//! Making and applying patches.

use skillfile::models::{EntityType, Entry, SourceFields};
use skillfile::patch::{
    apply_patch_pure, dir_patch_path, dir_patches_root, generate_patch, has_dir_patch, patch_path,
    patches_root, walkdir,
};

fn github_entry(name: &str, entity_type: EntityType) -> Entry {
    Entry {
        entity_type,
        name: name.to_string(),
        source: SourceFields::Github {
            owner_repo: "owner/repo".into(),
            path_in_repo: "agents/test.md".into(),
            ref_: "main".into(),
        },
    }
}

#[test]
fn generate_patch_identical_returns_empty() {
    assert_eq!(generate_patch("hello\n", "hello\n", "test.md"), "");
}

#[test]
fn generate_patch_has_headers() {
    let p = generate_patch("old\n", "new\n", "test.md");
    assert!(p.contains("--- a/test.md"), "missing fromfile header");
    assert!(p.contains("+++ b/test.md"), "missing tofile header");
}

#[test]
fn generate_patch_add_line() {
    let p = generate_patch("line1\n", "line1\nline2\n", "test.md");
    assert!(p.contains("+line2"));
}

#[test]
fn generate_patch_remove_line() {
    let p = generate_patch("line1\nline2\n", "line1\n", "test.md");
    assert!(p.contains("-line2"));
}

#[test]
fn generate_patch_all_lines_end_with_newline() {
    let p = generate_patch("a\nb\n", "a\nc\n", "test.md");
    for seg in p.split_inclusive('\n') {
        assert!(seg.ends_with('\n'), "line does not end with \\n: {seg:?}");
    }
}

#[test]
fn apply_patch_empty_patch_returns_original() {
    let result = apply_patch_pure("hello\n", "").unwrap();
    assert_eq!(result, "hello\n");
}

#[test]
fn apply_patch_round_trip_add_line() {
    let orig = "line1\nline2\n";
    let modified = "line1\nline2\nline3\n";
    let patch = generate_patch(orig, modified, "test.md");
    let result = apply_patch_pure(orig, &patch).unwrap();
    assert_eq!(result, modified);
}

#[test]
fn apply_patch_round_trip_remove_line() {
    let orig = "line1\nline2\nline3\n";
    let modified = "line1\nline3\n";
    let patch = generate_patch(orig, modified, "test.md");
    let result = apply_patch_pure(orig, &patch).unwrap();
    assert_eq!(result, modified);
}

#[test]
fn apply_patch_round_trip_modify_line() {
    let orig = "# Title\n\nSome text here.\n";
    let modified = "# Title\n\nSome modified text here.\n";
    let patch = generate_patch(orig, modified, "test.md");
    let result = apply_patch_pure(orig, &patch).unwrap();
    assert_eq!(result, modified);
}

#[test]
fn apply_patch_multi_hunk() {
    let mut orig = String::new();
    for i in 0..20 {
        orig.push_str(&format!("line{i}\n"));
    }
    let mut modified = orig.clone();
    modified = modified.replace("line2\n", "MODIFIED2\n");
    modified = modified.replace("line15\n", "MODIFIED15\n");
    let patch = generate_patch(&orig, &modified, "test.md");
    assert!(patch.contains("@@"), "should have hunk headers");
    let result = apply_patch_pure(&orig, &patch).unwrap();
    assert_eq!(result, modified);
}

#[test]
fn apply_patch_context_mismatch_errors() {
    let orig = "line1\nline2\n";
    let patch = "--- a/test.md\n+++ b/test.md\n@@ -1,2 +1,2 @@\n-totally_wrong\n+new\n";
    let result = apply_patch_pure(orig, patch);
    assert!(result.is_err());
    assert!(result.unwrap_err().to_string().contains("context mismatch"));
}

#[test]
fn patch_path_single_file_agent() {
    let entry = github_entry("my-agent", EntityType::Agent);
    let root = "/repo";
    let p = patch_path(&entry, root);
    assert_eq!(
        p,
        "/repo/.skillfile/patches/agents/my-agent.patch"
    );
}

#[test]
fn patch_path_single_file_skill() {
    let entry = github_entry("my-skill", EntityType::Skill);
    let root = "/repo";
    let p = patch_path(&entry, root);
    assert_eq!(
        p,
        "/repo/.skillfile/patches/skills/my-skill.patch"
    );
}

#[test]
fn dir_patch_path_returns_correct() {
    let entry = github_entry("lang-pro", EntityType::Skill);
    let root = "/repo";
    let p = dir_patch_path(&entry, "python.md", root);
    assert_eq!(
        p,
        "/repo/.skillfile/patches/skills/lang-pro/python.md.patch"
    );
}

#[test]
fn generate_patch_no_trailing_newline_original() {
    // original has no trailing \n; all output lines must still end with \n.
    let p = generate_patch("old text", "new text\n", "test.md");
    assert!(!p.is_empty(), "patch should not be empty");
    for seg in p.split_inclusive('\n') {
        assert!(
            seg.ends_with('\n'),
            "every output line must end with \\n, got: {seg:?}"
        );
    }
}

#[test]
fn generate_patch_no_trailing_newline_modified() {
    // modified has no trailing \n; all output lines must still end with \n.
    let p = generate_patch("old text\n", "new text", "test.md");
    assert!(!p.is_empty(), "patch should not be empty");
    for seg in p.split_inclusive('\n') {
        assert!(
            seg.ends_with('\n'),
            "every output line must end with \\n, got: {seg:?}"
        );
    }
}

#[test]
fn generate_patch_both_inputs_no_trailing_newline() {
    // Neither original nor modified ends with \n.
    let p = generate_patch("old line", "new line", "test.md");
    assert!(!p.is_empty(), "patch should not be empty");
    for seg in p.split_inclusive('\n') {
        assert!(
            seg.ends_with('\n'),
            "every output line must end with \\n, got: {seg:?}"
        );
    }
}

#[test]
fn generate_patch_no_trailing_newline_roundtrip() {
    // apply_patch_pure must reconstruct the modified text even when neither
    // side ends with a newline.
    let orig = "line one\nline two";
    let modified = "line one\nline changed";
    let patch = generate_patch(orig, modified, "test.md");
    assert!(!patch.is_empty());
    // The patch must normalise to a clean result — at minimum not error.
    let result = apply_patch_pure(orig, &patch).unwrap();
    // The applied result should match modified (possibly with a trailing newline
    // added by the normalization, so we compare trimmed content).
    assert_eq!(
        result.trim_end_matches('\n'),
        modified.trim_end_matches('\n')
    );
}

#[test]
fn apply_patch_pure_with_no_newline_marker() {
    // A patch that was generated externally may contain the "\ No newline at
    // end of file" marker.  parse_hunks() must skip it cleanly.
    let orig = "line1\nline2\n";
    let patch = "--- a/test.md\n+++ b/test.md\n@@ -1,2 +1,2 @@\n line1\n-line2\n+changed\n\\ No newline at end of file\n";
    let result = apply_patch_pure(orig, patch).unwrap();
    assert_eq!(result, "line1\nchanged\n");
}

#[test]
fn apply_patch_pure_fuzzy_hunk_matching() {
    // Build an original with 20 lines.
    let mut orig = String::new();
    for i in 1..=20 {
        orig.push_str(&format!("line{i}\n"));
    }

    // Construct a patch whose hunk header claims the context starts at line 5
    // (1-based), but the actual content we want to change is at line 7.
    // find_hunk_position will search ±100 lines and should find the match.
    let patch = "--- a/test.md\n+++ b/test.md\n@@ -5,3 +5,3 @@\n line7\n-line8\n+CHANGED8\n line9\n";

    let result = apply_patch_pure(&orig, patch).unwrap();
    assert!(
        result.contains("CHANGED8\n"),
        "fuzzy match should have applied the change"
    );
    assert!(
        !result.contains("line8\n"),
        "original line8 should have been replaced"
    );
}

#[test]
fn apply_patch_pure_extends_beyond_eof_errors() {
    // A patch with an empty context list and hunk start beyond the file length
    // triggers the "patch extends beyond end of file" error path in
    // find_hunk_position when ctx_lines is empty.
    //
    // We craft a hunk header that places the hunk at line 999 of a 2-line file
    // and supply a context line that won't match anywhere — this exercises the
    // "context mismatch" branch (which is what fires when ctx_lines is non-empty
    // and nothing is found within ±100 of the declared position).
    let orig = "line1\nline2\n";
    let patch = "--- a/test.md\n+++ b/test.md\n@@ -999,1 +999,1 @@\n-nonexistent_line\n+replacement\n";
    let result = apply_patch_pure(orig, patch);
    assert!(
        result.is_err(),
        "applying a patch beyond EOF should return an error"
    );
}

#[test]
fn has_dir_patch_detects_patches() {
    let none: Vec<String> = vec![];
    assert!(!has_dir_patch(&none));
    let entry = github_entry("lang-pro", EntityType::Skill);
    let found = vec![dir_patch_path(&entry, "python.md", "/repo")];
    assert!(has_dir_patch(&found));
}

#[test]
fn has_dir_patch_goes_by_the_extension() {
    assert!(!has_dir_patch(&vec!["a/b.md".to_string(), "patch".to_string()]));
    assert!(!has_dir_patch(&vec![".patch".to_string()]));
    assert!(has_dir_patch(&vec!["a/b.md".to_string(), "a/c.patch".to_string()]));
}

#[test]
fn walkdir_empty_directory_returns_empty() {
    let files = walkdir(&vec![]);
    assert!(
        files.is_empty(),
        "walkdir of empty dir should return empty vec"
    );
}

#[test]
fn walkdir_nonexistent_directory_returns_empty() {
    let found: Vec<String> = vec![];
    let files = walkdir(&found);
    assert!(
        files.is_empty(),
        "walkdir of non-existent dir should return empty vec"
    );
}

#[test]
fn walkdir_nested_subdirectories() {
    let files = walkdir(&vec!["top.txt".to_string(), "sub/nested.txt".to_string()]);
    assert_eq!(files.len(), 2, "should find both files");
    assert!(files.contains(&"top.txt".to_string()));
    assert!(files.contains(&"sub/nested.txt".to_string()));
}

#[test]
fn walkdir_results_are_sorted() {
    let files = walkdir(&vec!["z.txt".to_string(), "a.txt".to_string(), "m.txt".to_string()]);
    let sorted = {
        let mut v = files.clone();
        v.sort();
        v
    };
    assert_eq!(files, sorted, "walkdir results must be sorted");
}

#[test]
fn paths_are_ordered_part_by_part() {
    let found = vec!["a-b".to_string(), "a/z".to_string(), "a".to_string(), "a/b".to_string()];
    assert_eq!(walkdir(&found), vec!["a", "a/b", "a/z", "a-b"]);
    let mut as_paths: Vec<std::path::PathBuf> =
        found.iter().map(|p| std::path::PathBuf::from(p)).collect();
    as_paths.sort();
    let expected: Vec<String> =
        as_paths.iter().map(|p| p.to_string_lossy().into_owned()).collect();
    assert_eq!(walkdir(&found), expected);
}

#[test]
fn patch_directories() {
    let entry = github_entry("lang-pro", EntityType::Skill);
    assert_eq!(patches_root("/repo"), "/repo/.skillfile/patches");
    assert_eq!(
        dir_patches_root(&entry, "/repo"),
        "/repo/.skillfile/patches/skills/lang-pro"
    );
}

#[test]
fn patch_text_is_exact() {
    assert_eq!(
        generate_patch("a\nb\nc\n", "a\nB\nc\n", "x.md"),
        "--- a/x.md\n+++ b/x.md\n@@ -1,3 +1,3 @@\n a\n-b\n+B\n c\n"
    );
    assert_eq!(
        generate_patch("", "new\n", "x.md"),
        "--- a/x.md\n+++ b/x.md\n@@ -0,0 +1 @@\n+new\n"
    );
    assert_eq!(
        generate_patch("old", "new", "x.md"),
        "--- a/x.md\n+++ b/x.md\n@@ -1 +1 @@\n-old\n+new\n"
    );
}

#[test]
fn patches_restore_what_they_were_made_from() {
    let texts = [
        "",
        "one\n",
        "one\ntwo\nthree\nfour\nfive\nsix\nseven\neight\nnine\nten\n",
        "one\nTWO\nthree\nfour\nfive\nsix\nseven\neight\nnine\n",
        "zero\none\ntwo\nfour\nfive\nsix\nseven\neight\nNINE\nten\neleven\n",
        "crlf\r\nlines\r\n",
    ];
    for a in texts {
        for b in texts {
            let patch = generate_patch(a, b, "f.md");
            assert_eq!(patch.is_empty(), a == b);
            assert_eq!(apply_patch_pure(a, &patch).unwrap(), b, "from {a:?} to {b:?}");
        }
    }
}

#[test]
fn missing_final_newline_is_added() {
    let patch = generate_patch("a\n", "b", "f.md");
    assert_eq!(apply_patch_pure("a\n", &patch).unwrap(), "b\n");
}

#[test]
fn context_mismatch_quotes_the_line() {
    let r = apply_patch_pure("line1\n", "@@ -1 +1 @@\n-say \"hi\"\t\n+x\n");
    let text = r.unwrap_err().to_string();
    assert!(text.contains("say \\\"hi\\\"\\t"), "{text}");
}

#[test]
fn hunks_are_not_applied_twice_to_the_same_lines() {
    let patch = "@@ -1 +1 @@\n-a\n+b\n@@ -1 +1 @@\n-a\n+b\n";
    assert_eq!(apply_patch_pure("a\na\n", patch).unwrap(), "b\nb\n");
    assert!(apply_patch_pure("a\n", patch).is_err());
}

#[test]
fn lines_like_file_names_are_edited() {
    let patch = "--- a/t\n+++ b/t\n@@ -1 +1 @@\n--- a\n+b\n";
    assert_eq!(generate_patch("-- a\n", "b\n", "t"), patch);
    assert_eq!(apply_patch_pure("-- a\n", patch).unwrap(), "b\n");
    let patch = generate_patch("a\nb\n", "++ a\nb\n-- c\n", "t");
    assert!(patch.contains("\n+++ a\n") && patch.contains("\n+-- c\n"), "{patch}");
    assert_eq!(apply_patch_pure("a\nb\n", &patch).unwrap(), "++ a\nb\n-- c\n");
}

#[test]
fn a_patch_starts_with_names_and_a_hunk() {
    let patch = generate_patch("a\nb", "a\nc", "dir/t.md");
    assert!(patch.starts_with("--- a/dir/t.md\n+++ b/dir/t.md\n@@ -"), "{patch}");
    assert!(patch.lines().all(|l| !l.starts_with("\\ ")), "{patch}");
    assert!(patch.ends_with('\n'));
}

#[test]
fn an_empty_range_starts_behind_its_line() {
    let after = |patch: &str| apply_patch_pure("a\nb\n", patch).unwrap();
    assert_eq!(after("@@ -0,0 +1 @@\n+x\n"), "x\na\nb\n");
    assert_eq!(after("@@ -1,0 +2 @@\n+x\n"), "a\nx\nb\n");
    assert_eq!(after("@@ -2,0 +3 @@\n+x\n"), "a\nb\nx\n");
    assert_eq!(after("@@ -2 +2 @@\n-b\n+x\n"), "a\nx\n");
}

#[test]
fn repeated_lines_are_restored() {
    let original = format!("b\nc\nd\n{}", "a\n".repeat(7));
    let modified = format!("{}z\n{}", "a\n".repeat(7), "a\n".repeat(7));
    let patch = generate_patch(&original, &modified, "t");
    assert!(patch.contains("@@ -7,0 +"), "{patch}");
    assert_eq!(apply_patch_pure(&original, &patch).unwrap(), modified);
}

/// All texts of up to `n` lines out of `words`.
fn all_texts(words: &[&str], n: usize) -> Vec<String> {
    let mut texts = vec![String::new()];
    let mut from = 0;
    for _ in 0..n {
        let to = texts.len();
        for i in from..to {
            for w in words {
                let t = format!("{}{w}\n", texts[i]);
                texts.push(t);
            }
        }
        from = to;
    }
    texts
}

#[test]
fn every_pair_of_small_texts_is_restored() {
    for (words, n) in [(vec!["a", "b"], 6), (vec!["-- a", "++ a", ""], 3), (vec!["@@ -1 +1 @@", "\\ a"], 4)] {
        let texts = all_texts(&words, n);
        for original in &texts {
            for modified in &texts {
                let patch = generate_patch(original, modified, "t");
                assert_eq!(&apply_patch_pure(original, &patch).unwrap(), modified, "{patch}");
            }
        }
    }
}

#[test]
fn texts_with_long_runs_are_restored() {
    let mut seed: u64 = 7;
    let mut next = |n: u64| {
        seed = seed.wrapping_mul(6364136223846793005).wrapping_add(1442695040888963407);
        (seed >> 33) % n
    };
    for _ in 0..4000 {
        let mut text = |parts: u64| {
            let mut t = String::new();
            for _ in 0..next(parts) {
                let line = ["a\n", "b\n", "c\n", "\n"][next(4) as usize];
                t.push_str(&line.repeat(1 + next(9) as usize));
            }
            t
        };
        let original = text(7);
        let modified = text(7);
        let patch = generate_patch(&original, &modified, "t");
        assert_eq!(apply_patch_pure(&original, &patch).unwrap(), modified, "{patch}");
    }
}
