//! The canonical form of a manifest.

use skillfile::commands::sort::{cmd_sort, format_line, sorted_manifest_text};
use skillfile::parser::{parse_manifest, parse_manifest_line, parse_manifest_str};

fn parse_and_sort(content: &str) -> String {
    let result = parse_manifest(content.as_bytes());
    sorted_manifest_text(&result.manifest, content)
}

#[test]
fn install_comment_generated() {
    let text = parse_and_sort("install  cursor  global\ngithub  skill  a/repo  a.md\n",
    );
    assert!(text.contains("# install  <platform>  <scope>"));
    let lines: Vec<&str> = text.lines().collect();
    assert_eq!(lines[0], "# install  <platform>  <scope>");
    assert_eq!(lines[1], "install  cursor  global");
}

#[test]
fn agents_section_header_generated() {
    let text = parse_and_sort("github  agent  owner/repo  agent.md\n");
    assert!(text.contains("# --- Agents ---"));
}

#[test]
fn skills_section_header_generated() {
    let text = parse_and_sort("github  skill  owner/repo  skill.md\n");
    assert!(text.contains("# --- Skills ---"));
}

#[test]
fn section_format_hint_generated() {
    let text = parse_and_sort("github  agent  owner/repo  agent.md\ngithub  skill  owner/repo  skill.md\n",
    );
    assert!(text.contains("# github  agent  [name]  <owner/repo>  <path-or-dir>  [ref]"));
    assert!(text.contains("# github  skill  [name]  <owner/repo>  <path-or-dir>  [ref]"));
}

#[test]
fn no_install_section_when_no_targets() {
    let text = parse_and_sort("github  skill  a/repo  a.md\n");
    assert!(!text.contains("install"));
}

#[test]
fn entries_grouped_by_repo_with_blank_lines() {
    let text = parse_and_sort("github  skill  b/repo  b.md\ngithub  skill  a/repo  a.md\ngithub  skill  a/repo  z.md\n",
    );
    let lines: Vec<&str> = text.lines().collect();
    let skill_lines: Vec<&&str> = lines
        .iter()
        .filter(|l| l.starts_with("github  skill"))
        .collect();
    assert_eq!(*skill_lines[0], "github  skill  a/repo  a.md");
    assert_eq!(*skill_lines[1], "github  skill  a/repo  z.md");
    assert_eq!(*skill_lines[2], "github  skill  b/repo  b.md");
}

#[test]
fn agents_before_skills() {
    let text = parse_and_sort("github  skill  owner/repo  skill.md\ngithub  agent  owner/repo  agent.md\n",
    );
    assert!(text.find("# --- Agents ---").unwrap() < text.find("# --- Skills ---").unwrap());
}

#[test]
fn entry_adjacent_comment_preserved() {
    let text = parse_and_sort("github  skill  z/repo  z.md\n# my annotation\ngithub  skill  a/repo  a.md\n",
    );
    let lines: Vec<&str> = text.lines().collect();
    let idx = lines.iter().position(|l| *l == "# my annotation").unwrap();
    assert_eq!(lines[idx + 1], "github  skill  a/repo  a.md");
}

#[test]
fn section_comment_dropped() {
    let text = parse_and_sort("# old section header\n\ngithub  skill  b/repo  b.md\ngithub  skill  a/repo  a.md\n",
    );
    assert!(!text.contains("old section header"));
}

#[test]
fn cmd_sort_rewrites_file() {
    let text = cmd_sort("/repo", Some("github  skill  z/repo  z.md\ngithub  skill  a/repo  a.md\n"), false).unwrap().manifest_text.unwrap();
    let skill_lines: Vec<&str> = text.lines().filter(|l| l.starts_with("github")).collect();
    assert_eq!(skill_lines[0], "github  skill  a/repo  a.md");
    assert_eq!(skill_lines[1], "github  skill  z/repo  z.md");
}

#[test]
fn cmd_sort_dry_run_does_not_write() {
    let original = "github  skill  z/repo  z.md\ngithub  skill  a/repo  a.md\n";
    let plan = cmd_sort("/repo", Some(original), true).unwrap();
    assert!(plan.manifest_text.is_none());
    assert_eq!(plan.output, parse_and_sort(original));
}

#[test]
fn cmd_sort_no_manifest() {
    let result = cmd_sort("/repo", None, false);
    assert!(result.is_err());
    assert!(result.err().unwrap().to_string().contains("not found"));
}

#[test]
fn sorting_twice_changes_nothing() {
    let raw = "github  skill  z/repo  z.md\n# about a\n#\n# more\ngithub  skill  a/repo  a.md\nurl  agent  https://e.org/x.md\nlocal  agent  b.md\ninstall  cursor  local\n";
    let once = parse_and_sort(raw);
    assert_eq!(parse_and_sort(&once), once);
    assert!(once.contains("# about a\n"));
}

#[test]
fn sorting_says_how_many() {
    let plan = cmd_sort("/repo", Some("local  skill  a.md\n"), false).unwrap();
    assert_eq!(plan.output, "Sorted 1 entry.\n");
    let plan = cmd_sort("/repo", Some(""), false).unwrap();
    assert_eq!(plan.output, "Sorted 0 entries.\n");
}

#[test]
fn canonical_text_is_exact() {
    let raw = "install  cursor  local\nlocal  skill  b.md\ngithub  skill  o/r  c.md  v1\nlocal  agent  a.md\n";
    assert_eq!(
        parse_and_sort(raw),
        "# install  <platform>  <scope>\ninstall  cursor  local\n\n# --- Agents ---\n# github  agent  [name]  <owner/repo>  <path-or-dir>  [ref]\n\nlocal  agent  a.md\n\n# --- Skills ---\n# github  skill  [name]  <owner/repo>  <path-or-dir>  [ref]\n\ngithub  skill  o/r  c.md  v1\n\nlocal  skill  b.md\n"
    );
}

#[test]
fn lines_are_read_back() {
    for line in ["local  skill  x  a.md", "github  agent  o/r  p/q.md", "github  agent  n  o/r  p/q.md  v1", "url  skill  z  https://e.org/y.md"] {
        let e = parse_manifest_line(line).unwrap();
        assert_eq!(format_line(&e), line);
    }
}

#[test]
fn sorting_keeps_all_entries() {
    let raw = "local  skill  b.md\nlocal  agent  a.md\nurl  skill  https://e.org/c.md\n";
    let sorted = parse_manifest_str(&parse_and_sort(raw)).manifest;
    let mut names: Vec<&str> = sorted.entries.iter().map(|e| e.name.as_str()).collect();
    names.sort();
    assert_eq!(names, vec!["a", "b", "c"]);
}

#[test]
fn fields_with_spaces_are_quoted() {
    let line = "local  skill  \"my dir/foo.md\"";
    let entry = parse_manifest_line(line).unwrap();
    assert_eq!(format_line(&entry), line);
    let named = "github  agent  mine  owner/repo  \"a b/c\td.md\"  \" v 1\"";
    let entry = parse_manifest_line(named).unwrap();
    assert_eq!(format_line(&entry), named);
    let text = parse_and_sort("# kept\nlocal  skill  \"my dir/foo.md\"\nlocal  agent  x.md\n");
    assert!(text.contains("# kept\nlocal  skill  \"my dir/foo.md\"\n"), "{text}");
    assert_eq!(parse_and_sort(&text), text);
    let entries = parse_manifest_str(&text).manifest.entries;
    assert_eq!(entries.iter().map(|e| e.name.as_str()).collect::<Vec<_>>(), vec!["x", "foo"]);
}

#[test]
fn a_marked_first_comment_is_kept() {
    let text = parse_and_sort("\u{feff}# kept\nlocal  skill  skills/foo.md\n");
    assert!(text.contains("# kept\nlocal  skill  skills/foo.md\n"), "{text}");
}
