//! Setting a repository up: platforms, install lines and ignored files.

use skillfile::commands::init::{
    build_manifest_with_targets, check_interactive, closing, existing_note, gitignore_additions,
    has_env_token, persist_targets, preselected, select_platforms_and_scope,
    supported_types_hint, write_personal_config,
};
use skillfile::commands::init_flow::{cmd_init, InitAction, InitEvent, InitState};
use skillfile::error::SkillfileError;
use skillfile::models::{InstallTarget, Scope};
use skillfile::parser::parse_manifest_str;
use skillfile::platforms::{known_adapters, Platform};

fn platform(name: &str, takes_skills: bool, takes_agents: bool) -> Platform {
    Platform { name: name.to_string(), takes_skills, takes_agents }
}

fn platforms() -> Vec<Platform> {
    vec![
        platform("codex", true, false),
        platform("cursor", true, true),
        platform("gemini-cli", true, true),
        platform("inert", false, false),
        platform("workers", false, true),
    ]
}

fn target(adapter: &str, scope: Scope) -> InstallTarget {
    InstallTarget { adapter: adapter.to_string(), scope }
}

#[test]
fn writes_install_lines() {
    let result = build_manifest_with_targets("", &vec![("cursor".into(), "global".into())]);
    assert!(result.contains("install  cursor  global"));
}

#[test]
fn install_lines_at_top() {
    let result = build_manifest_with_targets(
        "local  skill  skills/foo.md\n",
        &vec![("cursor".into(), "global".into())],
    );
    let lines: Vec<&str> = result.lines().collect();
    assert_eq!(lines[0], "install  cursor  global");
}

#[test]
fn preserves_existing_entries() {
    let result = build_manifest_with_targets(
        "local  skill  skills/foo.md\n",
        &vec![("cursor".into(), "local".into())],
    );
    assert!(result.contains("local  skill  skills/foo.md"));
    assert!(result.contains("install  cursor  local"));
}

#[test]
fn multiple_adapters() {
    let result = build_manifest_with_targets(
        "",
        &vec![
            ("cursor".into(), "global".into()),
            ("gemini-cli".into(), "local".into()),
        ],
    );
    assert!(result.contains("install  cursor  global"));
    assert!(result.contains("install  gemini-cli  local"));
}

#[test]
fn replaces_existing_install_targets() {
    let result = build_manifest_with_targets(
        "install  cursor  global\nlocal  skill  skills/foo.md\n",
        &vec![("gemini-cli".into(), "local".into())],
    );
    assert!(!result.contains("cursor"));
    assert!(result.contains("install  gemini-cli  local"));
    assert!(result.contains("local  skill  skills/foo.md"));
}

#[test]
fn strips_leading_blanks_after_install_removal() {
    let result = build_manifest_with_targets(
        "install  old  global\n\n\nlocal  skill  keep.md\n",
        &vec![("new".into(), "local".into())],
    );
    let lines: Vec<&str> = result.lines().collect();
    assert_eq!(lines[0], "install  new  local");
    assert_eq!(lines[1], "");
    assert_eq!(lines[2], "local  skill  keep.md");
}

#[test]
fn gitignore_from_empty() {
    let additions = gitignore_additions("");
    let text = additions.unwrap();
    assert!(text.contains(".skillfile/cache/"));
    assert!(text.contains(".skillfile/conflict"));
}

#[test]
fn gitignore_idempotent() {
    let existing = "# skillfile\n.skillfile/cache/\n.skillfile/conflict\n";
    assert!(gitignore_additions(existing).is_none());
}

#[test]
fn gitignore_does_not_include_patches() {
    let text = gitignore_additions("").unwrap();
    assert!(!text.contains("patches"));
}

#[test]
fn gitignore_appends_only_missing_entries() {
    let text = gitignore_additions("# skillfile\n.skillfile/cache/\n").unwrap();
    assert!(text.contains(".skillfile/conflict"));
    assert!(!text.contains(".skillfile/cache/"));
}

#[test]
fn gitignore_adds_blank_separator_after_content() {
    let text = gitignore_additions("node_modules/").unwrap();
    assert!(text.starts_with('\n'), "should add blank line separator");
}

#[test]
fn gitignore_no_blank_separator_after_trailing_blank_line() {
    // The file ends with a blank line: no second one.
    let text = gitignore_additions("node_modules/\n\n").unwrap();
    assert!(!text.starts_with('\n'), "should not double-blank");
}

#[test]
fn hint_for_full_adapter() {
    assert_eq!(supported_types_hint(&platforms(), "cursor"), "skill, agent");
}

#[test]
fn hint_for_skill_only_adapter() {
    assert_eq!(supported_types_hint(&platforms(), "codex"), "skill only");
}

#[test]
fn hint_for_unknown_adapter() {
    assert_eq!(supported_types_hint(&platforms(), "nonexistent"), "");
}

#[test]
fn hints_for_other_platforms() {
    assert_eq!(supported_types_hint(&platforms(), "workers"), "agent only");
    assert_eq!(supported_types_hint(&platforms(), "inert"), "");
    assert_eq!(known_adapters(&platforms())[1], "cursor");
}

#[test]
fn ignored_files_settle() {
    for text in ["", "node_modules/", "node_modules/\n", "a\n\n", ".skillfile/cache/"] {
        let mut after = text.to_string();
        if let Some(additions) = gitignore_additions(text) {
            if text == ".skillfile/cache/" {
                assert_eq!(additions, "\n# skillfile\n.skillfile/conflict\n");
            }
            after.push_str(&additions);
        }
        assert!(gitignore_additions(&after).is_none(), "{after:?}");
    }
}

#[test]
fn install_lines_leave_the_entries() {
    let before = "# head\n\ninstall  old  global\nlocal  skill  a.md\n  install  x  local\ngithub  agent  o/r  b.md";
    let after = build_manifest_with_targets(before, &vec![("cursor".into(), "local".into())]);
    assert_eq!(
        after,
        "install  cursor  local\n\n# head\n\nlocal  skill  a.md\ngithub  agent  o/r  b.md\n"
    );
    let old = parse_manifest_str(before).manifest;
    let new = parse_manifest_str(&after).manifest;
    assert_eq!(old.entries.len(), new.entries.len());
    assert_eq!(new.install_targets.len(), 1);
    assert_eq!(new.install_targets[0].to_string(), "cursor (local)");
}

#[test]
fn only_a_terminal_is_asked() {
    assert!(check_interactive(false, true, true).is_ok());
    for (ci, input, output) in [(true, true, true), (false, false, true), (false, true, false)] {
        match check_interactive(ci, input, output) {
            Err(SkillfileError::Manifest(m)) => assert_eq!(
                m,
                "skillfile init requires an interactive terminal.\nUse `skillfile add` for scripted/CI usage."
            ),
            _ => panic!("expected an error"),
        }
    }
}

#[test]
fn configured_platforms_are_preselected() {
    let existing = vec![target("gemini-cli", Scope::Local), target("unknown", Scope::Local)];
    let user = vec![target("codex", Scope::Global)];
    assert_eq!(preselected(&platforms(), &existing, &user), vec!["codex", "gemini-cli"]);
    assert!(preselected(&platforms(), &vec![], &vec![]).is_empty());
}

#[test]
fn chosen_platforms_and_scope() {
    assert!(select_platforms_and_scope(&vec![], "both").is_none());
    let chosen = vec!["a".to_string(), "b".to_string()];
    let pairs = |v: Vec<(String, String)>| -> Vec<String> {
        v.iter().map(|(a, s)| format!("{a} {s}")).collect()
    };
    assert_eq!(
        pairs(select_platforms_and_scope(&chosen, "both").unwrap()),
        vec!["a global", "a local", "b global", "b local"]
    );
    assert_eq!(
        pairs(select_platforms_and_scope(&chosen, "local").unwrap()),
        vec!["a local", "b local"]
    );
}

#[test]
fn targets_for_the_personal_config() {
    let v = write_personal_config(&vec![
        ("a".into(), "global".into()),
        ("b".into(), "nowhere".into()),
    ]);
    assert_eq!(v[0].scope, Scope::Global);
    assert_eq!(v[1].scope, Scope::Local);
    assert_eq!(v[1].adapter, "b");
}

#[test]
fn where_targets_are_kept() {
    let targets = vec![("cursor".to_string(), "local".to_string())];
    let p = persist_targets("local  skill  a.md\n", "personal", &targets);
    assert!(p.manifest_text.is_none());
    assert_eq!(p.personal.unwrap().len(), 1);
    assert_eq!(p.title, "Install config written to personal config");
    assert_eq!(p.summary, "install  cursor  local");
    let p = persist_targets("local  skill  a.md\n", "skillfile", &targets);
    assert!(p.personal.is_none());
    assert_eq!(
        p.manifest_text.as_deref(),
        Some("install  cursor  local\n\nlocal  skill  a.md\n")
    );
}

#[test]
fn notes_on_existing_targets() {
    assert!(existing_note(&vec![], &vec![]).is_none());
    let note = existing_note(&vec![target("cursor", Scope::Local)], &vec![]).unwrap();
    assert!(note.contains("cursor"), "{note}");
}

#[test]
fn closing_words() {
    assert!(closing(0).starts_with("You're all set! Next up:"));
    assert!(closing(1).starts_with("Platforms configured! This Skillfile already has 1 entry"));
    assert!(closing(3).starts_with("Platforms configured! This Skillfile already has 3 entries"));
}

#[test]
fn tokens_in_the_environment() {
    assert!(has_env_token(Some("t"), None));
    assert!(has_env_token(None, Some("t")));
    assert!(!has_env_token(Some(""), Some("t")));
    assert!(!has_env_token(None, None));
}

fn started(is_ci: bool) -> InitEvent {
    InitEvent::Started {
        is_ci,
        stdin_is_terminal: true,
        stdout_is_terminal: true,
        has_manifest: false,
    }
}

fn step(state: InitState, event: InitEvent) -> (InitState, InitAction) {
    cmd_init(state, event, &platforms()).ok().unwrap()
}

fn read_manifest_event() -> InitEvent {
    InitEvent::Read {
        bytes: b"install  cursor  global\nlocal  skill  a.md\n".to_vec(),
        user: vec![target("codex", Scope::Local)],
    }
}

#[test]
fn the_whole_setup() {
    let (s, a) = step(InitState::Begin, started(false));
    assert!(matches!(a, InitAction::Read { create: true }));
    let (s, a) = step(s, read_manifest_event());
    match a {
        InitAction::Choose { note, initial } => {
            assert_eq!(
                note.as_deref(),
                Some("install  cursor  global  (Skillfile)\ninstall  codex  local  (personal config)")
            );
            assert_eq!(initial, vec!["codex", "cursor"]);
        }
        _ => panic!("expected a question"),
    }
    let (s, a) =
        step(s, InitEvent::Chosen { platforms: vec!["codex".into()], scope: "both".into() });
    assert!(matches!(a, InitAction::AskPlace));
    let (s, a) = step(
        s,
        InitEvent::Placed {
            destination: "skillfile".into(),
            text: "install  cursor  global\nlocal  skill  a.md\n".into(),
        },
    );
    match a {
        InitAction::Keep(plan) => assert_eq!(
            plan.manifest_text.as_deref(),
            Some("install  codex  global\ninstall  codex  local\n\nlocal  skill  a.md\n")
        ),
        _ => panic!("expected targets to keep"),
    }
    let (s, a) = step(s, InitEvent::Kept);
    assert!(matches!(a, InitAction::SetUpToken));
    let (s, a) = step(s, InitEvent::TokenReady { gitignore: String::new() });
    match a {
        InitAction::Finish { additions, words } => {
            assert_eq!(
                additions.as_deref(),
                Some("# skillfile\n.skillfile/cache/\n.skillfile/conflict\n")
            );
            assert!(words.contains("already has 1 entry."));
        }
        _ => panic!("expected the end"),
    }
    let (s, a) = step(s, InitEvent::Kept);
    assert!(matches!(s, InitState::Done));
    assert!(matches!(a, InitAction::Nothing));
}

#[test]
fn a_setup_without_platforms_is_given_up() {
    let (s, _) = step(InitState::Begin, started(false));
    let (s, _) = step(s, read_manifest_event());
    let (s, a) = step(s, InitEvent::Chosen { platforms: vec![], scope: String::new() });
    assert!(matches!(s, InitState::Done));
    assert!(matches!(a, InitAction::Cancel));
}

#[test]
fn init_fails_without_tty() {
    let event = InitEvent::Started {
        is_ci: false,
        stdin_is_terminal: false,
        stdout_is_terminal: true,
        has_manifest: false,
    };
    let r = cmd_init(InitState::Begin, event, &platforms());
    let msg = r.err().unwrap().to_string();
    assert!(msg.contains("interactive terminal"), "got: {msg}");
    assert!(cmd_init(InitState::Begin, started(true), &platforms()).is_err());
}

#[test]
fn the_last_targets_win() {
    let pair = |a: &str, s: &str| (a.to_string(), s.to_string());
    let first = vec![pair("cursor", "local"), pair("codex", "global")];
    let second = vec![pair("windsurf", "global")];
    for text in [
        "",
        "\n\n",
        "# Mine\n\nlocal  skill  a.md",
        "install  cursor  local\r\n\nlocal  skill  a.md\r\n",
        "local  skill  a.md\ninstall\n  install codex local\nlocal  skill  b.md\n",
    ] {
        let once = build_manifest_with_targets(text, &second);
        let after = build_manifest_with_targets(&build_manifest_with_targets(text, &first), &second);
        assert_eq!(after, once);
        assert_eq!(build_manifest_with_targets(&once, &second), once);
    }
    // a carriage return is lost each time a line that ends in two is read
    let odd = build_manifest_with_targets("a\r\r\n", &first);
    assert_eq!(odd, "install  cursor  local\ninstall  codex  global\n\na\r\n");
    assert_eq!(
        build_manifest_with_targets(&odd, &first),
        "install  cursor  local\ninstall  codex  global\n\na\n"
    );
}

#[test]
fn a_marked_first_line_stays_readable() {
    let pairs = vec![("cursor".to_string(), "local".to_string())];
    let text = "\u{feff}local  skill  skills/foo.md\ninstall  codex  global\n";
    let after = build_manifest_with_targets(text, &pairs);
    assert_eq!(after, "install  cursor  local\n\nlocal  skill  skills/foo.md\n");
    assert_eq!(parse_manifest_str(&after).manifest.entries[0].name, "foo");
    let text = "\u{feff}install  codex  global\nlocal  skill  skills/foo.md\n";
    assert_eq!(build_manifest_with_targets(text, &pairs), after);
}
