//! The picker for search results.

use skillfile::commands::picker::{KeyCode, KeyEvent};
use skillfile::commands::search_tui::{
    audit_pass_fail_icon, audit_provider_icon, build_audit_lines, build_description_lines,
    build_preview_lines, draw_list, draw_preview, draw_status_bar, fetch_skill_preview_for_item,
    handle_key, item_matches_query, move_selection, parse_skillssh_audits, registry_color,
    score_color, App, AuditState, SecurityAudit, SkillPreviewState,
};
use skillfile::commands::skill_preview::PreviewContent;
use skillfile::commands::styled::{Color, Line};
use skillfile::registry::{RegistryId, SearchResult};

fn key(code: KeyCode) -> KeyEvent {
    KeyEvent { code, control: false }
}

fn control(code: KeyCode) -> KeyEvent {
    KeyEvent { code, control: true }
}

fn shown(lines: &Vec<Line>) -> Vec<String> {
    lines.iter().map(|l| l.to_string()).collect()
}

fn sample_items() -> Vec<SearchResult> {
    vec![
        SearchResult {
            name: "code-assessor".to_string(),
            owner: "alice".to_string(),
            description: Some("Review code changes automatically".to_string()),
            security_score: Some(92),
            stars: Some(150),
            url: "https://agentskill.sh/@alice/code-assessor".to_string(),
            registry: RegistryId::AgentskillSh,
            source_repo: Some("alice/code-assessor".to_string()),
            source_path: None,
        },
        SearchResult {
            name: "docker-helper".to_string(),
            owner: "dockerfan".to_string(),
            description: None,
            security_score: None,
            stars: Some(500),
            url: "https://skills.sh/dockerfan/docker-helper/docker-helper".to_string(),
            registry: RegistryId::SkillsSh,
            source_repo: Some("dockerfan/docker-helper".to_string()),
            source_path: None,
        },
        SearchResult {
            name: "testing-pro".to_string(),
            owner: "testmaster".to_string(),
            description: Some("Advanced testing utilities for CI/CD".to_string()),
            security_score: Some(88),
            stars: Some(75),
            url: "https://www.skillhub.club/skills/testing-pro".to_string(),
            registry: RegistryId::SkillhubClub,
            source_repo: None,
            source_path: None,
        },
    ]
}

#[test]
fn search_tui_app_new_selects_first_item() {
    let items = sample_items();
    let app = App::new(&items, 3);
    assert_eq!(app.list_state.selected(), Some(0));
    assert_eq!(app.filtered.len(), 3);
}

#[test]
fn search_tui_app_new_empty_items() {
    let items: Vec<SearchResult> = vec![];
    let app = App::new(&items, 0);
    assert_eq!(app.list_state.selected(), None);
    assert!(app.filtered.is_empty());
}

#[test]
fn app_selected_returns_correct_item() {
    let items = sample_items();
    let app = App::new(&items, 3);
    let selected = app.selected().unwrap();
    assert_eq!(selected.name, "code-assessor");
}

#[test]
fn search_tui_filter_narrows_results() {
    let items = sample_items();
    let mut app = App::new(&items, 3);
    app.filter = "docker".to_string();
    app.refilter();
    assert_eq!(app.filtered.len(), 1);
    assert_eq!(app.selected().unwrap().name, "docker-helper");
}

#[test]
fn search_tui_filter_no_match_clears_selection() {
    let items = sample_items();
    let mut app = App::new(&items, 3);
    app.filter = "zzz_nonexistent_zzz".to_string();
    app.refilter();
    assert!(app.filtered.is_empty());
    assert!(app.selected().is_none());
}

#[test]
fn filter_by_registry_name() {
    let items = sample_items();
    let mut app = App::new(&items, 3);
    app.filter = "skillhub".to_string();
    app.refilter();
    assert_eq!(app.filtered.len(), 1);
    assert_eq!(app.selected().unwrap().name, "testing-pro");
}

#[test]
fn search_tui_filter_multi_word() {
    let items = sample_items();
    let mut app = App::new(&items, 3);
    app.filter = "alice review".to_string();
    app.refilter();
    assert_eq!(app.filtered.len(), 1);
    assert_eq!(app.selected().unwrap().name, "code-assessor");
}

#[test]
fn search_tui_filter_case_insensitive() {
    let items = sample_items();
    let mut app = App::new(&items, 3);
    app.filter = "DOCKER".to_string();
    app.refilter();
    assert_eq!(app.filtered.len(), 1);
}

#[test]
fn search_tui_clear_filter_restores_all() {
    let items = sample_items();
    let mut app = App::new(&items, 3);
    app.filter = "docker".to_string();
    app.refilter();
    assert_eq!(app.filtered.len(), 1);

    app.filter.clear();
    app.refilter();
    assert_eq!(app.filtered.len(), 3);
}

#[test]
fn search_tui_move_selection_down() {
    let items = sample_items();
    let mut app = App::new(&items, 3);
    move_selection(&mut app, 1);
    assert_eq!(app.list_state.selected(), Some(1));
}

#[test]
fn search_tui_move_selection_wraps_bottom_to_top() {
    let items = sample_items();
    let mut app = App::new(&items, 3);
    app.list_state.select(Some(2));
    move_selection(&mut app, 1);
    assert_eq!(app.list_state.selected(), Some(0));
}

#[test]
fn search_tui_move_selection_wraps_top_to_bottom() {
    let items = sample_items();
    let mut app = App::new(&items, 3);
    move_selection(&mut app, -1);
    assert_eq!(app.list_state.selected(), Some(2));
}

#[test]
fn search_tui_move_selection_empty_list() {
    let items: Vec<SearchResult> = vec![];
    let mut app = App::new(&items, 0);
    move_selection(&mut app, 1); // should not panic
    assert!(app.list_state.selected().is_none());
}

#[test]
fn search_tui_esc_cancels() {
    let items = sample_items();
    let mut app = App::new(&items, 3);
    handle_key(&mut app, key(KeyCode::Esc));
    assert!(app.cancelled);
    assert!(app.should_quit());
}

#[test]
fn enter_confirms_selection() {
    let items = sample_items();
    let mut app = App::new(&items, 3);
    handle_key(&mut app, key(KeyCode::Enter));
    assert!(app.confirmed);
    assert!(app.should_quit());
}

#[test]
fn enter_on_empty_does_not_confirm() {
    let items: Vec<SearchResult> = vec![];
    let mut app = App::new(&items, 0);
    handle_key(&mut app, key(KeyCode::Enter));
    assert!(!app.confirmed);
    assert!(!app.should_quit());
}

#[test]
fn search_tui_q_cancels_when_filter_empty() {
    let items = sample_items();
    let mut app = App::new(&items, 3);
    handle_key(&mut app, key(KeyCode::Char('q')));
    assert!(app.cancelled);
}

#[test]
fn search_tui_q_types_into_filter_when_filter_has_text() {
    let items = sample_items();
    let mut app = App::new(&items, 3);
    app.filter = "doc".to_string();
    handle_key(&mut app, key(KeyCode::Char('q')));
    assert!(!app.cancelled);
    assert_eq!(app.filter, "docq");
}

#[test]
fn search_tui_ctrl_c_cancels() {
    let items = sample_items();
    let mut app = App::new(&items, 3);
    handle_key(&mut app, control(KeyCode::Char('c')));
    assert!(app.cancelled);
}

#[test]
fn search_tui_typing_updates_filter() {
    let items = sample_items();
    let mut app = App::new(&items, 3);
    for c in "doc".chars() {
        handle_key(&mut app, key(KeyCode::Char(c)));
    }
    assert_eq!(app.filter, "doc");
    assert_eq!(app.filtered.len(), 1); // only docker-helper
}

#[test]
fn search_tui_backspace_removes_from_filter() {
    let items = sample_items();
    let mut app = App::new(&items, 3);
    app.filter = "doc".to_string();
    app.refilter();
    handle_key(&mut app, key(KeyCode::Backspace));
    assert_eq!(app.filter, "do");
}

#[test]
fn search_tui_j_k_navigate_when_filter_empty() {
    let items = sample_items();
    let mut app = App::new(&items, 3);
    let j = key(KeyCode::Char('j'));
    handle_key(&mut app, j);
    assert_eq!(app.list_state.selected(), Some(1));

    let k = key(KeyCode::Char('k'));
    handle_key(&mut app, k);
    assert_eq!(app.list_state.selected(), Some(0));
}

#[test]
fn search_tui_g_jumps_to_top() {
    let items = sample_items();
    let mut app = App::new(&items, 3);
    app.list_state.select(Some(2));
    handle_key(&mut app, key(KeyCode::Char('g')));
    assert_eq!(app.list_state.selected(), Some(0));
}

#[test]
fn search_tui_shift_g_jumps_to_bottom() {
    let items = sample_items();
    let mut app = App::new(&items, 3);
    handle_key(&mut app, key(KeyCode::Char('G')));
    assert_eq!(app.list_state.selected(), Some(2));
}

#[test]
fn registry_color_mapping() {
    assert_eq!(registry_color(RegistryId::AgentskillSh), Color::Magenta);
    assert_eq!(registry_color(RegistryId::SkillsSh), Color::Cyan);
    assert_eq!(registry_color(RegistryId::SkillhubClub), Color::Green);
}

#[test]
fn score_color_ranges() {
    assert_eq!(score_color(100), Color::Green);
    assert_eq!(score_color(80), Color::Green);
    assert_eq!(score_color(79), Color::Yellow);
    assert_eq!(score_color(50), Color::Yellow);
    assert_eq!(score_color(49), Color::Red);
    assert_eq!(score_color(0), Color::Red);
}

#[test]
fn build_preview_includes_all_fields() {
    let item = &sample_items()[0]; // code-assessor — has all fields
    let lines = build_preview_lines(item, Option::<&AuditState>::None, None);
    let text: String = lines
        .iter()
        .map(|l| l.to_string())
        .collect::<Vec<_>>()
        .join("\n");
    assert!(text.contains("code-assessor"), "missing name");
    assert!(text.contains("alice"), "missing owner");
    assert!(text.contains("92/100"), "missing score");
    assert!(text.contains("150"), "missing stars");
    assert!(text.contains("agentskill.sh"), "missing registry");
    assert!(text.contains("alice/code-assessor"), "missing source_repo");
    assert!(text.contains("Review code changes"), "missing description");
}

#[test]
fn build_preview_handles_missing_fields() {
    let item = &sample_items()[1]; // docker-helper — no description, no score
    let lines = build_preview_lines(item, Option::<&AuditState>::None, None);
    let text: String = lines
        .iter()
        .map(|l| l.to_string())
        .collect::<Vec<_>>()
        .join("\n");
    assert!(text.contains("docker-helper"));
    assert!(text.contains("No description"));
    assert!(!text.contains("Security:"));
}

#[test]
fn parse_skillssh_audits_extracts_pass_fail() {
    let html = r#"
        <a href="/owner/repo/skill/security/agent-trust-hub"><div>
        <span>Gen Agent Trust Hub</span><span>Fail</span></div></a>
        <a href="/owner/repo/skill/security/socket"><div>
        <span>Socket</span><span>Pass</span></div></a>
        <a href="/owner/repo/skill/security/snyk"><div>
        <span>Snyk</span><span>Pass</span></div></a>
    "#;
    let audits = parse_skillssh_audits(html);
    assert_eq!(audits.len(), 3);
    assert_eq!(audits[0].provider, "Agent Trust Hub");
    assert!(!audits[0].passed);
    assert_eq!(audits[1].provider, "Socket");
    assert!(audits[1].passed);
    assert_eq!(audits[2].provider, "Snyk");
    assert!(audits[2].passed);
}

#[test]
fn parse_skillssh_audits_all_pass() {
    let html = r#"
        security/agent-trust-hub"><span>X</span><span>Pass</span>
        security/socket"><span>X</span><span>Pass</span>
        security/snyk"><span>X</span><span>Pass</span>
    "#;
    let audits = parse_skillssh_audits(html);
    assert_eq!(audits.len(), 3);
    assert!(audits.iter().all(|a| a.passed));
}

#[test]
fn parse_skillssh_audits_no_matches_returns_empty() {
    let audits = parse_skillssh_audits("<html><body>no audit data</body></html>");
    assert!(audits.is_empty());
}

#[test]
fn build_preview_shows_loaded_audits() {
    let item = &sample_items()[1]; // docker-helper — skills.sh
    let audits = AuditState::Loaded(vec![
        SecurityAudit {
            provider: "Agent Trust Hub".into(),
            passed: true,
        },
        SecurityAudit {
            provider: "Socket".into(),
            passed: true,
        },
        SecurityAudit {
            provider: "Snyk".into(),
            passed: false,
        },
    ]);
    let lines = build_preview_lines(item, Some(&audits), None);
    let text: String = lines
        .iter()
        .map(|l| l.to_string())
        .collect::<Vec<_>>()
        .join("\n");
    assert!(text.contains("Agent Trust Hub"), "missing provider");
    assert!(text.contains("Snyk"), "missing provider");
}

#[test]
fn build_preview_shows_loading_audits() {
    let item = &sample_items()[1]; // docker-helper — skills.sh
    let lines = build_preview_lines(item, Some(&AuditState::Loading), None);
    let text: String = lines
        .iter()
        .map(|l| l.to_string())
        .collect::<Vec<_>>()
        .join("\n");
    assert!(text.contains("loading"), "should show loading state");
}

#[test]
fn skill_preview_spawns_fetch_for_all_registries() {
    let items = sample_items();
    // testing-pro (index 2) is skillhub.club — no source_repo.
    // With Strategy pattern dispatch, all items go through the thread.
    let mut app = App::new(&items, 3);
    app.list_state.select(Some(2));

    app.maybe_fetch_skill_preview();

    let url = &items[2].url;
    assert!(
        matches!(
            app.skill_preview_cache.get(url),
            Some(SkillPreviewState::Loading)
        ),
        "all registries should spawn a fetch thread"
    );
}

#[test]
fn skill_preview_loading_set_for_item_with_source_repo() {
    let items = sample_items();
    // code-assessor (index 0) has source_repo = Some("alice/code-assessor").
    let mut app = App::new(&items, 3);
    // index 0 is already selected by default.

    app.maybe_fetch_skill_preview();

    let url = &items[0].url;
    // Should be Loading (thread spawned) or already Loaded/Failed if thread was fast.
    assert!(
        app.skill_preview_cache.contains_key(url),
        "cache should have an entry for the highlighted item"
    );
}

#[test]
fn skill_preview_not_cached_twice() {
    let items = sample_items();
    let mut app = App::new(&items, 3);

    // First call inserts Loading.
    app.maybe_fetch_skill_preview();
    let url = &items[0].url;
    assert!(app.skill_preview_cache.contains_key(url));

    // Manually replace with NotAvailable to confirm second call is a no-op.
    app.skill_preview_cache
        .insert(url.clone(), SkillPreviewState::NotAvailable);
    app.maybe_fetch_skill_preview();

    // Still NotAvailable — second call did not overwrite.
    match app.skill_preview_cache.get(url) {
        Some(SkillPreviewState::NotAvailable) => {}
        other => panic!("expected NotAvailable after second call, got {other:?}"),
    }
}

#[test]
fn build_preview_includes_skill_content() {
    let item = &sample_items()[0]; // code-assessor
    let content = PreviewContent {
        name: Some("Code Assessor".to_string()),
        description: Some("Automated code review skill".to_string()),
        risk: Some("low".to_string()),
        source: None,
        body_excerpt: Some("## Use this skill when\n- You want automated review".to_string()),
    };
    let skill_state = SkillPreviewState::Loaded(content);
    let lines = build_preview_lines(item, Option::<&AuditState>::None, Some(&skill_state));
    let text: String = lines
        .iter()
        .map(|l| l.to_string())
        .collect::<Vec<_>>()
        .join("\n");
    assert!(text.contains("SKILL.md:"), "missing SKILL.md header");
    assert!(text.contains("Code Assessor"), "missing skill name");
    assert!(
        text.contains("Automated code review skill"),
        "missing skill description"
    );
    assert!(text.contains("low"), "missing risk");
    assert!(text.contains("Use this skill when"), "missing body excerpt");
}

#[test]
fn build_preview_shows_loading_skill_preview() {
    let item = &sample_items()[0];
    let lines = build_preview_lines(
        item,
        Option::<&AuditState>::None,
        Some(&SkillPreviewState::Loading),
    );
    let text: String = lines
        .iter()
        .map(|l| l.to_string())
        .collect::<Vec<_>>()
        .join("\n");
    assert!(text.contains("Loading SKILL.md"), "missing loading message");
}

#[test]
fn build_preview_shows_failed_skill_preview() {
    let item = &sample_items()[0];
    let lines = build_preview_lines(
        item,
        Option::<&AuditState>::None,
        Some(&SkillPreviewState::Failed),
    );
    let text: String = lines
        .iter()
        .map(|l| l.to_string())
        .collect::<Vec<_>>()
        .join("\n");
    assert!(
        text.contains("Could not fetch SKILL.md"),
        "missing failure message"
    );
}

#[test]
fn build_preview_no_skill_section_when_not_available() {
    let item = &sample_items()[2]; // testing-pro — no source_repo
    let lines = build_preview_lines(
        item,
        Option::<&AuditState>::None,
        Some(&SkillPreviewState::NotAvailable),
    );
    let text: String = lines
        .iter()
        .map(|l| l.to_string())
        .collect::<Vec<_>>()
        .join("\n");
    assert!(
        !text.contains("SKILL.md:"),
        "should not show SKILL.md section for NotAvailable"
    );
}

#[test]
fn poll_skill_previews_drains_channel() {
    let items = sample_items();
    let mut app = App::new(&items, 3);
    let url = items[0].url.clone();

    app.poll_skill_previews(vec![(url.clone(), SkillPreviewState::NotAvailable)]);

    match app.skill_preview_cache.get(&url) {
        Some(SkillPreviewState::NotAvailable) => {}
        other => panic!("expected NotAvailable after poll, got {other:?}"),
    }
}

#[test]
fn the_results_as_they_are_shown() {
    let items = sample_items();
    let mut app = App::new(&items, 40);
    assert_eq!(
        draw_status_bar(&app).to_string(),
        " type to filter, Enter to select, Esc to cancel   3/3 (of 40 total) "
    );
    let rows = shown(&draw_list(&app));
    assert_eq!(rows.len(), 3);
    assert!(rows[0].starts_with("code-assessor  \u{2605}150"), "{rows:?}");
    assert!(rows[0].ends_with("  agentskill.sh"), "{rows:?}");
    assert_eq!(rows[1], "docker-helper  \u{2605}500  skills.sh");
    app.filter = "doc".to_string();
    app.refilter();
    assert_eq!(draw_status_bar(&app).to_string(), " filter: doc_   1/3 (of 40 total) ");
    assert_eq!(draw_list(&app).len(), 1);
    assert_eq!(app.resolve_selection(), Some(1));
    app.filter = "zzz".to_string();
    app.refilter();
    assert!(draw_list(&app).is_empty());
    assert_eq!(app.resolve_selection(), None);
    assert_eq!(shown(&draw_preview(&app)), vec!["No results match the filter."]);
}

#[test]
fn audits_are_fetched_once() {
    let items = sample_items();
    let mut app = App::new(&items, 3);
    let url = items[1].url.clone();
    assert_eq!(app.maybe_fetch_audits(), vec![url.clone()]);
    assert!(app.maybe_fetch_audits().is_empty());
    assert!(matches!(app.audit_cache.get(&url), Some(AuditState::Loading)));
    app.poll_audits(vec![(url.clone(), AuditState::Failed)]);
    assert!(matches!(app.audit_cache.get(&url), Some(AuditState::Failed)));
    assert!(app.audit_cache.get(&items[0].url).is_none());
}

#[test]
fn audits_are_read_near_their_link() {
    let far = format!("security/snyk\">{}<b>Pass</b>", "x".repeat(600));
    assert!(parse_skillssh_audits(&far).is_empty());
    let near = format!("security/snyk\">{}<b>Pass</b>", "x".repeat(300));
    let audits = parse_skillssh_audits(&near);
    assert_eq!(audits.len(), 1);
    assert!(audits[0].passed);
}

#[test]
fn previews_of_results() {
    assert!(matches!(fetch_skill_preview_for_item(None), SkillPreviewState::NotAvailable));
    match fetch_skill_preview_for_item(Some("---\nname: X\n---\n".to_string())) {
        SkillPreviewState::Loaded(p) => assert_eq!(p.name.as_deref(), Some("X")),
        _ => panic!("expected a preview"),
    }
}

#[test]
fn icons_of_audits() {
    assert_eq!(audit_provider_icon(true), ("\u{2713} ", Color::Green));
    assert_eq!(audit_provider_icon(false), ("\u{2717} ", Color::Red));
    assert_eq!(audit_pass_fail_icon(true).1, Color::Green);
    assert_eq!(audit_pass_fail_icon(false).1, Color::Red);
}

#[test]
fn lines_of_audits() {
    assert!(build_audit_lines(RegistryId::AgentskillSh, Some(&AuditState::Loading)).is_empty());
    let loaded = AuditState::Loaded(vec![SecurityAudit { provider: "Snyk".into(), passed: false }]);
    let lines = shown(&build_audit_lines(RegistryId::SkillsSh, Some(&loaded)));
    assert!(lines.iter().any(|l| l.contains("\u{2717} Snyk")), "{lines:?}");
}

#[test]
fn lines_of_descriptions() {
    let lines = shown(&build_description_lines(&Some("What it does".to_string())));
    assert!(lines.iter().any(|l| l == "What it does"), "{lines:?}");
}

#[test]
fn results_match_by_every_word() {
    let item = &sample_items()[0];
    assert!(item_matches_query(item, ""));
    assert!(item_matches_query(item, "alice agentskill.sh"));
    assert!(!item_matches_query(item, "alice docker"));
}
