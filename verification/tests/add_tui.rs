//! The picker for entries of a repository.

use skillfile::commands::add_tui::{
    build_github_url, display_label, draw_list, draw_preview, draw_status_bar, fetch_preview,
    handle_key, handle_key_jump_bottom, handle_key_jump_top, handle_key_space,
    handle_key_toggle_all, is_dir_entry, list_title, move_selection, parent_hint,
    path_matches_query, preview_title, resolve_preview_path, resolve_result, resolve_selections,
    App, PreviewState, SCROLL_STEP,
};
use skillfile::commands::picker::{KeyCode, KeyEvent};
use skillfile::commands::skill_preview::PreviewContent;
use skillfile::commands::styled::{Color, Line};

fn key(code: KeyCode) -> KeyEvent {
    KeyEvent { code, control: false }
}

fn control(code: KeyCode) -> KeyEvent {
    KeyEvent { code, control: true }
}

fn shown(lines: &Vec<Line>) -> Vec<String> {
    lines.iter().map(|l| l.to_string()).collect()
}

fn sample_items() -> Vec<String> {
    vec![
        "skills/browser".to_string(),
        "skills/code-review".to_string(),
        "skills/commit".to_string(),
        "skills/debugging/SKILL.md".to_string(),
        "skills/testing".to_string(),
    ]
}

#[test]
fn add_tui_app_new_selects_first_item() {
    let items = sample_items();
    let app = App::new(&items, "owner/repo", "main");
    assert_eq!(app.list_state.selected(), Some(0));
    assert_eq!(app.filtered.len(), 5);
}

#[test]
fn add_tui_app_new_empty_items() {
    let items: Vec<String> = vec![];
    let app = App::new(&items, "owner/repo", "main");
    assert_eq!(app.list_state.selected(), None);
    assert!(app.filtered.is_empty());
}

#[test]
fn app_new_selection_empty() {
    let items = sample_items();
    let app = App::new(&items, "owner/repo", "main");
    assert!(app.selected.is_empty());
}

#[test]
fn highlighted_path_returns_first() {
    let items = sample_items();
    let app = App::new(&items, "owner/repo", "main");
    assert_eq!(app.highlighted_path(), Some("skills/browser"));
}

#[test]
fn highlighted_path_empty_list() {
    let items: Vec<String> = vec![];
    let app = App::new(&items, "owner/repo", "main");
    assert_eq!(app.highlighted_path(), None);
}

#[test]
fn toggle_selection_on_off() {
    let items = sample_items();
    let mut app = App::new(&items, "owner/repo", "main");
    handle_key_space(&mut app);
    assert!(app.selected.contains(&0));
    assert_eq!(app.selection_count(), 1);

    handle_key_space(&mut app);
    assert!(!app.selected.contains(&0));
    assert_eq!(app.selection_count(), 0);
}

#[test]
fn toggle_all_selects_all_filtered() {
    let items = sample_items();
    let mut app = App::new(&items, "owner/repo", "main");
    handle_key_toggle_all(&mut app);
    assert_eq!(app.selection_count(), 5);
}

#[test]
fn toggle_all_deselects_when_all_selected() {
    let items = sample_items();
    let mut app = App::new(&items, "owner/repo", "main");
    handle_key_toggle_all(&mut app);
    assert_eq!(app.selection_count(), 5);
    handle_key_toggle_all(&mut app);
    assert_eq!(app.selection_count(), 0);
}

#[test]
fn selections_persist_across_filter() {
    let items = sample_items();
    let mut app = App::new(&items, "owner/repo", "main");
    handle_key_space(&mut app);
    assert!(app.selected.contains(&0));

    app.filter = "commit".to_string();
    app.refilter();
    assert_eq!(app.filtered.len(), 1);
    assert!(app.selected.contains(&0));

    app.filter.clear();
    app.refilter();
    assert!(app.selected.contains(&0));
}

#[test]
fn toggle_all_only_affects_filtered() {
    let items = sample_items();
    let mut app = App::new(&items, "owner/repo", "main");
    app.filter = "code".to_string();
    app.refilter();
    assert_eq!(app.filtered.len(), 1);

    handle_key_toggle_all(&mut app);
    assert_eq!(app.selection_count(), 1);
    assert!(app.selected.contains(&1));
}

#[test]
fn resolve_selections_returns_correct_paths() {
    let items = sample_items();
    let mut app = App::new(&items, "owner/repo", "main");
    app.selected.insert(0);
    app.selected.insert(2);
    let paths = resolve_selections(&app);
    assert_eq!(paths, vec!["skills/browser", "skills/commit"]);
}

#[test]
fn resolve_selections_empty_when_none_selected() {
    let items = sample_items();
    let app = App::new(&items, "owner/repo", "main");
    let paths = resolve_selections(&app);
    assert!(paths.is_empty());
}

#[test]
fn add_tui_filter_narrows_results() {
    let items = sample_items();
    let mut app = App::new(&items, "owner/repo", "main");
    app.filter = "browser".to_string();
    app.refilter();
    assert_eq!(app.filtered.len(), 1);
    assert_eq!(app.highlighted_path(), Some("skills/browser"));
}

#[test]
fn add_tui_filter_case_insensitive() {
    let items = sample_items();
    let mut app = App::new(&items, "owner/repo", "main");
    app.filter = "BROWSER".to_string();
    app.refilter();
    assert_eq!(app.filtered.len(), 1);
}

#[test]
fn add_tui_filter_no_match_clears_selection() {
    let items = sample_items();
    let mut app = App::new(&items, "owner/repo", "main");
    app.filter = "zzz_nonexistent".to_string();
    app.refilter();
    assert!(app.filtered.is_empty());
    assert!(app.highlighted_path().is_none());
}

#[test]
fn add_tui_clear_filter_restores_all() {
    let items = sample_items();
    let mut app = App::new(&items, "owner/repo", "main");
    app.filter = "browser".to_string();
    app.refilter();
    assert_eq!(app.filtered.len(), 1);

    app.filter.clear();
    app.refilter();
    assert_eq!(app.filtered.len(), 5);
}

#[test]
fn add_tui_filter_multi_word() {
    let items = sample_items();
    let mut app = App::new(&items, "owner/repo", "main");
    app.filter = "skills commit".to_string();
    app.refilter();
    assert_eq!(app.filtered.len(), 1);
    assert_eq!(app.highlighted_path(), Some("skills/commit"));
}

#[test]
fn add_tui_move_selection_down() {
    let items = sample_items();
    let mut app = App::new(&items, "owner/repo", "main");
    move_selection(&mut app, 1);
    assert_eq!(app.list_state.selected(), Some(1));
}

#[test]
fn add_tui_move_selection_wraps_bottom_to_top() {
    let items = sample_items();
    let mut app = App::new(&items, "owner/repo", "main");
    app.list_state.select(Some(4));
    move_selection(&mut app, 1);
    assert_eq!(app.list_state.selected(), Some(0));
}

#[test]
fn add_tui_move_selection_wraps_top_to_bottom() {
    let items = sample_items();
    let mut app = App::new(&items, "owner/repo", "main");
    move_selection(&mut app, -1);
    assert_eq!(app.list_state.selected(), Some(4));
}

#[test]
fn add_tui_move_selection_empty_list() {
    let items: Vec<String> = vec![];
    let mut app = App::new(&items, "owner/repo", "main");
    move_selection(&mut app, 1);
    assert!(app.list_state.selected().is_none());
}

#[test]
fn home_jumps_to_first() {
    let items = sample_items();
    let mut app = App::new(&items, "owner/repo", "main");
    app.list_state.select(Some(3));
    handle_key_jump_top(&mut app);
    assert_eq!(app.list_state.selected(), Some(0));
}

#[test]
fn end_jumps_to_last() {
    let items = sample_items();
    let mut app = App::new(&items, "owner/repo", "main");
    handle_key_jump_bottom(&mut app);
    assert_eq!(app.list_state.selected(), Some(4));
}

#[test]
fn space_toggles_selection() {
    let items = sample_items();
    let mut app = App::new(&items, "owner/repo", "main");
    handle_key(&mut app, key(KeyCode::Char(' ')));
    assert!(app.selected.contains(&0));
}

#[test]
fn enter_confirms_when_selected() {
    let items = sample_items();
    let mut app = App::new(&items, "owner/repo", "main");
    app.selected.insert(0);
    handle_key(&mut app, key(KeyCode::Enter));
    assert!(app.confirmed);
    assert!(app.should_quit());
}

#[test]
fn enter_noop_when_nothing_selected() {
    let items = sample_items();
    let mut app = App::new(&items, "owner/repo", "main");
    handle_key(&mut app, key(KeyCode::Enter));
    assert!(!app.confirmed);
    assert!(!app.should_quit());
}

#[test]
fn add_tui_esc_cancels() {
    let items = sample_items();
    let mut app = App::new(&items, "owner/repo", "main");
    handle_key(&mut app, key(KeyCode::Esc));
    assert!(app.cancelled);
    assert!(app.should_quit());
}

#[test]
fn add_tui_q_cancels_when_filter_empty() {
    let items = sample_items();
    let mut app = App::new(&items, "owner/repo", "main");
    handle_key(&mut app, key(KeyCode::Char('q')));
    assert!(app.cancelled);
}

#[test]
fn add_tui_q_types_into_filter_when_filter_has_text() {
    let items = sample_items();
    let mut app = App::new(&items, "owner/repo", "main");
    app.filter = "bro".to_string();
    handle_key(&mut app, key(KeyCode::Char('q')));
    assert!(!app.cancelled);
    assert_eq!(app.filter, "broq");
}

#[test]
fn add_tui_ctrl_c_cancels() {
    let items = sample_items();
    let mut app = App::new(&items, "owner/repo", "main");
    handle_key(&mut app, control(KeyCode::Char('c')));
    assert!(app.cancelled);
}

#[test]
fn add_tui_typing_updates_filter() {
    let items = sample_items();
    let mut app = App::new(&items, "owner/repo", "main");
    for c in "bro".chars() {
        handle_key(&mut app, key(KeyCode::Char(c)));
    }
    assert_eq!(app.filter, "bro");
    assert_eq!(app.filtered.len(), 1);
}

#[test]
fn add_tui_backspace_removes_from_filter() {
    let items = sample_items();
    let mut app = App::new(&items, "owner/repo", "main");
    app.filter = "bro".to_string();
    app.refilter();
    handle_key(&mut app, key(KeyCode::Backspace));
    assert_eq!(app.filter, "br");
}

#[test]
fn add_tui_j_k_navigate_when_filter_empty() {
    let items = sample_items();
    let mut app = App::new(&items, "owner/repo", "main");
    let j = key(KeyCode::Char('j'));
    handle_key(&mut app, j);
    assert_eq!(app.list_state.selected(), Some(1));

    let k = key(KeyCode::Char('k'));
    handle_key(&mut app, k);
    assert_eq!(app.list_state.selected(), Some(0));
}

#[test]
fn add_tui_g_jumps_to_top() {
    let items = sample_items();
    let mut app = App::new(&items, "owner/repo", "main");
    app.list_state.select(Some(3));
    handle_key(&mut app, key(KeyCode::Char('g')));
    assert_eq!(app.list_state.selected(), Some(0));
}

#[test]
fn add_tui_shift_g_jumps_to_bottom() {
    let items = sample_items();
    let mut app = App::new(&items, "owner/repo", "main");
    handle_key(&mut app, key(KeyCode::Char('G')));
    assert_eq!(app.list_state.selected(), Some(4));
}

#[test]
fn a_toggles_all_when_filter_empty() {
    let items = sample_items();
    let mut app = App::new(&items, "owner/repo", "main");
    handle_key(&mut app, key(KeyCode::Char('a')));
    assert_eq!(app.selection_count(), 5);
}

#[test]
fn a_types_into_filter_when_filter_has_text() {
    let items = sample_items();
    let mut app = App::new(&items, "owner/repo", "main");
    app.filter = "x".to_string();
    handle_key(&mut app, key(KeyCode::Char('a')));
    assert_eq!(app.filter, "xa");
    assert_eq!(app.selection_count(), 0);
}

#[test]
fn resolve_preview_path_dir() {
    assert_eq!(
        resolve_preview_path("skills/browser"),
        "skills/browser/SKILL.md"
    );
}

#[test]
fn resolve_preview_path_file() {
    assert_eq!(
        resolve_preview_path("skills/debugging/SKILL.md"),
        "skills/debugging/SKILL.md"
    );
}

#[test]
fn resolve_preview_path_root() {
    assert_eq!(resolve_preview_path("."), "SKILL.md");
}

#[test]
fn is_dir_entry_true_for_dirs() {
    assert!(is_dir_entry("skills/browser"));
    assert!(is_dir_entry("skills/code-review"));
}

#[test]
fn is_dir_entry_false_for_files() {
    assert!(!is_dir_entry("skills/debugging/SKILL.md"));
}

#[test]
fn display_label_extracts_last_segment() {
    assert_eq!(display_label("skills/browser"), "browser");
    assert_eq!(display_label("skills/debugging/SKILL.md"), "SKILL.md");
}

#[test]
fn display_label_no_slash() {
    assert_eq!(display_label("browser"), "browser");
}

#[test]
fn path_matches_empty_query() {
    assert!(path_matches_query("skills/browser", ""));
}

#[test]
fn path_matches_substring() {
    assert!(path_matches_query("skills/browser", "brow"));
}

#[test]
fn path_no_match() {
    assert!(!path_matches_query("skills/browser", "docker"));
}

#[test]
fn github_url_for_dir() {
    assert_eq!(
        build_github_url("owner/repo", "main", "skills/browser"),
        "https://github.com/owner/repo/tree/main/skills/browser"
    );
}

#[test]
fn github_url_for_file() {
    assert_eq!(
        build_github_url("owner/repo", "main", "skills/foo/SKILL.md"),
        "https://github.com/owner/repo/blob/main/skills/foo/SKILL.md"
    );
}

#[test]
fn github_url_with_ref() {
    assert_eq!(
        build_github_url("org/repo", "v1.0", "skills/bar"),
        "https://github.com/org/repo/tree/v1.0/skills/bar"
    );
}

#[test]
fn github_url_root_path() {
    assert_eq!(
        build_github_url("owner/repo", "main", "."),
        "https://github.com/owner/repo/tree/main"
    );
}

#[test]
fn tab_scrolls_preview_down() {
    let items = sample_items();
    let mut app = App::new(&items, "owner/repo", "main");
    assert_eq!(app.preview_scroll, 0);

    handle_key(&mut app, key(KeyCode::Tab));
    assert_eq!(app.preview_scroll, SCROLL_STEP);
}

#[test]
fn shift_tab_scrolls_preview_up() {
    let items = sample_items();
    let mut app = App::new(&items, "owner/repo", "main");
    app.preview_scroll = 6;

    handle_key(&mut app, key(KeyCode::BackTab));
    assert_eq!(app.preview_scroll, 6 - SCROLL_STEP);
}

#[test]
fn scroll_does_not_underflow() {
    let items = sample_items();
    let mut app = App::new(&items, "owner/repo", "main");
    handle_key(&mut app, key(KeyCode::BackTab));
    assert_eq!(app.preview_scroll, 0);
}

#[test]
fn scroll_resets_on_highlight_change() {
    let items = sample_items();
    let mut app = App::new(&items, "owner/repo", "main");
    app.last_highlighted_idx = Some(0);
    app.preview_scroll = 10;

    // Move to next item
    move_selection(&mut app, 1);
    app.reset_scroll_if_changed();
    assert_eq!(app.preview_scroll, 0);
}

#[test]
fn scroll_persists_when_highlight_unchanged() {
    let items = sample_items();
    let mut app = App::new(&items, "owner/repo", "main");
    app.last_highlighted_idx = Some(0);
    app.preview_scroll = 10;

    app.reset_scroll_if_changed();
    assert_eq!(app.preview_scroll, 10);
}

#[test]
fn parent_hint_with_slash() {
    assert_eq!(parent_hint("skills/browser"), "skills/");
}

#[test]
fn parent_hint_no_slash() {
    assert_eq!(parent_hint("browser"), "");
}

#[test]
fn parent_hint_nested() {
    assert_eq!(
        parent_hint("skills/debugging/SKILL.md"),
        "skills/debugging/"
    );
}

#[test]
fn the_picker_as_it_opens() {
    let items = sample_items();
    let app = App::new(&items, "owner/repo", "main");
    assert_eq!(
        draw_status_bar(&app).to_string(),
        " Space toggle  a all  Tab scroll  Enter confirm  Esc cancel  5/5"
    );
    assert_eq!(list_title(&app).to_string(), " owner/repo ");
    assert_eq!(preview_title(&app), " Preview \u{2191}\u{2193}Tab ");
    assert_eq!(
        shown(&draw_list(&app)),
        vec![
            "\u{25cb} browser  \u{1f4c1}  skills/",
            "\u{25cb} code-review  \u{1f4c1}  skills/",
            "\u{25cb} commit  \u{1f4c1}  skills/",
            "\u{25cb} SKILL.md  skills/debugging/",
            "\u{25cb} testing  \u{1f4c1}  skills/",
        ]
    );
    assert_eq!(
        shown(&draw_preview(&app)),
        vec!["skills/browser", "", "\u{25cb} Loading preview..."]
    );
}

#[test]
fn the_picker_with_a_filter_and_picks() {
    let items = sample_items();
    let mut app = App::new(&items, "owner/repo", "main");
    app.selected.insert(0);
    app.selected.insert(1);
    app.filter = "code".to_string();
    app.refilter();
    app.preview_scroll = 5;
    let bar = draw_status_bar(&app);
    assert_eq!(bar.to_string(), " filter: code_  \u{2713} 2 selected  1/5");
    assert_eq!(bar.spans[1].style.fg, Some(Color::Yellow));
    assert_eq!(
        shown(&draw_list(&app)),
        vec!["\u{25c9} code-review  \u{1f4c1}  skills/"]
    );
    assert_eq!(preview_title(&app), " Preview (scroll: 5) ");
}

#[test]
fn the_picker_without_a_match() {
    let items = sample_items();
    let mut app = App::new(&items, "owner/repo", "main");
    app.filter = "zzz_nonexistent".to_string();
    app.refilter();
    assert!(draw_list(&app).is_empty());
    assert_eq!(shown(&draw_preview(&app)), vec!["No entries match the filter."]);
}

#[test]
fn a_preview_is_fetched_once() {
    let items = sample_items();
    let mut app = App::new(&items, "owner/repo", "main");
    assert_eq!(app.maybe_fetch_preview().as_deref(), Some("skills/browser"));
    assert_eq!(app.maybe_fetch_preview(), None);
    app.poll_previews(vec![("skills/browser".to_string(), PreviewState::Failed)]);
    assert_eq!(
        shown(&draw_preview(&app)),
        vec!["skills/browser", "", "\u{2717} Preview not available"]
    );
    let loaded = PreviewState::Loaded(PreviewContent {
        name: Some("Browser Automation".into()),
        description: Some("Automate browsing".into()),
        risk: Some("medium".into()),
        source: Some("community".into()),
        body_excerpt: Some("## Usage\n- Navigate pages".into()),
    });
    app.poll_previews(vec![("skills/browser".to_string(), loaded)]);
    let lines = shown(&draw_preview(&app));
    assert_eq!(lines[0], "skills/browser");
    assert_eq!(lines[2], "URL:         https://github.com/owner/repo/tree/main/skills/browser");
    assert!(lines.iter().any(|l| l.contains("Browser Automation")));
    assert!(lines.iter().any(|l| l.contains("Navigate pages")));
}

#[test]
fn previews_come_from_bytes() {
    assert!(matches!(fetch_preview(None), PreviewState::Failed));
    let mut bytes = b"---\nname: A\n---\nbody ".to_vec();
    bytes.push(0xFF);
    match fetch_preview(Some(&bytes)) {
        PreviewState::Loaded(p) => {
            assert_eq!(p.name.as_deref(), Some("A"));
            assert_eq!(p.body_excerpt.as_deref(), Some("body \u{fffd}"));
        }
        _ => panic!("expected a preview"),
    }
}

#[test]
fn only_a_confirmed_picker_answers() {
    let items = sample_items();
    let mut app = App::new(&items, "owner/repo", "main");
    handle_key(&mut app, key(KeyCode::Down));
    handle_key(&mut app, key(KeyCode::Char(' ')));
    assert!(resolve_result(&app).is_empty());
    handle_key(&mut app, key(KeyCode::Enter));
    assert_eq!(resolve_result(&app), vec!["skills/code-review"]);
}

#[test]
fn keys_without_a_meaning_change_nothing() {
    let items = sample_items();
    let mut app = App::new(&items, "owner/repo", "main");
    handle_key(&mut app, key(KeyCode::Other));
    handle_key(&mut app, key(KeyCode::Backspace));
    assert_eq!(app.filter, "");
    assert_eq!(app.list_state.selected(), Some(0));
    assert!(!app.should_quit());
}

#[test]
fn picking_twice_changes_nothing() {
    let items = sample_items();
    let mut app = App::new(&items, "owner/repo", "main");
    app.selected.insert(2);
    handle_key_space(&mut app);
    handle_key_space(&mut app);
    assert_eq!(app.selection_count(), 1);
    assert!(app.selected.contains(&2));
}

#[test]
fn filter_lowers_letters_of_any_script() {
    assert!(path_matches_query("skills/\u{c9}T\u{c9}", "\u{e9}t\u{e9}"));
    assert!(path_matches_query("skills/\u{e9}t\u{e9}", "\u{e9}t\u{e9} skills"));
    assert!(!path_matches_query("skills/ete", "\u{e9}t\u{e9}"));
    let items = vec!["skills/\u{e9}t\u{e9}".to_string(), "skills/x".to_string()];
    let mut app = App::new(&items, "o/r", "main");
    app.filter = "\u{c9}T\u{c9} SKILLS".to_string();
    app.refilter();
    assert_eq!(app.filtered, vec![0]);
}

#[test]
fn markdown_goes_by_the_extension() {
    assert!(!is_dir_entry("a/b.MD"));
    assert!(is_dir_entry("a/.md"));
    assert!(!is_dir_entry("."));
    assert_eq!(build_github_url("o/r", "main", "A.Md"), "https://github.com/o/r/blob/main/A.Md");
}
