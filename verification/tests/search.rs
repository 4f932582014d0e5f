//! Searching registries: how results are shown, and where a skill comes from.

use skillfile::commands::search::{
    build_meta_line, cmd_search, coords_from_answers, entry_path_from_github_path,
    interactive_select, print_table, prompt_result, rank_by_name, resolve_skill_path,
    resolve_source_coords, CoordStep, GithubMeta, MatchScore, PathStep, Prompt, SearchConfig,
    SearchOutput, SourceCoords,
};
use skillfile::error::SkillfileError;
use skillfile::registry::{RegistryId, SearchResponse, SearchResult};

fn paths(strs: &[&str]) -> Vec<String> {
    strs.iter().map(|s| s.to_string()).collect()
}

fn sample_response() -> SearchResponse {
    SearchResponse {
        total: 2,
        items: vec![
            SearchResult {
                name: "code-assessor".to_string(),
                owner: "alice".to_string(),
                description: Some("Review code changes".to_string()),
                security_score: Some(92),
                stars: Some(150),
                url: "https://agentskill.sh/@alice/code-assessor".to_string(),
                registry: RegistryId::AgentskillSh,
                source_repo: Some("alice/code-assessor".to_string()),
                source_path: None,
            },
            SearchResult {
                name: "pr-review".to_string(),
                owner: "bob".to_string(),
                description: None,
                security_score: None,
                stars: None,
                url: "https://agentskill.sh/@bob/pr-review".to_string(),
                registry: RegistryId::AgentskillSh,
                source_repo: Some("bob/pr-review".to_string()),
                source_path: None,
            },
        ],
    }
}

fn multi_registry_response() -> SearchResponse {
    SearchResponse {
        total: 3,
        items: vec![
            SearchResult {
                name: "code-assessor".to_string(),
                owner: "alice".to_string(),
                description: Some("Review code changes".to_string()),
                security_score: Some(92),
                stars: Some(150),
                url: "https://agentskill.sh/@alice/code-assessor".to_string(),
                registry: RegistryId::AgentskillSh,
                source_repo: Some("alice/code-assessor".to_string()),
                source_path: None,
            },
            SearchResult {
                name: "docker-helper".to_string(),
                owner: "dockerfan".to_string(),
                description: None,
                security_score: None,
                stars: Some(500),
                url: "https://skills.sh/dockerfan/docker-helper/docker-helper".to_string(),
                registry: RegistryId::SkillsSh,
                source_repo: Some("dockerfan/docker-helper".to_string()),
                source_path: None,
            },
            SearchResult {
                name: "testing-pro".to_string(),
                owner: "testmaster".to_string(),
                description: Some("Advanced testing".to_string()),
                security_score: Some(88),
                stars: Some(75),
                url: "https://www.skillhub.club/skills/testing-pro".to_string(),
                registry: RegistryId::SkillhubClub,
                source_repo: None,
                source_path: None,
            },
        ],
    }
}

#[test]
fn entry_path_root_skill_md() {
    assert_eq!(entry_path_from_github_path("SKILL.md"), ".");
}

#[test]
fn entry_path_root_skill_md_case_insensitive() {
    assert_eq!(entry_path_from_github_path("skill.md"), ".");
    assert_eq!(entry_path_from_github_path("Skill.md"), ".");
}

#[test]
fn entry_path_nested_skill_md_becomes_dir() {
    assert_eq!(
        entry_path_from_github_path("skills/kubernetes-specialist/SKILL.md"),
        "skills/kubernetes-specialist"
    );
}

#[test]
fn entry_path_deeply_nested_skill_md() {
    assert_eq!(
        entry_path_from_github_path("skills/arnarsson/fzf-fuzzy-finder/SKILL.md"),
        "skills/arnarsson/fzf-fuzzy-finder"
    );
}

#[test]
fn entry_path_regular_md_stays_as_is() {
    assert_eq!(
        entry_path_from_github_path("agents/code-assessor.md"),
        "agents/code-assessor.md"
    );
}

#[test]
fn entry_path_non_skill_md_stays_as_is() {
    assert_eq!(
        entry_path_from_github_path("skills/docker/helper.md"),
        "skills/docker/helper.md"
    );
}

#[test]
fn rank_exact_dir_entry() {
    // Directory entry: last segment matches skill name exactly.
    let entries = paths(&["skills/kubernetes-specialist", "skills/docker-helper"]);
    let ranked = rank_by_name(&entries, "kubernetes-specialist");
    assert_eq!(ranked.len(), 1);
    assert_eq!(ranked[0].path, "skills/kubernetes-specialist");
    assert_eq!(ranked[0].score, MatchScore::Exact);
}

#[test]
fn rank_exact_single_file() {
    // Single-file entry: stem (without .md) matches skill name.
    let entries = paths(&["skills/kubernetes-specialist.md", "skills/docker-helper.md"]);
    let ranked = rank_by_name(&entries, "kubernetes-specialist");
    assert_eq!(ranked.len(), 1);
    assert_eq!(ranked[0].path, "skills/kubernetes-specialist.md");
    assert_eq!(ranked[0].score, MatchScore::Exact);
}

#[test]
fn rank_exact_case_insensitive() {
    let entries = paths(&["skills/Kubernetes-Specialist", "skills/other"]);
    let ranked = rank_by_name(&entries, "kubernetes-specialist");
    assert_eq!(ranked.len(), 1);
    assert_eq!(ranked[0].score, MatchScore::Exact);
}

#[test]
fn rank_contains_match() {
    let entries = paths(&["skills/advanced-kubernetes-specialist-v2", "skills/docker"]);
    let ranked = rank_by_name(&entries, "kubernetes-specialist");
    assert_eq!(ranked.len(), 1);
    assert_eq!(ranked[0].path, "skills/advanced-kubernetes-specialist-v2");
    assert_eq!(ranked[0].score, MatchScore::Contains);
}

#[test]
fn rank_exact_beats_contains() {
    let entries = paths(&[
        "skills/extra-kubernetes-specialist-stuff",
        "skills/kubernetes-specialist",
    ]);
    let ranked = rank_by_name(&entries, "kubernetes-specialist");
    assert_eq!(ranked.len(), 2);
    assert_eq!(ranked[0].score, MatchScore::Exact);
    assert_eq!(ranked[0].path, "skills/kubernetes-specialist");
    assert_eq!(ranked[1].score, MatchScore::Contains);
}

#[test]
fn rank_no_matches_returns_empty() {
    let entries = paths(&["skills/docker", "skills/python", "skills/rust.md"]);
    let ranked = rank_by_name(&entries, "kubernetes-specialist");
    assert!(ranked.is_empty());
}

#[test]
fn rank_dot_entry_never_matches() {
    // "." is the root SKILL.md — should not match a specific name.
    let entries = paths(&["."]);
    let ranked = rank_by_name(&entries, "some-skill");
    assert!(ranked.is_empty());
}

#[test]
fn rank_empty_entries_returns_empty() {
    let ranked = rank_by_name(&vec![], "anything");
    assert!(ranked.is_empty());
}

#[test]
fn rank_contains_matches_parent_dir() {
    // Name appears in a parent dir segment.
    let entries = paths(&["kubernetes-specialist/references", "unrelated/thing.md"]);
    let ranked = rank_by_name(&entries, "kubernetes-specialist");
    assert_eq!(ranked.len(), 1);
    assert_eq!(ranked[0].score, MatchScore::Contains);
}

#[test]
fn rank_multi_skill_repo_finds_right_one() {
    let entries = paths(&[
        "skills/kubernetes-specialist",
        "skills/docker-helper",
        "skills/python-pro",
        "skills/code-assessor.md",
    ]);
    let ranked = rank_by_name(&entries, "kubernetes-specialist");
    assert_eq!(ranked.len(), 1);
    assert_eq!(ranked[0].path, "skills/kubernetes-specialist");
    assert_eq!(ranked[0].score, MatchScore::Exact);
}

#[test]
fn table_single_registry_shows_via_label() {
    let resp = sample_response();
    let out = print_table(&resp, Some("agentskill.sh"));
    assert!(out.contains("via agentskill.sh"));
    assert!(out.contains("code-assessor"));
    assert!(out.contains("Review code changes"));
    assert!(out.contains("by alice"));
    assert!(out.contains("150 stars"));
    assert!(out.contains("score: 92/100"));
}

#[test]
fn table_single_registry_omits_registry_tag() {
    let resp = sample_response();
    let out = print_table(&resp, Some("agentskill.sh"));
    assert!(!out.contains("[agentskill.sh]"));
}

#[test]
fn table_multi_registry_shows_tags_and_label() {
    let resp = multi_registry_response();
    let out = print_table(&resp, None);
    assert!(out.contains("[agentskill.sh]"));
    assert!(out.contains("[skills.sh]"));
    assert!(out.contains("[skillhub.club]"));
    assert!(out.contains("across all registries"));
}

#[test]
fn table_empty_results() {
    let resp = SearchResponse {
        total: 0,
        items: vec![],
    };
    let out = print_table(&resp, None);
    assert!(out.contains("No results found."));
}

#[test]
fn table_shows_total_when_more() {
    let resp = SearchResponse {
        total: 50,
        items: vec![SearchResult {
            name: "test".to_string(),
            owner: "owner".to_string(),
            description: Some("A test skill".to_string()),
            security_score: Some(80),
            stars: Some(10),
            url: "https://agentskill.sh/@owner/test".to_string(),
            registry: RegistryId::AgentskillSh,
            source_repo: None,
            source_path: None,
        }],
    };
    let out = print_table(&resp, Some("agentskill.sh"));
    assert!(out.contains("1 result shown (50 total, via agentskill.sh)"));
}

#[test]
fn table_result_without_optional_fields() {
    let resp = SearchResponse {
        total: 1,
        items: vec![SearchResult {
            name: "minimal".to_string(),
            owner: String::new(),
            description: None,
            security_score: None,
            stars: None,
            url: "https://agentskill.sh/@x/minimal".to_string(),
            registry: RegistryId::AgentskillSh,
            source_repo: None,
            source_path: None,
        }],
    };
    let out = print_table(&resp, Some("agentskill.sh"));
    assert!(out.contains("minimal"));
    assert!(out.contains("agentskill.sh/@x/minimal"));
    assert!(!out.contains("by "));
    assert!(!out.contains("stars"));
    assert!(!out.contains("score:"));
}

#[test]
fn prompt_result_ok_returns_some() {
    let value = prompt_result(Prompt::Answer("test".to_string())).unwrap();
    assert_eq!(value, Some("test".to_string()));
}

#[test]
fn prompt_result_canceled_returns_none() {
    let value = prompt_result(Prompt::Canceled).unwrap();
    assert!(value.is_none());
}

#[test]
fn prompt_result_interrupted_returns_none() {
    let value = prompt_result(Prompt::Interrupted).unwrap();
    assert!(value.is_none());
}

#[test]
fn prompt_result_io_error_returns_err() {
    let io_err = std::io::Error::other("test error");
    let err = prompt_result(Prompt::Failed(io_err.to_string())).unwrap_err();
    assert!(err.to_string().contains("prompt failed"));
    assert!(matches!(err, SkillfileError::Install(m) if m == "prompt failed: test error"));
}

#[test]
fn the_table_is_exact() {
    let out = print_table(&sample_response(), Some("agentskill.sh"));
    let gap = " ".repeat(26);
    let expected = format!(
        "  code-assessor           Review code changes\n{gap}by alice  150 stars  score: 92/100\n{gap}https://agentskill.sh/@alice/code-assessor\n\n  pr-review               \n{gap}by bob\n{gap}https://agentskill.sh/@bob/pr-review\n\n2 results (via agentskill.sh)\n"
    );
    assert_eq!(out, expected);
}

#[test]
fn meta_lines() {
    let items = multi_registry_response().items;
    assert_eq!(build_meta_line(&items[0]), "by alice  150 stars  score: 92/100");
    assert_eq!(build_meta_line(&items[1]), "by dockerfan  500 stars");
}

#[test]
fn how_the_path_of_a_skill_is_found() {
    assert!(matches!(resolve_skill_path(&paths(&[]), "x"), PathStep::Prompt));
    assert!(matches!(resolve_skill_path(&paths(&["a"]), "x"), PathStep::Take(p) if p == "a"));
    assert!(
        matches!(resolve_skill_path(&paths(&["a/x-y", "b/X.md"]), "x"), PathStep::Take(p) if p == "b/X.md")
    );
    assert!(
        matches!(resolve_skill_path(&paths(&["a", "b/x-y"]), "x"), PathStep::Pick(l) if l == vec!["b/x-y"])
    );
    assert!(
        matches!(resolve_skill_path(&paths(&["a", "b"]), "x"), PathStep::Pick(l) if l == vec!["a", "b"])
    );
}

#[test]
fn where_a_result_comes_from() {
    let mut item = sample_response().items.remove(0);
    match resolve_source_coords(&item) {
        CoordStep::Known(c) => {
            assert_eq!(c.repo.as_deref(), Some("alice/code-assessor"));
            assert_eq!(c.path, None);
        }
        _ => panic!("expected known coordinates"),
    }
    item.source_repo = None;
    assert!(matches!(resolve_source_coords(&item), CoordStep::Ask(s) if s == "alice/code-assessor"));
    item.registry = RegistryId::SkillsSh;
    assert!(matches!(resolve_source_coords(&item), CoordStep::Known(_)));
}

#[test]
fn answers_of_the_registry() {
    let meta = |repo: &str, path: &str| {
        Some(GithubMeta { source_repo: repo.to_string(), source_path: path.to_string() })
    };
    let c = coords_from_answers(meta("a/b", "p"), meta("c/d", "q"));
    assert_eq!((c.repo.as_deref(), c.path.as_deref()), (Some("a/b"), Some("p")));
    let c = coords_from_answers(None, meta("c/d", ""));
    assert_eq!((c.repo.as_deref(), c.path.as_deref()), (Some("c/d"), None));
    let c = coords_from_answers(None, None);
    assert_eq!((c.repo, c.path), (None, None));
}

#[test]
fn what_is_shown_of_a_selected_result() {
    let item = sample_response().items.remove(0);
    let s = interactive_select(
        &item,
        &SourceCoords { repo: Some("alice/code-assessor".to_string()), path: None },
    );
    assert_eq!(
        s.shown,
        "\n  https://agentskill.sh/@alice/code-assessor\n  source: alice/code-assessor\n\n"
    );
    assert!(!s.unresolved);
    assert!(interactive_select(&item, &SourceCoords { repo: None, path: None }).unresolved);
}

#[test]
fn how_results_are_shown() {
    let mut cfg = SearchConfig {
        query: "q",
        limit: 10,
        min_score: None,
        json: false,
        registry: None,
        no_interactive: false,
        repo_root: ".",
    };
    let resp = sample_response();
    assert!(matches!(cmd_search(&cfg, true, &resp), SearchOutput::Interactive));
    assert!(matches!(cmd_search(&cfg, false, &resp), SearchOutput::Table));
    let empty = SearchResponse { items: vec![], total: 0 };
    assert!(matches!(cmd_search(&cfg, true, &empty), SearchOutput::Table));
    cfg.no_interactive = true;
    assert!(matches!(cmd_search(&cfg, true, &resp), SearchOutput::Table));
    cfg.json = true;
    assert!(matches!(cmd_search(&cfg, true, &resp), SearchOutput::Json));
}
