//! Previews of skills.

use skillfile::commands::skill_preview::{
    build_skill_content_lines, parse_skill_frontmatter, risk_icon, style_markdown_line,
    PreviewContent, PREVIEW_HR,
};
use skillfile::commands::styled::Color;

#[test]
fn parse_frontmatter_full() {
    let content = "\
---
name: Browser Automation
description: Automate web browsing tasks
risk: medium
source: community
---

## Use this skill when
- You need to interact with web pages
";
    let preview = parse_skill_frontmatter(content);
    assert_eq!(preview.name.as_deref(), Some("Browser Automation"));
    assert_eq!(
        preview.description.as_deref(),
        Some("Automate web browsing tasks")
    );
    assert_eq!(preview.risk.as_deref(), Some("medium"));
    assert_eq!(preview.source.as_deref(), Some("community"));
    assert!(preview.body_excerpt.is_some());
    assert!(preview.body_excerpt.unwrap().contains("Use this skill"));
}

#[test]
fn parse_frontmatter_missing_fields() {
    let content = "\
---
name: Simple Skill
---

Some body text.
";
    let preview = parse_skill_frontmatter(content);
    assert_eq!(preview.name.as_deref(), Some("Simple Skill"));
    assert!(preview.description.is_none());
    assert!(preview.risk.is_none());
    assert!(preview.source.is_none());
    assert!(preview.body_excerpt.is_some());
}

#[test]
fn parse_frontmatter_no_frontmatter() {
    let content = "# Just a heading\n\nSome body text.\n";
    let preview = parse_skill_frontmatter(content);
    assert!(preview.name.is_none());
    assert!(preview.body_excerpt.is_some());
    assert!(preview.body_excerpt.unwrap().contains("Just a heading"));
}

#[test]
fn parse_frontmatter_empty_content() {
    let preview = parse_skill_frontmatter("");
    assert!(preview.name.is_none());
    assert!(preview.body_excerpt.is_none());
}

#[test]
fn parse_frontmatter_only_whitespace() {
    let preview = parse_skill_frontmatter("   \n  \n  ");
    assert!(preview.name.is_none());
    assert!(preview.body_excerpt.is_none());
}

#[test]
fn parse_frontmatter_body_truncated_to_20_lines() {
    let mut content = "---\nname: Test\n---\n".to_string();
    for i in 0..30 {
        content.push_str(&format!("Line {i}\n"));
    }
    let preview = parse_skill_frontmatter(&content);
    let body = preview.body_excerpt.unwrap();
    let line_count = body.lines().count();
    assert_eq!(line_count, 20);
}

#[test]
fn risk_icon_mapping() {
    assert_eq!(risk_icon("low"), ("\u{2713}", Color::Green));
    assert_eq!(risk_icon("medium"), ("\u{26a0}", Color::Yellow));
    assert_eq!(risk_icon("high"), ("\u{2717}", Color::Red));
    assert_eq!(risk_icon("unknown"), ("\u{2022}", Color::White));
}

#[test]
fn risk_icon_case_insensitive() {
    assert_eq!(risk_icon("LOW").1, Color::Green);
    assert_eq!(risk_icon("Medium").1, Color::Yellow);
    assert_eq!(risk_icon("HIGH").1, Color::Red);
}

#[test]
fn style_h1_cyan_bold_stripped() {
    let line = style_markdown_line("# Heading One");
    let text: String = line.spans.iter().map(|s| s.content.as_str()).collect();
    assert_eq!(text, "Heading One");
    assert_eq!(line.spans[0].style.fg, Some(Color::Cyan));
}

#[test]
fn style_h2_blue_bold_stripped() {
    let line = style_markdown_line("## Heading Two");
    let text: String = line.spans.iter().map(|s| s.content.as_str()).collect();
    assert_eq!(text, "Heading Two");
    assert_eq!(line.spans[0].style.fg, Some(Color::Blue));
}

#[test]
fn style_h3_blue_bold_stripped() {
    let line = style_markdown_line("### Heading Three");
    let text: String = line.spans.iter().map(|s| s.content.as_str()).collect();
    assert_eq!(text, "Heading Three");
    assert_eq!(line.spans[0].style.fg, Some(Color::Blue));
}

#[test]
fn style_h4_blue_bold_stripped() {
    let line = style_markdown_line("#### Heading Four");
    let text: String = line.spans.iter().map(|s| s.content.as_str()).collect();
    assert_eq!(text, "Heading Four");
    assert_eq!(line.spans[0].style.fg, Some(Color::Blue));
}

#[test]
fn style_list_bullet_gray_dot() {
    let line = style_markdown_line("- List item");
    let text: String = line.spans.iter().map(|s| s.content.as_str()).collect();
    assert!(text.contains('\u{2022}'));
    assert!(text.contains("List item"));
}

#[test]
fn style_code_fence_dark_gray() {
    let line = style_markdown_line("```rust");
    assert_eq!(line.spans[0].style.fg, Some(Color::DarkGray));
}

#[test]
fn style_hr_becomes_preview_hr() {
    let line = style_markdown_line("---");
    let text: String = line.spans.iter().map(|s| s.content.as_str()).collect();
    assert_eq!(text, PREVIEW_HR);
}

#[test]
fn style_plain_text_unchanged() {
    let line = style_markdown_line("Just some text");
    let text: String = line.spans.iter().map(|s| s.content.as_str()).collect();
    assert_eq!(text, "Just some text");
}

#[test]
fn style_indented_list_preserves_indent() {
    let line = style_markdown_line("  - Indented item");
    let text: String = line.spans.iter().map(|s| s.content.as_str()).collect();
    assert!(text.starts_with("  "));
    assert!(text.contains("Indented item"));
}

#[test]
fn content_lines_full_metadata() {
    let content = PreviewContent {
        name: Some("Test Skill".to_string()),
        description: Some("A test skill".to_string()),
        risk: Some("low".to_string()),
        source: Some("community".to_string()),
        body_excerpt: Some("## Usage\n- Step one".to_string()),
    };
    let lines = build_skill_content_lines(&content);
    let text: String = lines
        .iter()
        .map(|l| l.to_string())
        .collect::<Vec<_>>()
        .join("\n");
    assert!(text.contains("Test Skill"));
    assert!(text.contains("A test skill"));
    assert!(text.contains("\u{2713} low"));
    assert!(text.contains("community"));
    assert!(text.contains("Usage"));
    assert!(text.contains("Step one"));
}

#[test]
fn content_lines_no_metadata_fallback() {
    let content = PreviewContent {
        name: None,
        description: None,
        risk: None,
        source: None,
        body_excerpt: None,
    };
    let lines = build_skill_content_lines(&content);
    let text: String = lines
        .iter()
        .map(|l| l.to_string())
        .collect::<Vec<_>>()
        .join("\n");
    assert!(text.contains("No metadata available."));
}

#[test]
fn content_lines_name_only() {
    let content = PreviewContent {
        name: Some("Just a Name".to_string()),
        description: None,
        risk: None,
        source: None,
        body_excerpt: None,
    };
    let lines = build_skill_content_lines(&content);
    let text: String = lines
        .iter()
        .map(|l| l.to_string())
        .collect::<Vec<_>>()
        .join("\n");
    assert!(text.contains("Just a Name"));
    assert!(!text.contains("No metadata available."));
}

#[test]
fn content_lines_body_only() {
    let content = PreviewContent {
        name: None,
        description: None,
        risk: None,
        source: None,
        body_excerpt: Some("# Title\nSome body text".to_string()),
    };
    let lines = build_skill_content_lines(&content);
    let text: String = lines
        .iter()
        .map(|l| l.to_string())
        .collect::<Vec<_>>()
        .join("\n");
    assert!(text.contains("Title"));
    assert!(!text.contains("No metadata available."));
}

#[test]
fn content_lines_risk_with_icon() {
    let content = PreviewContent {
        name: None,
        description: None,
        risk: Some("high".to_string()),
        source: None,
        body_excerpt: None,
    };
    let lines = build_skill_content_lines(&content);
    let text: String = lines
        .iter()
        .map(|l| l.to_string())
        .collect::<Vec<_>>()
        .join("\n");
    assert!(text.contains("\u{2717} high"));
}

#[test]
fn frontmatter_edge_cases() {
    let p = parse_skill_frontmatter("---\nname: \"Quoted\"\ndescription: a: b\nrisk:\n---\nBody\n\n");
    assert_eq!(p.name.as_deref(), Some("\"Quoted\""));
    assert_eq!(p.risk.as_deref(), Some(""));
    assert_eq!(p.description.as_deref(), Some("a: b"));
    assert_eq!(p.body_excerpt.as_deref(), Some("Body\n"));
    let open = parse_skill_frontmatter("---\nname: X\nno end");
    assert!(open.name.is_none());
    assert_eq!(open.body_excerpt.as_deref(), Some("---\nname: X\nno end"));
}

#[test]
fn risk_lowers_letters_of_any_script() {
    assert_eq!(risk_icon("HI\u{130}GH").1, Color::White);
    assert_eq!(risk_icon("\u{212a}").0, "\u{2022}");
}
