//! Previews of `SKILL.md` files.

use vstd::prelude::*;
use vstd::string::StringExecFns;
use crate::commands::common::push_text;
use crate::commands::styled::{
    bold_colored, bold_style, colored, line_views, no_style, push_line, raw, styled, Color, Line,
    Span, SpanView, Style,
};
use crate::lines::{lines, plain_lines};
use crate::text::{
    after_prefix, byte_len, bytes_len, find_first, first_at, index_of, join, join_all,
    lemma_byte_len_skip, lemma_trim_start_is_end, lowercase, opt_text, pad_to, padded, same,
    slice_string, starts, starts_with, texts, to_chars, trim_both, trim_start, trimmed,
    trimmed_start, until_char,
};

verus! {

// ---------------------------------------------------------------------------
// Front matter and body
// ---------------------------------------------------------------------------

/// What is shown of a `SKILL.md` file: the fields of its front matter, and how its body begins.
#[derive(Debug)]
pub struct PreviewContent {
    pub name: Option<String>,
    pub description: Option<String>,
    pub risk: Option<String>,
    pub source: Option<String>,
    pub body_excerpt: Option<String>,
}

/// What is shown of a `SKILL.md` file, as a value of texts.
pub struct PreviewView {
    pub name: Option<Seq<char>>,
    pub description: Option<Seq<char>>,
    pub risk: Option<Seq<char>>,
    pub source: Option<Seq<char>>,
    pub body_excerpt: Option<Seq<char>>,
}

impl View for PreviewContent {
    type V = PreviewView;

    open spec fn view(&self) -> PreviewView {
        PreviewView {
            name: opt_text(self.name),
            description: opt_text(self.description),
            risk: opt_text(self.risk),
            source: opt_text(self.source),
            body_excerpt: opt_text(self.body_excerpt),
        }
    }
}

/// A preview of nothing.
pub open spec fn empty_preview() -> PreviewView {
    PreviewView { name: None, description: None, risk: None, source: None, body_excerpt: None }
}

/// How many lines of the body are shown.
pub const EXCERPT_LINES: usize = 20;

/// The first lines of a list.
pub open spec fn first_lines(ls: Seq<Seq<char>>) -> Seq<Seq<char>> {
    if ls.len() < EXCERPT_LINES {
        ls
    } else {
        ls.take(EXCERPT_LINES as int)
    }
}

/// How a body begins: its first lines, without leading white space; `None` where there is nothing
/// else.
pub open spec fn excerpt(body: Seq<char>) -> Option<Seq<char>> {
    let b = trim_start(body);
    if b.len() == 0 {
        None
    } else {
        Some(join(first_lines(lines(b)), "\n"@))
    }
}

/// The fields with one more line of the front matter: `key: value` sets a known key, whatever its
/// case; other lines are passed over.
pub open spec fn with_field(c: PreviewView, line: Seq<char>) -> PreviewView {
    let n = until_char(line, ':');
    if n == line.len() {
        c
    } else {
        let key = lowercase(trim_both(line.take(n as int)));
        let value = Some(trim_both(line.skip(n as int + 1)));
        if key == "name"@ {
            PreviewView { name: value, ..c }
        } else if key == "description"@ {
            PreviewView { description: value, ..c }
        } else if key == "risk"@ {
            PreviewView { risk: value, ..c }
        } else if key == "source"@ {
            PreviewView { source: value, ..c }
        } else {
            c
        }
    }
}

/// The fields of the lines of a front matter.
pub open spec fn front_fields(ls: Seq<Seq<char>>) -> PreviewView
    decreases ls.len(),
{
    if ls.len() == 0 {
        empty_preview()
    } else {
        with_field(front_fields(ls.drop_last()), ls.last())
    }
}

/// The front matter of a file and what follows it: the file starts, after white space, with `---`,
/// and the front matter ends at the next line that starts with `---`.
pub open spec fn front_matter(content: Seq<char>) -> Option<(Seq<char>, Seq<char>)> {
    let t = trim_start(content);
    if starts_with(t, "---"@) {
        let a = t.skip(3);
        match first_at(a, "\n---"@) {
            Some(end) => Some((a.take(end), a.skip(end + 4))),
            None => None,
        }
    } else {
        None
    }
}

/// What is shown of a file. Without a front matter all of it is the body.
pub open spec fn preview_of(content: Seq<char>) -> PreviewView {
    match front_matter(content) {
        Some((front, rest)) => PreviewView {
            body_excerpt: excerpt(rest),
            ..front_fields(lines(front))
        },
        None => PreviewView { body_excerpt: excerpt(trim_start(content)), ..empty_preview() },
    }
}

/// Parses the front matter of a `SKILL.md` file and extracts how its body begins.
pub fn parse_skill_frontmatter(content: &str) -> (r: PreviewContent)
    ensures
        r@ == preview_of(content@),
{
    let text = trimmed_start(content);
    proof {
        reveal_strlit("---");
        reveal_strlit("\n---");
    }
    if let Some(after_opening) = after_prefix(&text, "---") {
        let v = to_chars(&after_opening);
        if let Some(end) = find_first(&v, &to_chars("\n---")) {
            let frontmatter = slice_string(&v, 0, end);
            let rest = slice_string(&v, end + 4, v.len());
            assert(frontmatter@ =~= v@.take(end as int));
            assert(rest@ =~= v@.skip(end + 4));
            let mut c = parse_frontmatter_fields(&frontmatter);
            c.body_excerpt = extract_body_excerpt(&rest);
            return c;
        }
    }
    PreviewContent {
        name: None,
        description: None,
        risk: None,
        source: None,
        body_excerpt: extract_body_excerpt(&text),
    }
}

/// Parses the lines of a front matter.
fn parse_frontmatter_fields(frontmatter: &str) -> (r: PreviewContent)
    ensures
        r@ == front_fields(lines(frontmatter@)),
{
    let all = plain_lines(frontmatter);
    let ghost ls = texts(all@);
    let mut c = PreviewContent {
        name: None,
        description: None,
        risk: None,
        source: None,
        body_excerpt: None,
    };
    let mut i: usize = 0;
    while i < all.len()
        invariant
            ls == texts(all@),
            i <= all@.len(),
            c@ == front_fields(ls.take(i as int)),
        decreases all@.len() - i,
    {
        assert(ls.take(i + 1).drop_last() =~= ls.take(i as int));
        assert(ls.take(i + 1).last() == all@[i as int]@);
        let v = to_chars(&all[i]);
        let n: usize = index_of(&v, ':', 0);
        assert(v@.skip(0) =~= v@);
        if n < v.len() {
            let before = slice_string(&v, 0, n);
            let after = slice_string(&v, n + 1, v.len());
            assert(before@ =~= v@.take(n as int));
            assert(after@ =~= v@.skip(n + 1));
            let key = trimmed(&before).to_lowercase();
            let value = trimmed(&after);
            if same(&key, "name") {
                c.name = Some(value);
            } else if same(&key, "description") {
                c.description = Some(value);
            } else if same(&key, "risk") {
                c.risk = Some(value);
            } else if same(&key, "source") {
                c.source = Some(value);
            }
        }
        i += 1;
    }
    assert(ls.take(i as int) =~= ls);
    c
}

/// Extracts how a body begins.
fn extract_body_excerpt(body: &str) -> (r: Option<String>)
    ensures
        opt_text(r) == excerpt(body@),
{
    let b = trimmed_start(body);
    if b.as_str().is_empty() {
        return None;
    }
    let all = plain_lines(&b);
    let ghost ls = texts(all@);
    let mut first: Vec<String> = Vec::new();
    let mut i: usize = 0;
    while i < all.len() && i < EXCERPT_LINES
        invariant
            ls == texts(all@),
            i <= all@.len(),
            i <= EXCERPT_LINES,
            texts(first@) == ls.take(i as int),
        decreases all@.len() - i,
    {
        push_text(&mut first, &all[i]);
        assert(ls.take(i + 1) =~= ls.take(i as int).push(all@[i as int]@));
        i += 1;
    }
    assert(ls.take(i as int) =~= first_lines(ls));
    Some(join_all(&first, "\n"))
}

// ---------------------------------------------------------------------------
// Lines to show
// ---------------------------------------------------------------------------

/// The rule between the fields and the body.
pub const PREVIEW_HR: &'static str =
    "\u{2500}\u{2500}\u{2500}\u{2500}\u{2500}\u{2500}\u{2500}\u{2500}\u{2500}\u{2500}\u{2500}\u{2500}\u{2500}\u{2500}\u{2500}\u{2500}\u{2500}\u{2500}\u{2500}\u{2500}\u{2500}\u{2500}\u{2500}\u{2500}\u{2500}\u{2500}\u{2500}\u{2500}\u{2500}\u{2500}";

/// The icon and the color of a risk.
pub open spec fn risk_mark(risk: Seq<char>) -> (Seq<char>, Color) {
    let l = lowercase(risk);
    if l == "low"@ {
        ("\u{2713}"@, Color::Green)
    } else if l == "medium"@ {
        ("\u{26a0}"@, Color::Yellow)
    } else if l == "high"@ {
        ("\u{2717}"@, Color::Red)
    } else {
        ("\u{2022}"@, Color::White)
    }
}

/// The icon and the color of a risk; of one that is written in ASCII characters, whatever their
/// case.
pub fn risk_icon(risk: &str) -> (r: (&'static str, Color))
    ensures
        r.0@ == risk_mark(risk@).0,
        r.1 == risk_mark(risk@).1,
{
    let l = risk.to_lowercase();
    if same(&l, "low") {
        ("\u{2713}", Color::Green)
    } else if same(&l, "medium") {
        ("\u{26a0}", Color::Yellow)
    } else if same(&l, "high") {
        ("\u{2717}", Color::Red)
    } else {
        ("\u{2022}", Color::White)
    }
}

/// How a heading of a level is shown.
pub open spec fn heading_style(level: int) -> Style {
    bold_colored(
        if level == 1 {
            Color::Cyan
        } else {
            Color::Blue
        },
    )
}

/// The line that shows a line of Markdown.
pub open spec fn markdown_line(line: Seq<char>) -> Seq<SpanView> {
    let t = trim_start(line);
    if starts_with(t, "#### "@) {
        seq![styled(t.skip(5), heading_style(4))]
    } else if starts_with(t, "### "@) {
        seq![styled(t.skip(4), heading_style(3))]
    } else if starts_with(t, "## "@) {
        seq![styled(t.skip(3), heading_style(2))]
    } else if starts_with(t, "# "@) {
        seq![styled(t.skip(2), heading_style(1))]
    } else if starts_with(t, "- "@) || starts_with(t, "* "@) {
        seq![
            raw(pad_to(Seq::empty(), (byte_len(line) - byte_len(t)) as nat)),
            styled("  \u{2022} "@, colored(Color::DarkGray)),
            raw(t.skip(2)),
        ]
    } else if starts_with(t, "```"@) {
        seq![styled(line, colored(Color::DarkGray))]
    } else if t == "---"@ {
        seq![styled(PREVIEW_HR@, colored(Color::DarkGray))]
    } else {
        seq![raw(line)]
    }
}

/// Styles a line of Markdown: headings without their marks, list items with a bullet, code fences
/// dimmed and `---` as a rule.
pub fn style_markdown_line(line: &str) -> (r: Line)
    ensures
        r@ == markdown_line(line@),
{
    let t = trimmed_start(line);
    proof {
        reveal_strlit("#### ");
        reveal_strlit("### ");
        reveal_strlit("## ");
        reveal_strlit("# ");
        reveal_strlit("- ");
        reveal_strlit("* ");
    }
    if let Some(text) = after_prefix(&t, "#### ") {
        return Line::one(Span::styled(&text, Style::bold_fg(Color::Blue)));
    }
    if let Some(text) = after_prefix(&t, "### ") {
        return Line::one(Span::styled(&text, Style::bold_fg(Color::Blue)));
    }
    if let Some(text) = after_prefix(&t, "## ") {
        return Line::one(Span::styled(&text, Style::bold_fg(Color::Blue)));
    }
    if let Some(text) = after_prefix(&t, "# ") {
        return Line::one(Span::styled(&text, Style::bold_fg(Color::Cyan)));
    }
    let dash = after_prefix(&t, "- ");
    let star = after_prefix(&t, "* ");
    let item = match dash {
        Some(x) => Some(x),
        None => star,
    };
    if let Some(text) = item {
        proof {
            lemma_trim_start_is_end(line@);
            lemma_byte_len_skip(line@, line@.len() - t@.len());
            reveal_strlit("");
            assert(""@ =~= Seq::<char>::empty());
        }
        let indent: usize = bytes_len(line) - bytes_len(&t);
        let prefix = padded("", indent);
        let mut spans: Vec<Span> = Vec::new();
        spans.push(Span::raw(&prefix));
        spans.push(Span::styled("  \u{2022} ", Style::fg(Color::DarkGray)));
        spans.push(Span::raw(&text));
        let r = Line { spans };
        assert(r@ =~= markdown_line(line@));
        return r;
    }
    if starts(&t, "```") {
        Line::one(Span::styled(line, Style::fg(Color::DarkGray)))
    } else if same(&t, "---") {
        Line::one(Span::styled(PREVIEW_HR, Style::fg(Color::DarkGray)))
    } else {
        Line::raw(line)
    }
}

/// A field of a preview: its label, dimmed, and its text.
pub open spec fn field_line(label: Seq<char>, text: Seq<char>, style: Style) -> Seq<SpanView> {
    seq![styled(label, colored(Color::DarkGray)), styled(text, style)]
}

/// The line of a field, where there is one.
pub open spec fn opt_field(label: Seq<char>, text: Option<Seq<char>>, style: Style) -> Seq<
    Seq<SpanView>,
> {
    match text {
        Some(t) => seq![field_line(label, t, style)],
        None => Seq::empty(),
    }
}

/// The line of a risk, where there is one.
pub open spec fn risk_field(risk: Option<Seq<char>>) -> Seq<Seq<SpanView>> {
    match risk {
        Some(t) => seq![
            field_line(
                "Risk:        "@,
                risk_mark(t).0 + " "@ + t,
                bold_colored(risk_mark(t).1),
            ),
        ],
        None => Seq::empty(),
    }
}

/// The lines of the body, below a rule, where there is one.
pub open spec fn body_lines(body: Option<Seq<char>>) -> Seq<Seq<SpanView>> {
    match body {
        Some(b) => seq![
            seq![raw(""@)],
            seq![styled(PREVIEW_HR@, colored(Color::DarkGray))],
            seq![raw(""@)],
        ] + lines(b).map_values(|l: Seq<char>| markdown_line(l)),
        None => Seq::empty(),
    }
}

/// What is said where there is neither a name nor a description nor a body.
pub open spec fn fallback_lines(c: PreviewView) -> Seq<Seq<SpanView>> {
    if c.name is None && c.description is None && c.body_excerpt is None {
        seq![seq![styled("No metadata available."@, colored(Color::DarkGray))]]
    } else {
        Seq::empty()
    }
}

/// The lines that show a preview.
pub open spec fn content_lines(c: PreviewView) -> Seq<Seq<SpanView>> {
    opt_field("Name:        "@, c.name, bold_style()) + opt_field(
        "Description: "@,
        c.description,
        no_style(),
    ) + risk_field(c.risk) + opt_field("Source:      "@, c.source, colored(Color::Magenta))
        + body_lines(c.body_excerpt) + fallback_lines(c)
}

/// The line of a field.
pub fn field(label: &str, text: &str, style: Style) -> (r: Line)
    ensures
        r@ == field_line(label@, text@, style),
{
    Line::two(Span::styled(label, Style::fg(Color::DarkGray)), Span::styled(text, style))
}

fn push_opt_field(out: &mut Vec<Line>, label: &str, text: &Option<String>, style: Style)
    ensures
        line_views(final(out)@) == line_views(old(out)@) + opt_field(
            label@,
            opt_text(*text),
            style,
        ),
{
    let ghost before = line_views(out@);
    if let Some(t) = text {
        push_line(out, field(label, t, style));
    }
    assert(line_views(out@) =~= before + opt_field(label@, opt_text(*text), style));
}

fn push_risk(out: &mut Vec<Line>, risk: &Option<String>)
    ensures
        line_views(final(out)@) == line_views(old(out)@) + risk_field(opt_text(*risk)),
{
    let ghost before = line_views(out@);
    if let Some(t) = risk {
        let (icon, color) = risk_icon(t);
        let mut s: String = String::from_str(icon);
        s.append(" ");
        s.append(t);
        push_line(out, field("Risk:        ", &s, Style::bold_fg(color)));
    }
    assert(line_views(out@) =~= before + risk_field(opt_text(*risk)));
}

/// Adds an empty line, a rule and an empty line.
pub fn push_rule(out: &mut Vec<Line>)
    ensures
        line_views(final(out)@) == line_views(old(out)@) + seq![
            seq![raw(""@)],
            seq![styled(PREVIEW_HR@, colored(Color::DarkGray))],
            seq![raw(""@)],
        ],
{
    let ghost before = line_views(out@);
    push_line(out, Line::raw(""));
    push_line(out, Line::one(Span::styled(PREVIEW_HR, Style::fg(Color::DarkGray))));
    push_line(out, Line::raw(""));
    assert(line_views(out@) =~= before + seq![
        seq![raw(""@)],
        seq![styled(PREVIEW_HR@, colored(Color::DarkGray))],
        seq![raw(""@)],
    ]);
}

/// Builds the lines that show a preview.
pub fn build_skill_content_lines(content: &PreviewContent) -> (r: Vec<Line>)
    ensures
        line_views(r@) == content_lines(content@),
{
    let mut out: Vec<Line> = Vec::new();
    assert(line_views(out@) =~= Seq::empty());
    push_opt_field(&mut out, "Name:        ", &content.name, Style::bold());
    push_opt_field(&mut out, "Description: ", &content.description, Style::plain());
    push_risk(&mut out, &content.risk);
    push_opt_field(&mut out, "Source:      ", &content.source, Style::fg(Color::Magenta));
    append_body_and_fallback(&mut out, content);
    assert(line_views(out@) =~= content_lines(content@));
    out
}

/// Adds the body below a rule, or says that there is nothing to show.
fn append_body_and_fallback(out: &mut Vec<Line>, content: &PreviewContent)
    ensures
        line_views(final(out)@) == line_views(old(out)@) + body_lines(content@.body_excerpt)
            + fallback_lines(content@),
{
    let ghost before = line_views(out@);
    if let Some(body) = &content.body_excerpt {
        push_rule(out);
        let all = plain_lines(body);
        let ghost ls = texts(all@);
        let ghost shown = ls.map_values(|l: Seq<char>| markdown_line(l));
        let ghost start = line_views(out@);
        let mut i: usize = 0;
        assert(start + shown.take(0) =~= start);
        while i < all.len()
            invariant
                ls == texts(all@),
                shown == ls.map_values(|l: Seq<char>| markdown_line(l)),
                i <= all@.len(),
                line_views(out@) == start + shown.take(i as int),
            decreases all@.len() - i,
        {
            let l = style_markdown_line(&all[i]);
            assert(shown[i as int] == markdown_line(ls[i as int]));
            assert(start + shown.take(i + 1) =~= (start + shown.take(i as int)).push(l@));
            push_line(out, l);
            i += 1;
        }
        assert(shown.take(i as int) =~= shown);
    }
    assert(line_views(out@) =~= before + body_lines(content@.body_excerpt));
    let ghost middle = line_views(out@);
    if content.name.is_none() && content.description.is_none() && content.body_excerpt.is_none() {
        push_line(
            out,
            Line::one(Span::styled("No metadata available.", Style::fg(Color::DarkGray))),
        );
    }
    assert(line_views(out@) =~= middle + fallback_lines(content@));
}

} // verus!
