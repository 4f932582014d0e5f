//! Styled text, as a terminal shows it.

use vstd::prelude::*;
use vstd::string::StringExecFns;

verus! {

/// The colors in use.
#[derive(Debug, Clone, Copy, PartialEq, Eq, Structural)]
pub enum Color {
    Red,
    Green,
    Yellow,
    Blue,
    Magenta,
    Cyan,
    White,
    DarkGray,
}

/// How a piece of text is shown.
#[derive(Debug, Clone, Copy, PartialEq, Eq, Structural)]
pub struct Style {
    pub fg: Option<Color>,
    pub bold: bool,
    pub underlined: bool,
}

/// The style of plain text.
pub open spec fn no_style() -> Style {
    Style { fg: None, bold: false, underlined: false }
}

/// The style of text in a color.
pub open spec fn colored(c: Color) -> Style {
    Style { fg: Some(c), bold: false, underlined: false }
}

/// The style of bold text in a color.
pub open spec fn bold_colored(c: Color) -> Style {
    Style { fg: Some(c), bold: true, underlined: false }
}

/// The style of underlined text in a color.
pub open spec fn underlined_colored(c: Color) -> Style {
    Style { fg: Some(c), bold: false, underlined: true }
}

/// The style of bold text.
pub open spec fn bold_style() -> Style {
    Style { fg: None, bold: true, underlined: false }
}

impl Style {
    /// Plain text.
    pub fn plain() -> (r: Self)
        ensures
            r == no_style(),
    {
        Style { fg: None, bold: false, underlined: false }
    }

    /// Text in a color.
    pub fn fg(c: Color) -> (r: Self)
        ensures
            r == colored(c),
    {
        Style { fg: Some(c), bold: false, underlined: false }
    }

    /// Bold text.
    pub fn bold() -> (r: Self)
        ensures
            r == bold_style(),
    {
        Style { fg: None, bold: true, underlined: false }
    }

    /// Bold text in a color.
    pub fn bold_fg(c: Color) -> (r: Self)
        ensures
            r == bold_colored(c),
    {
        Style { fg: Some(c), bold: true, underlined: false }
    }

    /// Underlined text in a color.
    pub fn underlined_fg(c: Color) -> (r: Self)
        ensures
            r == underlined_colored(c),
    {
        Style { fg: Some(c), bold: false, underlined: true }
    }
}

/// A piece of text in one style.
#[derive(Debug)]
pub struct Span {
    pub content: String,
    pub style: Style,
}

/// A piece of text in one style, as a value of texts.
pub struct SpanView {
    pub content: Seq<char>,
    pub style: Style,
}

impl View for Span {
    type V = SpanView;

    open spec fn view(&self) -> SpanView {
        SpanView { content: self.content@, style: self.style }
    }
}

/// A piece of text in a style.
pub open spec fn styled(content: Seq<char>, style: Style) -> SpanView {
    SpanView { content, style }
}

/// A piece of plain text.
pub open spec fn raw(content: Seq<char>) -> SpanView {
    SpanView { content, style: no_style() }
}

/// The contents of a list of pieces.
pub open spec fn span_views(v: Seq<Span>) -> Seq<SpanView> {
    v.map_values(|s: Span| s@)
}

impl Span {
    /// A piece of text in a style.
    pub fn styled(content: &str, style: Style) -> (r: Self)
        ensures
            r@ == styled(content@, style),
    {
        Span { content: content.to_owned(), style }
    }

    /// A piece of plain text.
    pub fn raw(content: &str) -> (r: Self)
        ensures
            r@ == raw(content@),
    {
        Span { content: content.to_owned(), style: Style::plain() }
    }
}

/// A line of pieces of text.
#[derive(Debug)]
pub struct Line {
    pub spans: Vec<Span>,
}

impl View for Line {
    type V = Seq<SpanView>;

    open spec fn view(&self) -> Seq<SpanView> {
        span_views(self.spans@)
    }
}

/// The contents of a list of lines.
pub open spec fn line_views(v: Seq<Line>) -> Seq<Seq<SpanView>> {
    v.map_values(|l: Line| l@)
}

/// The text of a line.
pub open spec fn line_text(l: Seq<SpanView>) -> Seq<char>
    decreases l.len(),
{
    if l.len() == 0 {
        Seq::empty()
    } else {
        line_text(l.drop_last()) + l.last().content
    }
}

impl Line {
    /// A line of one piece.
    pub fn one(a: Span) -> (r: Self)
        ensures
            r@ == seq![a@],
    {
        let mut spans: Vec<Span> = Vec::new();
        spans.push(a);
        let r = Line { spans };
        assert(r@ =~= seq![a@]);
        r
    }

    /// A line of two pieces.
    pub fn two(a: Span, b: Span) -> (r: Self)
        ensures
            r@ == seq![a@, b@],
    {
        let mut spans: Vec<Span> = Vec::new();
        spans.push(a);
        spans.push(b);
        let r = Line { spans };
        assert(r@ =~= seq![a@, b@]);
        r
    }

    /// A line of plain text.
    pub fn raw(content: &str) -> (r: Self)
        ensures
            r@ == seq![raw(content@)],
    {
        Line::one(Span::raw(content))
    }

    /// The text of the line.
    pub fn to_string(&self) -> (r: String)
        ensures
            r@ == line_text(self@),
    {
        let ghost l = self@;
        let mut out: String = String::new();
        let mut i: usize = 0;
        assert(out@ =~= line_text(l.take(0)));
        while i < self.spans.len()
            invariant
                l == span_views(self.spans@),
                i <= self.spans@.len(),
                out@ == line_text(l.take(i as int)),
            decreases self.spans@.len() - i,
        {
            assert(l.take(i + 1).drop_last() =~= l.take(i as int));
            assert(l.take(i + 1).last() == self.spans@[i as int]@);
            out.append(&self.spans[i].content);
            i += 1;
        }
        assert(l.take(i as int) =~= l);
        out
    }
}

/// Adds a piece of text to a list.
pub fn push_span(out: &mut Vec<Span>, s: Span)
    ensures
        span_views(final(out)@) == span_views(old(out)@).push(s@),
{
    let ghost before = span_views(out@);
    out.push(s);
    assert(span_views(out@) =~= before.push(s@));
}

/// Adds the pieces of one list to another.
pub fn append_spans(out: &mut Vec<Span>, more: Vec<Span>)
    ensures
        span_views(final(out)@) == span_views(old(out)@) + span_views(more@),
{
    let ghost before = span_views(out@);
    let ghost added = span_views(more@);
    let mut rest = more;
    out.append(&mut rest);
    assert(span_views(out@) =~= before + added);
}

/// Adds a line to a list.
pub fn push_line(out: &mut Vec<Line>, l: Line)
    ensures
        line_views(final(out)@) == line_views(old(out)@).push(l@),
{
    let ghost before = line_views(out@);
    out.push(l);
    assert(line_views(out@) =~= before.push(l@));
}

/// Adds the lines of one list to another.
pub fn append_lines(out: &mut Vec<Line>, more: Vec<Line>)
    ensures
        line_views(final(out)@) == line_views(old(out)@) + line_views(more@),
{
    let ghost before = line_views(out@);
    let ghost added = line_views(more@);
    let mut rest = more;
    out.append(&mut rest);
    assert(line_views(out@) =~= before + added);
}

} // verus!
