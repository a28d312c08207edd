//! Styled text as the diff view draws it: colours, styles, spans and lines.

use vstd::prelude::*;

verus! {

/// A terminal colour.
#[derive(Debug, Clone, Copy, PartialEq, Eq, Structural)]
pub enum Color {
    Cyan,
    Green,
    Red,
    DarkGray,
    White,
    Rgb(u8, u8, u8),
}

/// How a span of text is drawn; `None` leaves a colour as the terminal has it.
#[derive(Debug, Clone, Copy, PartialEq, Eq, Structural)]
pub struct Style {
    pub fg: Option<Color>,
    pub bg: Option<Color>,
    pub bold: bool,
    pub italic: bool,
}

impl Style {
    /// The style that changes nothing.
    pub open spec fn plain_spec() -> Style {
        Style { fg: None, bg: None, bold: false, italic: false }
    }

    pub fn plain() -> (s: Style)
        ensures
            s == Style::plain_spec(),
    {
        Style { fg: None, bg: None, bold: false, italic: false }
    }

    /// This style with the foreground colour `c`.
    pub fn fg(self, c: Color) -> (s: Style)
        ensures
            s == (Style { fg: Some(c), ..self }),
    {
        Style { fg: Some(c), ..self }
    }

    /// This style with the background colour `c`.
    pub fn bg(self, c: Color) -> (s: Style)
        ensures
            s == (Style { bg: Some(c), ..self }),
    {
        Style { bg: Some(c), ..self }
    }

    /// This style in bold.
    pub fn bold(self) -> (s: Style)
        ensures
            s == (Style { bold: true, ..self }),
    {
        Style { bold: true, ..self }
    }

    /// This style in italics.
    pub fn italic(self) -> (s: Style)
        ensures
            s == (Style { italic: true, ..self }),
    {
        Style { italic: true, ..self }
    }
}

/// A run of text drawn in one style.
#[derive(Debug, Clone, PartialEq)]
pub struct Span {
    pub content: String,
    pub style: Style,
}

pub struct SpanV {
    pub content: Seq<char>,
    pub style: Style,
}

impl View for Span {
    type V = SpanV;

    open spec fn view(&self) -> SpanV {
        SpanV { content: self.content@, style: self.style }
    }
}

/// One line of styled text.
#[derive(Debug, Clone, PartialEq)]
pub struct TextLine {
    pub spans: Vec<Span>,
}

impl View for TextLine {
    type V = Seq<SpanV>;

    open spec fn view(&self) -> Seq<SpanV> {
        self.spans@.map_values(|s: Span| s@)
    }
}

/// The views of a sequence of lines.
pub open spec fn text_lines_view(ls: Seq<TextLine>) -> Seq<Seq<SpanV>> {
    ls.map_values(|l: TextLine| l@)
}

/// The text of `spans`, end to end.
pub open spec fn spans_text(spans: Seq<SpanV>) -> Seq<char>
    decreases spans.len(),
{
    if spans.len() == 0 {
        seq![]
    } else {
        spans_text(spans.drop_last()) + spans.last().content
    }
}

/// A span of `s` in `style`.
pub fn span(s: String, style: Style) -> (r: Span)
    ensures
        r@ == (SpanV { content: s@, style }),
{
    Span { content: s, style }
}

/// A line made of `spans`.
pub fn text_line(spans: Vec<Span>) -> (r: TextLine)
    ensures
        r@ == spans@.map_values(|s: Span| s@),
{
    TextLine { spans }
}

} // verus!
