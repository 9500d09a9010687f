//! Colours, styles and styled text.
use vstd::prelude::*;

use crate::syntax::TextStyle;

verus! {

/// A colour by its red, green and blue parts.
#[derive(Debug, Clone, Copy, PartialEq, Eq, Structural)]
pub struct Color {
    pub r: u8,
    pub g: u8,
    pub b: u8,
}

/// How text is drawn. A colour that is not set is taken from below.
#[derive(Debug, Clone, Copy, PartialEq, Eq)]
pub struct Style {
    pub fg: Option<Color>,
    pub bg: Option<Color>,
    pub bold: bool,
    pub dim: bool,
    pub italic: bool,
    pub underlined: bool,
}

/// The colour with the given parts.
pub open spec fn rgb_of(r: u8, g: u8, b: u8) -> Color {
    Color { r, g, b }
}

/// The colour with the given parts.
pub fn rgb(r: u8, g: u8, b: u8) -> (c: Color)
    ensures
        c == rgb_of(r, g, b),
{
    Color { r, g, b }
}

/// The style that sets nothing.
pub open spec fn plain_style() -> Style {
    Style { fg: None, bg: None, bold: false, dim: false, italic: false, underlined: false }
}

impl Style {
    /// With a foreground colour.
    pub open spec fn with_fg(self, c: Color) -> Style {
        Style { fg: Some(c), ..self }
    }

    /// With a background colour.
    pub open spec fn with_bg(self, c: Color) -> Style {
        Style { bg: Some(c), ..self }
    }

    /// In bold.
    pub open spec fn with_bold(self) -> Style {
        Style { bold: true, ..self }
    }

    /// Dimmed.
    pub open spec fn with_dim(self) -> Style {
        Style { dim: true, ..self }
    }

    /// In italics.
    pub open spec fn with_italic(self) -> Style {
        Style { italic: true, ..self }
    }

    /// Underlined.
    pub open spec fn with_underline(self) -> Style {
        Style { underlined: true, ..self }
    }

    /// The style that sets nothing.
    pub fn plain() -> (s: Style)
        ensures
            s == plain_style(),
    {
        Style { fg: None, bg: None, bold: false, dim: false, italic: false, underlined: false }
    }

    /// This style with a foreground colour.
    pub fn fg(self, c: Color) -> (s: Style)
        ensures
            s == self.with_fg(c),
    {
        Style { fg: Some(c), ..self }
    }

    /// This style with a background colour.
    pub fn bg(self, c: Color) -> (s: Style)
        ensures
            s == self.with_bg(c),
    {
        Style { bg: Some(c), ..self }
    }

    /// This style in bold.
    pub fn bold(self) -> (s: Style)
        ensures
            s == self.with_bold(),
    {
        Style { bold: true, ..self }
    }

    /// This style dimmed.
    pub fn dim(self) -> (s: Style)
        ensures
            s == self.with_dim(),
    {
        Style { dim: true, ..self }
    }

    /// This style in italics.
    pub fn italic(self) -> (s: Style)
        ensures
            s == self.with_italic(),
    {
        Style { italic: true, ..self }
    }

    /// This style underlined.
    pub fn underline(self) -> (s: Style)
        ensures
            s == self.with_underline(),
    {
        Style { underlined: true, ..self }
    }
}

/// A piece of text in one style.
#[derive(Debug)]
pub struct Span {
    pub text: String,
    pub style: Style,
}

/// The value of a [`Span`].
#[verifier::ext_equal]
pub struct SpanV {
    pub text: Seq<char>,
    pub style: Style,
}

impl View for Span {
    type V = SpanV;

    open spec fn view(&self) -> SpanV {
        SpanV { text: self.text@, style: self.style }
    }
}

impl Clone for Span {
    fn clone(&self) -> (r: Self)
        ensures
            r@ == self@,
    {
        Span { text: self.text.clone(), style: self.style }
    }
}

impl Span {
    /// A piece of text in a style.
    pub fn new(text: String, style: Style) -> (r: Span)
        ensures
            r@ == (SpanV { text: text@, style }),
    {
        Span { text, style }
    }

    /// A copy of a piece of text in a style.
    pub fn of(text: &str, style: Style) -> (r: Span)
        ensures
            r@ == (SpanV { text: text@, style }),
    {
        Span { text: text.to_owned(), style }
    }
}

/// A piece of text in a style.
pub open spec fn span(text: Seq<char>, style: Style) -> SpanV {
    SpanV { text, style }
}

/// The values of a list of spans.
pub open spec fn span_views(spans: Seq<Span>) -> Seq<SpanV> {
    Seq::new(spans.len(), |i: int| spans[i]@)
}

/// The values of a list of rows.
pub open spec fn row_views(rows: Seq<Vec<Span>>) -> Seq<Seq<SpanV>> {
    Seq::new(rows.len(), |i: int| span_views(rows[i]@))
}

/// The text of spans in a row.
pub open spec fn spans_text(spans: Seq<SpanV>) -> Seq<char>
    decreases spans.len(),
{
    if spans.len() == 0 {
        Seq::empty()
    } else {
        spans_text(spans.drop_last()) + spans.last().text
    }
}

/// The text of spans grows by that of the last one.
pub proof fn lemma_spans_text_push(spans: Seq<SpanV>, s: SpanV)
    ensures
        spans_text(spans.push(s)) == spans_text(spans) + s.text,
{
    assert(spans.push(s).drop_last() =~= spans);
}

/// A style drawn over with the style of a token.
pub open spec fn token_style(base: Style, style: TextStyle, is_current: bool) -> Style {
    Style {
        fg: Some(rgb_of(style.fg.0, style.fg.1, style.fg.2)),
        bg: base.bg,
        bold: base.bold || style.bold || is_current,
        dim: base.dim,
        italic: base.italic || style.italic,
        underlined: base.underlined || style.underline,
    }
}

/// A style drawn over with the style of a token.
pub fn apply_text_style(base: Style, style: TextStyle, is_current: bool) -> (r: Style)
    ensures
        r == token_style(base, style, is_current),
{
    let mut s = base.fg(rgb(style.fg.0, style.fg.1, style.fg.2));
    if style.bold {
        s = s.bold();
    }
    if style.italic {
        s = s.italic();
    }
    if style.underline {
        s = s.underline();
    }
    if is_current {
        s = s.bold();
    }
    s
}

} // verus!
