//! Colors, styled text and screen rectangles.
use crate::strs;
use vstd::prelude::*;

verus! {

/// A terminal color.
#[derive(Debug, Clone, Copy, PartialEq, Eq, Structural)]
pub enum Color {
    Reset,
    Red,
    Blue,
    Gray,
    Rgb(u8, u8, u8),
    Indexed(u8),
}

/// How a piece of text is drawn.
#[derive(Debug, Clone, Copy, PartialEq, Eq, Structural)]
pub struct Style {
    pub fg: Option<Color>,
    pub bg: Option<Color>,
    pub bold: bool,
    pub italic: bool,
    pub reversed: bool,
}

/// No color and no modifier.
pub open spec fn plain() -> Style {
    Style { fg: None, bg: None, bold: false, italic: false, reversed: false }
}

/// A foreground color alone.
pub open spec fn colored(c: Color) -> Style {
    Style { fg: Some(c), ..plain() }
}

/// `st` on another background, where there is one.
pub open spec fn on(st: Style, bg: Option<Color>) -> Style {
    match bg {
        Some(b) => Style { bg: Some(b), ..st },
        None => st,
    }
}

impl Style {
    /// No color and no modifier.
    pub fn new() -> (r: Style)
        ensures
            r == plain(),
    {
        Style { fg: None, bg: None, bold: false, italic: false, reversed: false }
    }

    /// With this foreground.
    pub fn fg(self, c: Color) -> (r: Style)
        ensures
            r == (Style { fg: Some(c), ..self }),
    {
        Style { fg: Some(c), ..self }
    }

    /// With this background.
    pub fn bg(self, c: Color) -> (r: Style)
        ensures
            r == (Style { bg: Some(c), ..self }),
    {
        Style { bg: Some(c), ..self }
    }

    /// With this background, where there is one.
    pub fn on(self, bg: Option<Color>) -> (r: Style)
        ensures
            r == on(self, bg),
    {
        match bg {
            Some(b) => self.bg(b),
            None => self,
        }
    }

    /// In bold.
    pub fn bold(self) -> (r: Style)
        ensures
            r == (Style { bold: true, ..self }),
    {
        Style { bold: true, ..self }
    }

    /// In italics.
    pub fn italic(self) -> (r: Style)
        ensures
            r == (Style { italic: true, ..self }),
    {
        Style { italic: true, ..self }
    }

    /// With foreground and background exchanged.
    pub fn reversed(self) -> (r: Style)
        ensures
            r == (Style { reversed: true, ..self }),
    {
        Style { reversed: true, ..self }
    }
}

/// A piece of text in one style.
#[derive(Debug)]
pub struct Span {
    pub text: String,
    pub style: Style,
}

/// What a [`Span`] says.
#[verifier::ext_equal]
pub struct SpanV {
    pub text: Seq<char>,
    pub style: Style,
}

impl View for Span {
    type V = SpanV;

    open spec fn view(&self) -> SpanV {
        SpanV { text: self.text@, style: self.style }
    }
}

impl Clone for Span {
    fn clone(&self) -> (r: Span)
        ensures
            r@ == self@,
    {
        Span { text: self.text.clone(), style: self.style }
    }
}

/// A piece of text in one style.
pub open spec fn span(text: Seq<char>, style: Style) -> SpanV {
    SpanV { text, style }
}

/// One line of the screen.
#[derive(Debug)]
pub struct Line {
    pub spans: Vec<Span>,
}

impl View for Line {
    type V = Seq<SpanV>;

    open spec fn view(&self) -> Seq<SpanV> {
        strs::views(self.spans@)
    }
}

impl Span {
    /// Text in a style.
    pub fn styled(text: String, style: Style) -> (r: Span)
        ensures
            r@ == span(text@, style),
    {
        Span { text, style }
    }

    /// Text in no style.
    pub fn raw(text: String) -> (r: Span)
        ensures
            r@ == span(text@, plain()),
    {
        Span { text, style: Style::new() }
    }
}

/// A rectangle of cells on the screen.
#[derive(Debug, Clone, Copy, PartialEq, Eq, Structural)]
pub struct Rect {
    pub x: u16,
    pub y: u16,
    pub width: u16,
    pub height: u16,
}

/// The empty rectangle.
pub open spec fn no_rect() -> Rect {
    Rect { x: 0, y: 0, width: 0, height: 0 }
}

impl Default for Rect {
    fn default() -> (r: Rect)
        ensures
            r == no_rect(),
    {
        Rect { x: 0, y: 0, width: 0, height: 0 }
    }
}

/// Whether the cell is inside the rectangle.
pub open spec fn inside(rect: Rect, col: u16, row: u16) -> bool {
    rect.x <= col < rect.x + rect.width && rect.y <= row < rect.y + rect.height
}

/// Is `(col, row)` inside `rect`?
pub fn hit(rect: Rect, col: u16, row: u16) -> (r: bool)
    ensures
        r == inside(rect, col, row),
{
    col >= rect.x && (col as u32) < rect.x as u32 + rect.width as u32 && row >= rect.y && (
    row as u32) < rect.y as u32 + rect.height as u32
}

} // verus!
