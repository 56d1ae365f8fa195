//! Visual styles for spans of terminal text.

use vstd::prelude::*;

verus! {

/// A terminal colour.  The named variants are the classic eight ANSI
/// colours; `Rgb` is a 24-bit colour as used by syntax highlighting themes.
#[derive(Clone, Copy, Debug)]
pub enum Colour {
    Black,
    Red,
    Green,
    Yellow,
    Blue,
    Purple,
    Cyan,
    White,
    Rgb(u8, u8, u8),
}

/// The visual style applied to a span of text: an optional foreground
/// colour and the classic font attributes.
///
/// Styles compose by value: a child span starts from its parent's style and
/// overrides single attributes, so popping a frame restores the parent style
/// without any separate stack.
#[derive(Clone, Copy, Debug)]
pub struct Style {
    pub fg: Option<Colour>,
    pub bold: bool,
    pub italic: bool,
    pub underline: bool,
    pub strikethrough: bool,
}

/// The default style: no colour, no attributes.
pub open spec fn default_style() -> Style {
    Style { fg: None, bold: false, italic: false, underline: false, strikethrough: false }
}

impl Style {
    /// The default style; equal to `default_style()`.
    pub fn new() -> (r: Style)
        ensures
            r == default_style(),
    {
        Style { fg: None, bold: false, italic: false, underline: false, strikethrough: false }
    }

    /// This style with the foreground replaced.
    pub fn fg(self, colour: Colour) -> (r: Style)
        ensures
            r == (Style { fg: Some(colour), ..self }),
    {
        Style { fg: Some(colour), ..self }
    }

    /// This style with bold set.
    pub fn bold(self) -> (r: Style)
        ensures
            r == (Style { bold: true, ..self }),
    {
        Style { bold: true, ..self }
    }

    /// This style with italic toggled.  Toggling keeps doubly nested
    /// emphasis readable: emphasis inside emphasis becomes upright again.
    pub fn toggle_italic(self) -> (r: Style)
        ensures
            r == (Style { italic: !self.italic, ..self }),
    {
        Style { italic: !self.italic, ..self }
    }

    /// This style with strikethrough set.
    pub fn strikethrough(self) -> (r: Style)
        ensures
            r == (Style { strikethrough: true, ..self }),
    {
        Style { strikethrough: true, ..self }
    }
}

} // verus!
