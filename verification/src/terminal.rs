//! Terminal capabilities and geometry, and the escape sequences the engine
//! emits for hyperlinks and marks.

use vstd::prelude::*;

verus! {

/// Whether the terminal understands SGR styling sequences.
#[derive(Clone, Copy, Debug, PartialEq, Eq, Structural)]
pub enum StyleCapability {
    /// Emit raw text only.
    Plain,
    /// Bracket styled text in SGR escape sequences.
    Ansi,
}

/// Whether the terminal understands OSC 8 hyperlinks.
#[derive(Clone, Copy, Debug, PartialEq, Eq, Structural)]
pub enum LinkCapability {
    /// Render links as numbered references.
    NoLinks,
    /// Emit OSC 8 open and close sequences around link text.
    Osc8,
}

/// Whether the terminal understands iTerm2 shell-integration marks.
#[derive(Clone, Copy, Debug, PartialEq, Eq, Structural)]
pub enum MarkCapability {
    /// Emit no marks.
    NoMarks,
    /// Emit the iTerm2 "set mark" sequence before top-level headings.
    ITerm2,
}

/// The capabilities of the output terminal, one per feature axis.
#[derive(Clone, Copy, Debug)]
pub struct TerminalCapabilities {
    pub style: StyleCapability,
    pub links: LinkCapability,
    pub marks: MarkCapability,
}

/// Terminal geometry in character cells.
#[derive(Clone, Copy, Debug)]
pub struct TerminalSize {
    pub width: usize,
    pub height: usize,
}

/// The OSC 8 sequence opening a hyperlink to `url`.
pub open spec fn osc8_open_seq(url: Seq<char>) -> Seq<char> {
    seq!['\x1b', ']', '8', ';', ';'] + url + seq!['\x1b', '\\']
}

/// The OSC 8 sequence closing the current hyperlink.
pub open spec fn osc8_close_seq() -> Seq<char> {
    seq!['\x1b', ']', '8', ';', ';', '\x1b', '\\']
}

/// The iTerm2 "set mark" sequence.
pub open spec fn iterm2_mark_seq() -> Seq<char> {
    seq!['\x1b', ']', '1', '3', '3', '7', ';', 'S', 'e', 't', 'M', 'a', 'r', 'k', '\x07']
}

/// The mark written before a heading, if the terminal supports marks.
pub open spec fn mark_seq(marks: MarkCapability) -> Seq<char> {
    match marks {
        MarkCapability::NoMarks => Seq::empty(),
        MarkCapability::ITerm2 => iterm2_mark_seq(),
    }
}

} // verus!
