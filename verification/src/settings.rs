//! Render settings: terminal capabilities and geometry, and the syntax
//! set used to resolve code-block language tokens.

use vstd::prelude::*;
use crate::terminal::{TerminalCapabilities, TerminalSize};

verus! {

/// Settings for a render run.
pub struct Settings {
    /// The capabilities of the output terminal.
    pub terminal_capabilities: TerminalCapabilities,
    /// The terminal's geometry: rules and borders span its width.
    pub terminal_size: TerminalSize,
    /// The syntax collection used to resolve code-block language tokens.
    pub syntax_set: syntect::parsing::SyntaxSet,
}

} // verus!
