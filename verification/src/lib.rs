//! A streaming Markdown-to-terminal rendering engine.
//!
//! The engine consumes a flat stream of Markdown parser events and emits
//! styled, indented text for a terminal.  Rendering is driven by an explicit
//! state machine: each event takes the current state to a new one and
//! appends output characters.  Styling, hyperlinks and marks are emitted
//! according to the configured terminal capabilities.

pub mod ansi;
pub mod data;
pub mod event;
pub mod highlight;
pub mod props;
pub mod render;
pub mod resolve;
pub mod settings;
pub mod state;
pub mod strutil;
pub mod write;
pub mod style;
pub mod terminal;
