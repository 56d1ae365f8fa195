//! The Markdown event stream consumed by the renderer.
//!
//! Events mirror what a CommonMark parser emits: a flat stream of tag
//! open/close events with inline text, breaks and rules in between.  The
//! stream is expected to be well balanced: every `Start` is eventually
//! matched by an `End` of the same tag, in LIFO order.

use vstd::prelude::*;

verus! {

/// How a link was written in the source document.
#[derive(Clone, Copy, Debug, PartialEq, Eq, Structural)]
pub enum LinkType {
    Inline,
    Reference,
    ReferenceUnknown,
    Collapsed,
    CollapsedUnknown,
    Shortcut,
    ShortcutUnknown,
    Autolink,
    Email,
}

/// The kind of a code block: indented, or fenced with a language token.
#[derive(Clone, Debug)]
pub enum CodeBlockKind {
    Indented,
    Fenced(String),
}

/// A Markdown construct delimited by `Start` and `End` events.
#[derive(Clone, Debug)]
pub enum Tag {
    Paragraph,
    Heading(u32),
    BlockQuote,
    CodeBlock(CodeBlockKind),
    /// A list; `Some(n)` is an ordered list starting at `n`, `None` an
    /// unordered list.
    List(Option<u64>),
    Item,
    FootnoteDefinition(String),
    Table,
    TableHead,
    TableRow,
    TableCell,
    Emphasis,
    Strong,
    Strikethrough,
    Link(LinkType, String, String),
    Image(LinkType, String, String),
}

/// One event of the Markdown stream.
#[derive(Clone, Debug)]
pub enum Event {
    Start(Tag),
    End(Tag),
    Text(String),
    Code(String),
    Html(String),
    FootnoteReference(String),
    SoftBreak,
    HardBreak,
    Rule,
    TaskListMarker(bool),
}

/// Mathematical model of a code block kind.
pub enum CodeBlockKindV {
    Indented,
    Fenced(Seq<char>),
}

/// Mathematical model of a tag.
pub enum TagV {
    Paragraph,
    Heading(u32),
    BlockQuote,
    CodeBlock(CodeBlockKindV),
    List(Option<u64>),
    Item,
    FootnoteDefinition(Seq<char>),
    Table,
    TableHead,
    TableRow,
    TableCell,
    Emphasis,
    Strong,
    Strikethrough,
    Link(LinkType, Seq<char>, Seq<char>),
    Image(LinkType, Seq<char>, Seq<char>),
}

/// Mathematical model of an event.
pub enum EventV {
    Start(TagV),
    End(TagV),
    Text(Seq<char>),
    Code(Seq<char>),
    Html(Seq<char>),
    FootnoteReference(Seq<char>),
    SoftBreak,
    HardBreak,
    Rule,
    TaskListMarker(bool),
}

impl View for CodeBlockKind {
    type V = CodeBlockKindV;

    open spec fn view(&self) -> CodeBlockKindV {
        match self {
            CodeBlockKind::Indented => CodeBlockKindV::Indented,
            CodeBlockKind::Fenced(token) => CodeBlockKindV::Fenced(token@),
        }
    }
}

impl View for Tag {
    type V = TagV;

    open spec fn view(&self) -> TagV {
        match self {
            Tag::Paragraph => TagV::Paragraph,
            Tag::Heading(level) => TagV::Heading(*level),
            Tag::BlockQuote => TagV::BlockQuote,
            Tag::CodeBlock(kind) => TagV::CodeBlock(kind@),
            Tag::List(start) => TagV::List(*start),
            Tag::Item => TagV::Item,
            Tag::FootnoteDefinition(label) => TagV::FootnoteDefinition(label@),
            Tag::Table => TagV::Table,
            Tag::TableHead => TagV::TableHead,
            Tag::TableRow => TagV::TableRow,
            Tag::TableCell => TagV::TableCell,
            Tag::Emphasis => TagV::Emphasis,
            Tag::Strong => TagV::Strong,
            Tag::Strikethrough => TagV::Strikethrough,
            Tag::Link(ty, target, title) => TagV::Link(*ty, target@, title@),
            Tag::Image(ty, target, title) => TagV::Image(*ty, target@, title@),
        }
    }
}

impl View for Event {
    type V = EventV;

    open spec fn view(&self) -> EventV {
        match self {
            Event::Start(tag) => EventV::Start(tag@),
            Event::End(tag) => EventV::End(tag@),
            Event::Text(text) => EventV::Text(text@),
            Event::Code(code) => EventV::Code(code@),
            Event::Html(html) => EventV::Html(html@),
            Event::FootnoteReference(label) => EventV::FootnoteReference(label@),
            Event::SoftBreak => EventV::SoftBreak,
            Event::HardBreak => EventV::HardBreak,
            Event::Rule => EventV::Rule,
            Event::TaskListMarker(checked) => EventV::TaskListMarker(*checked),
        }
    }
}

/// Whether the event is a construct the renderer rejects outright:
/// tables and footnotes are not supported.
pub open spec fn unsupported_event(e: EventV) -> bool {
    match e {
        EventV::FootnoteReference(_) => true,
        EventV::Start(tag) | EventV::End(tag) => match tag {
            TagV::FootnoteDefinition(_) => true,
            TagV::Table | TagV::TableHead | TagV::TableRow | TagV::TableCell => true,
            _ => false,
        },
        _ => false,
    }
}

} // verus!
