//! Full pipeline tests: Markdown source parsed with `pulldown_cmark`,
//! parser events converted to the library's events, and the result
//! rendered.  Also checks that rendering plain text is idempotent when
//! every capability is off.

use mdrender::data::StateData;
use mdrender::event::{CodeBlockKind, Event, LinkType, Tag};
use mdrender::render::{finish, write_event};
use mdrender::settings::Settings;
use mdrender::state::State;
use mdrender::terminal::{
    LinkCapability, MarkCapability, StyleCapability, TerminalCapabilities, TerminalSize,
};

fn convert_link_type(ty: pulldown_cmark::LinkType) -> LinkType {
    match ty {
        pulldown_cmark::LinkType::Inline => LinkType::Inline,
        pulldown_cmark::LinkType::Reference => LinkType::Reference,
        pulldown_cmark::LinkType::ReferenceUnknown => LinkType::ReferenceUnknown,
        pulldown_cmark::LinkType::Collapsed => LinkType::Collapsed,
        pulldown_cmark::LinkType::CollapsedUnknown => LinkType::CollapsedUnknown,
        pulldown_cmark::LinkType::Shortcut => LinkType::Shortcut,
        pulldown_cmark::LinkType::ShortcutUnknown => LinkType::ShortcutUnknown,
        pulldown_cmark::LinkType::Autolink => LinkType::Autolink,
        pulldown_cmark::LinkType::Email => LinkType::Email,
    }
}

fn convert_tag(tag: pulldown_cmark::Tag) -> Tag {
    match tag {
        pulldown_cmark::Tag::Paragraph => Tag::Paragraph,
        pulldown_cmark::Tag::Heading(level) => Tag::Heading(level),
        pulldown_cmark::Tag::BlockQuote => Tag::BlockQuote,
        pulldown_cmark::Tag::CodeBlock(kind) => Tag::CodeBlock(match kind {
            pulldown_cmark::CodeBlockKind::Indented => CodeBlockKind::Indented,
            pulldown_cmark::CodeBlockKind::Fenced(token) => {
                CodeBlockKind::Fenced(token.into_string())
            }
        }),
        pulldown_cmark::Tag::List(start) => Tag::List(start),
        pulldown_cmark::Tag::Item => Tag::Item,
        pulldown_cmark::Tag::FootnoteDefinition(label) => {
            Tag::FootnoteDefinition(label.into_string())
        }
        pulldown_cmark::Tag::Table(_) => Tag::Table,
        pulldown_cmark::Tag::TableHead => Tag::TableHead,
        pulldown_cmark::Tag::TableRow => Tag::TableRow,
        pulldown_cmark::Tag::TableCell => Tag::TableCell,
        pulldown_cmark::Tag::Emphasis => Tag::Emphasis,
        pulldown_cmark::Tag::Strong => Tag::Strong,
        pulldown_cmark::Tag::Strikethrough => Tag::Strikethrough,
        pulldown_cmark::Tag::Link(ty, target, title) => Tag::Link(
            convert_link_type(ty),
            target.into_string(),
            title.into_string(),
        ),
        pulldown_cmark::Tag::Image(ty, target, title) => Tag::Image(
            convert_link_type(ty),
            target.into_string(),
            title.into_string(),
        ),
    }
}

fn convert_event(event: pulldown_cmark::Event) -> Event {
    match event {
        pulldown_cmark::Event::Start(tag) => Event::Start(convert_tag(tag)),
        pulldown_cmark::Event::End(tag) => Event::End(convert_tag(tag)),
        pulldown_cmark::Event::Text(text) => Event::Text(text.into_string()),
        pulldown_cmark::Event::Code(code) => Event::Code(code.into_string()),
        pulldown_cmark::Event::Html(html) => Event::Html(html.into_string()),
        pulldown_cmark::Event::FootnoteReference(label) => {
            Event::FootnoteReference(label.into_string())
        }
        pulldown_cmark::Event::SoftBreak => Event::SoftBreak,
        pulldown_cmark::Event::HardBreak => Event::HardBreak,
        pulldown_cmark::Event::Rule => Event::Rule,
        pulldown_cmark::Event::TaskListMarker(checked) => Event::TaskListMarker(checked),
    }
}

fn plain_settings() -> Settings {
    Settings {
        terminal_capabilities: TerminalCapabilities {
            style: StyleCapability::Plain,
            links: LinkCapability::NoLinks,
            marks: MarkCapability::NoMarks,
        },
        terminal_size: TerminalSize { width: 80, height: 24 },
        syntax_set: syntect::parsing::SyntaxSet::new(),
    }
}

fn render_markdown(source: &str) -> String {
    let settings = plain_settings();
    let theme = syntect::highlighting::Theme::default();
    let mut out: Vec<char> = Vec::new();
    let mut state = State::default();
    let mut data = StateData::new();
    for parsed in pulldown_cmark::Parser::new(source) {
        let event = convert_event(parsed);
        let (next_state, next_data) =
            write_event(&mut out, &settings, "/base", &theme, state, data, event).unwrap();
        state = next_state;
        data = next_data;
    }
    finish(&mut out, &settings, state, data).unwrap();
    out.iter().collect()
}

#[test]
fn parsed_heading_renders_like_the_handwritten_stream() {
    assert_eq!(render_markdown("# Hi"), "\u{2504}Hi\n");
}

#[test]
fn parsed_emphasis_renders_plain_text() {
    assert_eq!(render_markdown("a *b* c"), "a b c\n");
}

#[test]
fn parsed_tight_list_renders_with_bullets() {
    assert_eq!(
        render_markdown("- one\n- two\n"),
        "\n\u{2022} one\n\u{2022} two\n\n"
    );
}

#[test]
fn parsed_ordered_list_renders_with_numbers() {
    assert_eq!(render_markdown("1. a\n2. b\n"), "\n 1. a\n 2. b\n\n");
}

#[test]
fn parsed_inline_link_renders_as_reference() {
    assert_eq!(
        render_markdown("[x](http://e.com)"),
        "x[1]\n\n[1]: http://e.com \n"
    );
}

#[test]
fn parsed_fenced_block_renders_between_borders() {
    let border = format!("{}\n", "\u{2500}".repeat(20));
    assert_eq!(
        render_markdown("```rust\nfn f(){}\n```\n"),
        format!("{}fn f(){{}}\n{}", border, border)
    );
}

#[test]
fn plain_text_rendering_is_idempotent_without_capabilities() {
    // With every capability off, rendered plain paragraphs re-render to
    // themselves.
    let once = render_markdown("a *b* c");
    let twice = render_markdown(&once);
    assert_eq!(twice, once);
    let heading_once = render_markdown("# Hi");
    let heading_twice = render_markdown(&heading_once);
    assert_eq!(heading_twice, heading_once);
}
