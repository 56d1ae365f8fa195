//! End-to-end rendering scenarios and boundary cases, with exact expected
//! output for an 80-column terminal.

use mdrender::data::StateData;
use mdrender::event::{CodeBlockKind, Event, LinkType, Tag};
use mdrender::render::{finish, write_event};
use mdrender::settings::Settings;
use mdrender::state::State;
use mdrender::terminal::{
    LinkCapability, MarkCapability, StyleCapability, TerminalCapabilities, TerminalSize,
};

fn settings(
    style: StyleCapability,
    links: LinkCapability,
    marks: MarkCapability,
) -> Settings {
    Settings {
        terminal_capabilities: TerminalCapabilities { style, links, marks },
        terminal_size: TerminalSize { width: 80, height: 24 },
        syntax_set: syntect::parsing::SyntaxSet::new(),
    }
}

fn plain() -> Settings {
    settings(
        StyleCapability::Plain,
        LinkCapability::NoLinks,
        MarkCapability::NoMarks,
    )
}

fn render_with(settings: &Settings, base_dir: &str, events: Vec<Event>) -> String {
    let theme = syntect::highlighting::Theme::default();
    let mut out: Vec<char> = Vec::new();
    let mut state = State::default();
    let mut data = StateData::new();
    for event in events {
        let (next_state, next_data) =
            write_event(&mut out, settings, base_dir, &theme, state, data, event).unwrap();
        state = next_state;
        data = next_data;
    }
    finish(&mut out, settings, state, data).unwrap();
    out.iter().collect()
}

fn render(events: Vec<Event>) -> String {
    render_with(&plain(), "/base", events)
}

#[test]
fn empty_document_renders_nothing() {
    assert_eq!(render(vec![]), "");
}

#[test]
fn single_rule_spans_terminal_width() {
    let expected = format!("{}\n", "\u{2550}".repeat(80));
    assert_eq!(render(vec![Event::Rule]), expected);
}

#[test]
fn heading_at_absolute_start() {
    let events = vec![
        Event::Start(Tag::Heading(1)),
        Event::Text("Hi".to_string()),
        Event::End(Tag::Heading(1)),
    ];
    assert_eq!(render(events), "\u{2504}Hi\n");
}

#[test]
fn heading_level_sets_prefix_length() {
    let events = vec![
        Event::Start(Tag::Heading(3)),
        Event::Text("deep".to_string()),
        Event::End(Tag::Heading(3)),
    ];
    assert_eq!(render(events), "\u{2504}\u{2504}\u{2504}deep\n");
}

#[test]
fn plain_paragraph_with_emphasis() {
    let events = vec![
        Event::Start(Tag::Paragraph),
        Event::Text("a ".to_string()),
        Event::Start(Tag::Emphasis),
        Event::Text("b".to_string()),
        Event::End(Tag::Emphasis),
        Event::Text(" c".to_string()),
        Event::End(Tag::Paragraph),
    ];
    assert_eq!(render(events), "a b c\n");
}

#[test]
fn ansi_paragraph_with_emphasis() {
    let events = vec![
        Event::Start(Tag::Paragraph),
        Event::Text("a ".to_string()),
        Event::Start(Tag::Emphasis),
        Event::Text("b".to_string()),
        Event::End(Tag::Emphasis),
        Event::Text(" c".to_string()),
        Event::End(Tag::Paragraph),
    ];
    let s = settings(
        StyleCapability::Ansi,
        LinkCapability::NoLinks,
        MarkCapability::NoMarks,
    );
    assert_eq!(render_with(&s, "/base", events), "a \x1b[3mb\x1b[0m c\n");
}

#[test]
fn unordered_list_two_items() {
    let events = vec![
        Event::Start(Tag::List(None)),
        Event::Start(Tag::Item),
        Event::Text("one".to_string()),
        Event::End(Tag::Item),
        Event::Start(Tag::Item),
        Event::Text("two".to_string()),
        Event::End(Tag::Item),
        Event::End(Tag::List(None)),
    ];
    assert_eq!(render(events), "\n\u{2022} one\n\u{2022} two\n\n");
}

#[test]
fn ordered_list_two_items() {
    let events = vec![
        Event::Start(Tag::List(Some(1))),
        Event::Start(Tag::Item),
        Event::Text("a".to_string()),
        Event::End(Tag::Item),
        Event::Start(Tag::Item),
        Event::Text("b".to_string()),
        Event::End(Tag::Item),
        Event::End(Tag::List(Some(1))),
    ];
    assert_eq!(render(events), "\n 1. a\n 2. b\n\n");
}

#[test]
fn ordered_list_wide_numbers_right_justified() {
    let events = vec![
        Event::Start(Tag::List(Some(9))),
        Event::Start(Tag::Item),
        Event::Text("a".to_string()),
        Event::End(Tag::Item),
        Event::Start(Tag::Item),
        Event::Text("b".to_string()),
        Event::End(Tag::Item),
        Event::End(Tag::List(Some(9))),
    ];
    assert_eq!(render(events), "\n 9. a\n10. b\n\n");
}

#[test]
fn triply_nested_mixed_lists() {
    let events = vec![
        Event::Start(Tag::List(None)),
        Event::Start(Tag::Item),
        Event::Text("a".to_string()),
        Event::Start(Tag::List(Some(1))),
        Event::Start(Tag::Item),
        Event::Text("b".to_string()),
        Event::Start(Tag::List(None)),
        Event::Start(Tag::Item),
        Event::Text("c".to_string()),
        Event::End(Tag::Item),
        Event::End(Tag::List(None)),
        Event::End(Tag::Item),
        Event::End(Tag::List(Some(1))),
        Event::End(Tag::Item),
        Event::End(Tag::List(None)),
    ];
    assert_eq!(
        render(events),
        "\n\u{2022} a\n   1. b\n      \u{2022} c\n\n"
    );
}

#[test]
fn reference_link_without_link_capability() {
    let events = vec![
        Event::Start(Tag::Paragraph),
        Event::Start(Tag::Link(
            LinkType::Inline,
            "http://e.com".to_string(),
            String::new(),
        )),
        Event::Text("x".to_string()),
        Event::End(Tag::Link(
            LinkType::Inline,
            "http://e.com".to_string(),
            String::new(),
        )),
        Event::End(Tag::Paragraph),
    ];
    assert_eq!(render(events), "x[1]\n\n[1]: http://e.com \n");
}

#[test]
fn fenced_block_with_unknown_language_plain() {
    let events = vec![
        Event::Start(Tag::CodeBlock(CodeBlockKind::Fenced("rust".to_string()))),
        Event::Text("fn f(){}\n".to_string()),
        Event::End(Tag::CodeBlock(CodeBlockKind::Fenced("rust".to_string()))),
    ];
    let border = format!("{}\n", "\u{2500}".repeat(20));
    assert_eq!(render(events), format!("{}fn f(){{}}\n{}", border, border));
}

#[test]
fn fenced_block_with_unknown_language_ansi_falls_back_to_literal() {
    let events = vec![
        Event::Start(Tag::CodeBlock(CodeBlockKind::Fenced(
            "nosuchlanguagetoken".to_string(),
        ))),
        Event::Text("x\n".to_string()),
        Event::End(Tag::CodeBlock(CodeBlockKind::Fenced(
            "nosuchlanguagetoken".to_string(),
        ))),
    ];
    let mut s = settings(
        StyleCapability::Ansi,
        LinkCapability::NoLinks,
        MarkCapability::NoMarks,
    );
    s.syntax_set = syntect::parsing::SyntaxSet::load_defaults_newlines();
    let border = format!("\x1b[32m{}\x1b[0m\n", "\u{2500}".repeat(20));
    let expected = format!("{}\x1b[33mx\n\x1b[0m{}", border, border);
    assert_eq!(render_with(&s, "/base", events), expected);
}

#[test]
fn fenced_block_with_known_language_is_highlighted() {
    let events = vec![
        Event::Start(Tag::CodeBlock(CodeBlockKind::Fenced("rust".to_string()))),
        Event::Text("fn f(){}\n".to_string()),
        Event::End(Tag::CodeBlock(CodeBlockKind::Fenced("rust".to_string()))),
    ];
    let mut s = settings(
        StyleCapability::Ansi,
        LinkCapability::NoLinks,
        MarkCapability::NoMarks,
    );
    s.syntax_set = syntect::parsing::SyntaxSet::load_defaults_newlines();
    let rendered = render_with(&s, "/base", events);
    // The block carries 24-bit colour escapes from the highlighter and the
    // code itself survives in between.
    assert!(rendered.contains("\x1b[38;2;"));
    assert!(rendered.contains("fn"));
}

fn strip_sgr(s: &str) -> String {
    let mut visible = String::new();
    let mut rest = s.chars();
    while let Some(c) = rest.next() {
        if c == '\x1b' {
            for d in rest.by_ref() {
                if d == 'm' {
                    break;
                }
            }
        } else {
            visible.push(c);
        }
    }
    visible
}

#[test]
fn stripping_ansi_from_highlighted_block_leaves_the_code() {
    let events = vec![
        Event::Start(Tag::CodeBlock(CodeBlockKind::Fenced("rust".to_string()))),
        Event::Text("fn f(){}\n".to_string()),
        Event::End(Tag::CodeBlock(CodeBlockKind::Fenced("rust".to_string()))),
    ];
    let mut s = settings(
        StyleCapability::Ansi,
        LinkCapability::NoLinks,
        MarkCapability::NoMarks,
    );
    s.syntax_set = syntect::parsing::SyntaxSet::load_defaults_newlines();
    let border = format!("{}\n", "\u{2500}".repeat(20));
    assert_eq!(
        strip_sgr(&render_with(&s, "/base", events)),
        format!("{}fn f(){{}}\n{}", border, border)
    );
}

#[test]
fn stripping_ansi_output_yields_the_plain_output() {
    // No code blocks, images or links: the visible characters are the
    // same under every style capability; styling only wraps them.
    let events = || {
        vec![
            Event::Start(Tag::Heading(1)),
            Event::Text("Hi".to_string()),
            Event::End(Tag::Heading(1)),
            Event::Start(Tag::Paragraph),
            Event::Text("a ".to_string()),
            Event::Start(Tag::Emphasis),
            Event::Text("b".to_string()),
            Event::End(Tag::Emphasis),
            Event::Text(" c".to_string()),
            Event::End(Tag::Paragraph),
            Event::Start(Tag::BlockQuote),
            Event::Start(Tag::Paragraph),
            Event::Text("q".to_string()),
            Event::End(Tag::Paragraph),
            Event::End(Tag::BlockQuote),
            Event::Rule,
        ]
    };
    let plain_out = render(events());
    let ansi = settings(
        StyleCapability::Ansi,
        LinkCapability::NoLinks,
        MarkCapability::NoMarks,
    );
    let ansi_out = render_with(&ansi, "/base", events());
    assert_eq!(strip_sgr(&ansi_out), plain_out);
    assert_ne!(ansi_out, plain_out);
}

#[test]
fn unresolvable_link_falls_back_to_reference() {
    let events = vec![
        Event::Start(Tag::Paragraph),
        Event::Start(Tag::Link(
            LinkType::Inline,
            "http//x".to_string(),
            String::new(),
        )),
        Event::Text("x".to_string()),
        Event::End(Tag::Link(
            LinkType::Inline,
            "http//x".to_string(),
            String::new(),
        )),
        Event::End(Tag::Paragraph),
    ];
    let s = settings(
        StyleCapability::Plain,
        LinkCapability::Osc8,
        MarkCapability::NoMarks,
    );
    // The base directory is relative, so the file fallback fails too.
    assert_eq!(render_with(&s, "rel", events), "x[1]\n\n[1]: http//x \n");
}

#[test]
fn resolvable_link_uses_osc8_hyperlink() {
    let events = vec![
        Event::Start(Tag::Paragraph),
        Event::Start(Tag::Link(
            LinkType::Inline,
            "http://e.com".to_string(),
            String::new(),
        )),
        Event::Text("x".to_string()),
        Event::End(Tag::Link(
            LinkType::Inline,
            "http://e.com".to_string(),
            String::new(),
        )),
        Event::End(Tag::Paragraph),
    ];
    let s = settings(
        StyleCapability::Plain,
        LinkCapability::Osc8,
        MarkCapability::NoMarks,
    );
    // The URL parser normalises the bare authority with a trailing slash.
    assert_eq!(
        render_with(&s, "/base", events),
        "\x1b]8;;http://e.com/\x1b\\x\x1b]8;;\x1b\\\n"
    );
}
