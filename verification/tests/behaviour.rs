//! Behavioural tests: margins, link deferral, images, quotes, raw HTML,
//! error handling, marks, and the low-level writers.

use mdrender::data::StateData;
use mdrender::event::{Event, LinkType, Tag};
use mdrender::render::{finish, write_event, RenderError};
use mdrender::settings::Settings;
use mdrender::state::State;
use mdrender::strutil::chars_string;
use mdrender::terminal::{
    LinkCapability, MarkCapability, StyleCapability, TerminalCapabilities, TerminalSize,
};
use mdrender::write::{write_border, write_indent, write_mark, write_rule};

fn settings(
    style: StyleCapability,
    links: LinkCapability,
    marks: MarkCapability,
) -> Settings {
    Settings {
        terminal_capabilities: TerminalCapabilities { style, links, marks },
        terminal_size: TerminalSize { width: 80, height: 24 },
        syntax_set: syntect::parsing::SyntaxSet::new(),
    }
}

fn plain() -> Settings {
    settings(
        StyleCapability::Plain,
        LinkCapability::NoLinks,
        MarkCapability::NoMarks,
    )
}

fn render_with(settings: &Settings, events: Vec<Event>) -> String {
    let theme = syntect::highlighting::Theme::default();
    let mut out: Vec<char> = Vec::new();
    let mut state = State::default();
    let mut data = StateData::new();
    for event in events {
        let (next_state, next_data) =
            write_event(&mut out, settings, "/base", &theme, state, data, event).unwrap();
        state = next_state;
        data = next_data;
    }
    finish(&mut out, settings, state, data).unwrap();
    out.iter().collect()
}

fn render(events: Vec<Event>) -> String {
    render_with(&plain(), events)
}

fn paragraph(text: &str) -> Vec<Event> {
    vec![
        Event::Start(Tag::Paragraph),
        Event::Text(text.to_string()),
        Event::End(Tag::Paragraph),
    ]
}

#[test]
fn paragraphs_are_separated_by_one_blank_line() {
    let mut events = paragraph("p1");
    events.extend(paragraph("p2"));
    assert_eq!(render(events), "p1\n\np2\n");
}

#[test]
fn block_quote_indents_its_content() {
    let events = vec![
        Event::Start(Tag::BlockQuote),
        Event::Start(Tag::Paragraph),
        Event::Text("q".to_string()),
        Event::End(Tag::Paragraph),
        Event::End(Tag::BlockQuote),
    ];
    assert_eq!(render(events), "    q\n");
}

#[test]
fn soft_break_reindents_inside_quote() {
    let events = vec![
        Event::Start(Tag::BlockQuote),
        Event::Start(Tag::Paragraph),
        Event::Text("a".to_string()),
        Event::SoftBreak,
        Event::Text("b".to_string()),
        Event::End(Tag::Paragraph),
        Event::End(Tag::BlockQuote),
    ];
    assert_eq!(render(events), "    a\n    b\n");
}

#[test]
fn nested_quote_in_quote_indents_further() {
    let events = vec![
        Event::Start(Tag::BlockQuote),
        Event::Start(Tag::BlockQuote),
        Event::Start(Tag::Paragraph),
        Event::Text("q".to_string()),
        Event::End(Tag::Paragraph),
        Event::End(Tag::BlockQuote),
        Event::End(Tag::BlockQuote),
    ];
    assert_eq!(render(events), "        q\n");
}

#[test]
fn inline_code_renders_raw_without_styling() {
    let events = vec![
        Event::Start(Tag::Paragraph),
        Event::Code("x + y".to_string()),
        Event::End(Tag::Paragraph),
    ];
    assert_eq!(render(events), "x + y\n");
}

#[test]
fn link_indices_count_up_and_flush_in_order() {
    let events = vec![
        Event::Start(Tag::Paragraph),
        Event::Start(Tag::Link(LinkType::Inline, "u1".to_string(), String::new())),
        Event::Text("a".to_string()),
        Event::End(Tag::Link(LinkType::Inline, "u1".to_string(), String::new())),
        Event::Start(Tag::Link(LinkType::Inline, "u2".to_string(), String::new())),
        Event::Text("b".to_string()),
        Event::End(Tag::Link(LinkType::Inline, "u2".to_string(), String::new())),
        Event::End(Tag::Paragraph),
    ];
    assert_eq!(render(events), "a[1]b[2]\n\n[1]: u1 \n[2]: u2 \n");
}

#[test]
fn pending_links_flush_before_a_heading() {
    let mut events = vec![
        Event::Start(Tag::Paragraph),
        Event::Start(Tag::Link(LinkType::Inline, "u".to_string(), String::new())),
        Event::Text("x".to_string()),
        Event::End(Tag::Link(LinkType::Inline, "u".to_string(), String::new())),
        Event::End(Tag::Paragraph),
    ];
    events.push(Event::Start(Tag::Heading(1)));
    events.push(Event::Text("H".to_string()));
    events.push(Event::End(Tag::Heading(1)));
    assert_eq!(render(events), "x[1]\n\n[1]: u \n\n\u{2504}H\n");
}

#[test]
fn link_title_is_written_after_the_target() {
    let events = vec![
        Event::Start(Tag::Paragraph),
        Event::Start(Tag::Link(
            LinkType::Inline,
            "u".to_string(),
            "t".to_string(),
        )),
        Event::Text("x".to_string()),
        Event::End(Tag::Link(
            LinkType::Inline,
            "u".to_string(),
            "t".to_string(),
        )),
        Event::End(Tag::Paragraph),
    ];
    assert_eq!(render(events), "x[1]\n\n[1]: u t\n");
}

#[test]
fn autolink_writes_no_reference() {
    let events = vec![
        Event::Start(Tag::Paragraph),
        Event::Start(Tag::Link(
            LinkType::Autolink,
            "http://e.com".to_string(),
            String::new(),
        )),
        Event::Text("http://e.com".to_string()),
        Event::End(Tag::Link(
            LinkType::Autolink,
            "http://e.com".to_string(),
            String::new(),
        )),
        Event::End(Tag::Paragraph),
    ];
    assert_eq!(render(events), "http://e.com\n");
}

#[test]
fn image_renders_alt_text_with_annotation() {
    let events = vec![
        Event::Start(Tag::Paragraph),
        Event::Start(Tag::Image(
            LinkType::Inline,
            "img.png".to_string(),
            String::new(),
        )),
        Event::Text("alt".to_string()),
        Event::End(Tag::Image(
            LinkType::Inline,
            "img.png".to_string(),
            String::new(),
        )),
        Event::End(Tag::Paragraph),
    ];
    assert_eq!(render(events), "alt (img.png)\n");
}

#[test]
fn inline_rendered_image_suppresses_alt_tree_and_annotation() {
    let s = plain();
    let theme = syntect::highlighting::Theme::default();
    let mut out: Vec<char> = Vec::new();
    let mut data = StateData::new();
    let (state, next_data) = write_event(
        &mut out,
        &s,
        "/base",
        &theme,
        State::default(),
        data,
        Event::Start(Tag::Paragraph),
    )
    .unwrap();
    data = next_data;
    // The driver has drawn the image itself, so it enters the suppression
    // frame instead of forwarding the image start event.
    let mut state = mdrender::render::begin_inline_image(state);
    let alt_tree = vec![
        Event::Text("alt ".to_string()),
        Event::Start(Tag::Emphasis),
        Event::Text("text".to_string()),
        Event::End(Tag::Emphasis),
        Event::Start(Tag::Image(
            LinkType::Inline,
            "inner.png".to_string(),
            String::new(),
        )),
        Event::Text("inner alt".to_string()),
        Event::End(Tag::Image(
            LinkType::Inline,
            "inner.png".to_string(),
            String::new(),
        )),
        Event::End(Tag::Image(
            LinkType::Inline,
            "img.png".to_string(),
            String::new(),
        )),
        Event::Text(" after".to_string()),
        Event::End(Tag::Paragraph),
    ];
    for event in alt_tree {
        let (next_state, next_data) =
            write_event(&mut out, &s, "/base", &theme, state, data, event).unwrap();
        state = next_state;
        data = next_data;
    }
    finish(&mut out, &s, state, data).unwrap();
    let rendered: String = out.iter().collect();
    // Nothing of the alt tree, no annotation; text continues afterwards.
    assert_eq!(rendered, " after\n");
}

#[test]
fn mismatched_end_inside_suppressed_image_is_invalid() {
    let s = plain();
    let theme = syntect::highlighting::Theme::default();
    let mut out: Vec<char> = Vec::new();
    let state = mdrender::render::begin_inline_image(State::default());
    let result = write_event(
        &mut out,
        &s,
        "/base",
        &theme,
        state,
        StateData::new(),
        Event::End(Tag::Emphasis),
    );
    assert_eq!(result.unwrap_err(), RenderError::InvalidEvent);
    assert!(out.is_empty());
}

#[test]
fn task_list_markers_render_as_boxes() {
    let events = vec![
        Event::Start(Tag::List(None)),
        Event::Start(Tag::Item),
        Event::TaskListMarker(true),
        Event::Text("done".to_string()),
        Event::End(Tag::Item),
        Event::Start(Tag::Item),
        Event::TaskListMarker(false),
        Event::Text("open".to_string()),
        Event::End(Tag::Item),
        Event::End(Tag::List(None)),
    ];
    assert_eq!(
        render(events),
        "\n\u{2022} \u{2611} done\n\u{2022} \u{2610} open\n\n"
    );
}

#[test]
fn paragraph_inside_list_item_stays_on_marker_line() {
    let events = vec![
        Event::Start(Tag::List(None)),
        Event::Start(Tag::Item),
        Event::Start(Tag::Paragraph),
        Event::Text("one".to_string()),
        Event::End(Tag::Paragraph),
        Event::End(Tag::Item),
        Event::End(Tag::List(None)),
    ];
    assert_eq!(render(events), "\n\u{2022} one\n\n");
}

#[test]
fn heading_inside_quote_is_indented_and_unmarked() {
    let events = vec![
        Event::Start(Tag::BlockQuote),
        Event::Start(Tag::Heading(2)),
        Event::Text("H".to_string()),
        Event::End(Tag::Heading(2)),
        Event::End(Tag::BlockQuote),
    ];
    assert_eq!(render(events), "    \u{2504}\u{2504}H\n");
}

#[test]
fn rule_inside_list_item_moves_to_its_own_line() {
    let events = vec![
        Event::Start(Tag::List(None)),
        Event::Start(Tag::Item),
        Event::Text("a".to_string()),
        Event::Rule,
        Event::End(Tag::Item),
        Event::End(Tag::List(None)),
    ];
    let expected = format!("\n\u{2022} a\n  {}\n\n", "\u{2550}".repeat(78));
    assert_eq!(render(events), expected);
}

#[test]
fn code_block_inside_list_item_is_indented() {
    let events = vec![
        Event::Start(Tag::List(None)),
        Event::Start(Tag::Item),
        Event::Text("a".to_string()),
        Event::Start(Tag::CodeBlock(mdrender::event::CodeBlockKind::Indented)),
        Event::Text("x\n".to_string()),
        Event::End(Tag::CodeBlock(mdrender::event::CodeBlockKind::Indented)),
        Event::End(Tag::Item),
        Event::End(Tag::List(None)),
    ];
    let bar = "\u{2500}".repeat(20);
    let expected = format!("\n\u{2022} a\n  {}\n  x\n  {}\n\n", bar, bar);
    assert_eq!(render(events), expected);
}

#[test]
fn raw_html_blocks_join_without_margin() {
    let events = vec![
        Event::Html("<a>".to_string()),
        Event::Html("<b>".to_string()),
    ];
    assert_eq!(render(events), "<a><b>");
}

#[test]
fn paragraph_after_html_gets_a_newline() {
    let mut events = vec![Event::Html("<div>".to_string())];
    events.extend(paragraph("p"));
    assert_eq!(render(events), "<div>\np\n");
}

#[test]
fn heading_emits_iterm2_mark_when_supported() {
    let events = vec![
        Event::Start(Tag::Heading(1)),
        Event::Text("H".to_string()),
        Event::End(Tag::Heading(1)),
    ];
    let s = settings(
        StyleCapability::Plain,
        LinkCapability::NoLinks,
        MarkCapability::ITerm2,
    );
    assert_eq!(
        render_with(&s, events),
        "\x1b]1337;SetMark\x07\u{2504}H\n"
    );
}

#[test]
fn text_at_top_level_is_an_invalid_event() {
    let theme = syntect::highlighting::Theme::default();
    let mut out: Vec<char> = Vec::new();
    let result = write_event(
        &mut out,
        &plain(),
        "/base",
        &theme,
        State::default(),
        StateData::new(),
        Event::Text("stray".to_string()),
    );
    assert_eq!(result.unwrap_err(), RenderError::InvalidEvent);
    assert!(out.is_empty());
}

#[test]
fn footnotes_are_unsupported() {
    let theme = syntect::highlighting::Theme::default();
    let mut out: Vec<char> = Vec::new();
    let result = write_event(
        &mut out,
        &plain(),
        "/base",
        &theme,
        State::default(),
        StateData::new(),
        Event::FootnoteReference("n".to_string()),
    );
    assert_eq!(result.unwrap_err(), RenderError::UnsupportedConstruct);
    assert!(out.is_empty());
}

#[test]
fn tables_are_unsupported() {
    let theme = syntect::highlighting::Theme::default();
    let mut out: Vec<char> = Vec::new();
    let result = write_event(
        &mut out,
        &plain(),
        "/base",
        &theme,
        State::default(),
        StateData::new(),
        Event::Start(Tag::Table),
    );
    assert_eq!(result.unwrap_err(), RenderError::UnsupportedConstruct);
}

#[test]
fn finishing_away_from_top_level_is_refused() {
    let theme = syntect::highlighting::Theme::default();
    let mut out: Vec<char> = Vec::new();
    let (state, data) = write_event(
        &mut out,
        &plain(),
        "/base",
        &theme,
        State::default(),
        StateData::new(),
        Event::Start(Tag::Paragraph),
    )
    .unwrap();
    let result = finish(&mut out, &plain(), state, data);
    assert_eq!(result.unwrap_err(), RenderError::NotAtTopLevel);
}

#[test]
fn write_indent_emits_spaces() {
    let mut out: Vec<char> = Vec::new();
    write_indent(&mut out, 3);
    assert_eq!(chars_string(&out), "   ");
}

#[test]
fn write_mark_is_silent_without_capability() {
    let caps = TerminalCapabilities {
        style: StyleCapability::Plain,
        links: LinkCapability::NoLinks,
        marks: MarkCapability::NoMarks,
    };
    let mut out: Vec<char> = Vec::new();
    write_mark(&mut out, &caps);
    assert!(out.is_empty());
}

#[test]
fn write_rule_repeats_the_rule_character() {
    let caps = TerminalCapabilities {
        style: StyleCapability::Plain,
        links: LinkCapability::NoLinks,
        marks: MarkCapability::NoMarks,
    };
    let mut out: Vec<char> = Vec::new();
    write_rule(&mut out, &caps, 5);
    assert_eq!(chars_string(&out), "\u{2550}".repeat(5));
}

#[test]
fn write_border_caps_at_twenty_columns() {
    let caps = TerminalCapabilities {
        style: StyleCapability::Plain,
        links: LinkCapability::NoLinks,
        marks: MarkCapability::NoMarks,
    };
    let size = TerminalSize { width: 80, height: 24 };
    let mut out: Vec<char> = Vec::new();
    write_border(&mut out, &caps, &size);
    assert_eq!(chars_string(&out), format!("{}\n", "\u{2500}".repeat(20)));
}

#[test]
fn narrow_terminal_shortens_the_border() {
    let caps = TerminalCapabilities {
        style: StyleCapability::Plain,
        links: LinkCapability::NoLinks,
        marks: MarkCapability::NoMarks,
    };
    let size = TerminalSize { width: 10, height: 24 };
    let mut out: Vec<char> = Vec::new();
    write_border(&mut out, &caps, &size);
    assert_eq!(chars_string(&out), format!("{}\n", "\u{2500}".repeat(10)));
}
