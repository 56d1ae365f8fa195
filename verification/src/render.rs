//! The rendering state machine: one step per Markdown event.
//!
//! [`write_event`] takes the current state, the side data and one event,
//! writes the event's output and returns the next state.  The relation
//! [`step_rel`] is the machine's specification: it pins the next state, the
//! next data and (wherever the output does not pass through an outside
//! tokeniser) the exact characters written.  [`finish`] closes a render:
//! it must find the machine back at the top level and flushes the links
//! that are still pending.

use vstd::prelude::*;
use crate::ansi::{styled_seq, write_styled};
use crate::data::{LinkV, StateData, StateDataV};
use crate::event::{unsupported_event, Event, EventV, LinkType, Tag, TagV};
use crate::resolve::{resolve_reference, resolved_reference};
use crate::settings::Settings;
use crate::state::{
    next_item_type, HighlightBlockAttrs, InlineAttrs, InlineState, ListBlockAttrs, ListItemType,
    LiteralBlockAttrs, MarginControl, NestedState, NestedStateV, State, StateV, StyledBlockAttrs,
    TopLevelAttrs,
};
use crate::strutil::{append_str, push_decimal, push_repeat, push_rjust2, rjust2_seq, decimal_seq, repeat_char};
use crate::style::{default_style, Colour, Style};
use crate::terminal::{
    mark_seq, osc8_close_seq, osc8_open_seq, LinkCapability, TerminalCapabilities, TerminalSize,
};
use crate::write::{
    border_seq, code_block_start_out, code_block_started, link_refs_out, literal_block_out,
    rule_seq, spaces, write_border, write_highlight_text, write_indent, write_link_refs,
    write_literal_text, write_mark, write_osc8_close, write_osc8_open, write_rule,
    write_start_code_block, writeln_returning_to_toplevel,
};

verus! {

/// A rendering error.  The first two reproduce the conditions under which
/// the engine aborts: the input used an unsupported construct, or an event
/// arrived that is impossible in the current state (which means the event
/// stream was not well formed).  The third is raised by [`finish`] when
/// the stream ended with constructs still open.
#[derive(Debug, Clone, Copy, PartialEq, Eq, Structural)]
pub enum RenderError {
    /// The event was a table or footnote construct, which the engine does
    /// not support.
    UnsupportedConstruct,
    /// The event cannot occur in the current state in any well-formed
    /// stream.
    InvalidEvent,
    /// The stream ended away from the top level.
    NotAtTopLevel,
}

/// The outcome of one step, as the specification sees it: the next state
/// and data with the characters written, or one of the two error classes.
pub enum StepResultV {
    Stepped(StateV, StateDataV, Seq<char>),
    Unsupported,
    Invalid,
}

/// The blank line written before a block when the margin asks for one.
pub open spec fn blank(m: MarginControl) -> Seq<char> {
    if m != MarginControl::NoMargin {
        seq!['\n']
    } else {
        Seq::empty()
    }
}

/// The blank line written before a raw HTML block: HTML joins the previous
/// block unless a full margin is due.
pub open spec fn blank_html(m: MarginControl) -> Seq<char> {
    if m == MarginControl::Margin {
        seq!['\n']
    } else {
        Seq::empty()
    }
}

/// The list item type a list starts with.
pub open spec fn item_type_of(start: Option<u64>) -> ListItemType {
    match start {
        Some(n) => ListItemType::Ordered(n),
        None => ListItemType::Unordered,
    }
}

/// The style of a top-level heading: bold blue.
pub open spec fn heading_style() -> Style {
    Style { fg: Some(Colour::Blue), bold: true, italic: false, underline: false, strikethrough: false }
}

/// The style inside a block quote: the parent style with italic toggled
/// and a green foreground.
pub open spec fn quote_style(s: Style) -> Style {
    Style { fg: Some(Colour::Green), italic: !s.italic, ..s }
}

/// The parent style with a blue foreground, as used for link text.
pub open spec fn blue_fg(s: Style) -> Style {
    Style { fg: Some(Colour::Blue), ..s }
}

/// The parent style with a green foreground, as used for raw HTML.
pub open spec fn green_fg(s: Style) -> Style {
    Style { fg: Some(Colour::Green), ..s }
}

/// The parent style with a yellow foreground, as used for inline code.
pub open spec fn yellow_fg(s: Style) -> Style {
    Style { fg: Some(Colour::Yellow), ..s }
}

/// Indent increased by `d` columns, saturating.
pub open spec fn ind_plus(i: u16, d: u16) -> u16 {
    if i + d <= u16::MAX {
        (i + d) as u16
    } else {
        u16::MAX
    }
}

/// The width left for a rule at the given indent.
pub open spec fn rule_width(width: usize, indent: u16) -> nat {
    if width >= indent {
        (width - indent) as nat
    } else {
        0
    }
}

/// The marker written before a task list item.
pub open spec fn task_marker(checked: bool) -> Seq<char> {
    if checked {
        seq!['\u{2611}', ' ']
    } else {
        seq!['\u{2610}', ' ']
    }
}

/// The marker written before a list item, and the columns it adds to the
/// item's indent: `"\u{2022} "` and two columns for an unordered item, a
/// two-column right-justified number with `". "` and four columns for an
/// ordered one.
pub open spec fn item_marker(t: ListItemType) -> Seq<char> {
    match t {
        ListItemType::Unordered => seq!['\u{2022}', ' '],
        ListItemType::Ordered(n) => rjust2_seq(n as nat) + seq!['.', ' '],
    }
}

/// The columns an item's marker adds to the indent.
pub open spec fn item_indent(t: ListItemType) -> u16 {
    match t {
        ListItemType::Unordered => 2,
        ListItemType::Ordered(_) => 4,
    }
}

/// The dotted prefix of a heading: one U+2504 per level.
pub open spec fn heading_prefix(level: u32) -> Seq<char> {
    repeat_char('\u{2504}', level as nat)
}

/// The reference mark written after a reference link's text: `[index]`.
pub open spec fn reference_seq(index: u64) -> Seq<char> {
    seq!['['] + decimal_seq(index as nat) + seq![']']
}

/// The annotation written after an image's alt text: ` (target)`.
pub open spec fn image_annotation_seq(target: Seq<char>) -> Seq<char> {
    seq![' ', '('] + target + seq![')']
}

/// The state `s` with one more frame pushed.
pub open spec fn pushed(s: StateV, f: NestedStateV) -> StateV {
    StateV { top: s.top, frames: s.frames.push(f) }
}

/// The state `s` with the innermost frame popped.
pub open spec fn popped(s: StateV) -> StateV {
    StateV { top: s.top, frames: s.frames.drop_last() }
}

/// The state `s` with the innermost frame replaced.
pub open spec fn swapped(s: StateV, f: NestedStateV) -> StateV {
    StateV { top: s.top, frames: s.frames.drop_last().push(f) }
}

/// The top level with a margin due before the next block.
pub open spec fn top_margin() -> StateV {
    StateV {
        top: TopLevelAttrs { margin_before: MarginControl::Margin },
        frames: Seq::empty(),
    }
}

/// How one step of the machine relates an incoming state, data and event
/// to its outcome, under the given capabilities, terminal size and base
/// directory.
///
/// Every deterministic case pins the next state, the next data and the
/// exact characters written.  Two cases are relational: starting a fenced
/// code block leaves open whether the syntax set resolves the language
/// token — the relation carries no syntax set, while
/// [`crate::write::write_start_code_block`]'s own contract pins the
/// dispatch through [`crate::highlight::token_resolves`] — and text
/// inside a highlighted block passes through the outside tokeniser,
/// whose output is pinned line by line up to styling and the tokeniser's
/// coverage of each line (see [`crate::write::highlight_block_out_rel`]).
///
/// Margins are uniform: every block, a code block included, leaves a full
/// margin pending in the frame it returns to, so a blank line separates
/// it from the next block.  One could instead treat a code block's bottom
/// border as separation enough and leave no margin, but the uniform rule
/// is what keeps the machine's final-state invariant — a well-formed
/// document always ends with `Margin` pending at the top level — simple
/// and unconditional.
pub open spec fn step_rel(
    s: StateV,
    d: StateDataV,
    e: EventV,
    caps: TerminalCapabilities,
    size: TerminalSize,
    base: Seq<char>,
    r: StepResultV,
) -> bool {
    let cap = caps.style;
    if unsupported_event(e) {
        r is Unsupported
    } else if s.frames.len() == 0 {
        let m = s.top.margin_before;
        match e {
            EventV::Start(TagV::Paragraph) => r == StepResultV::Stepped(
                pushed(
                    top_margin(),
                    NestedStateV::Inline(
                        InlineState::InlineText,
                        InlineAttrs { style: default_style(), indent: 0 },
                    ),
                ),
                d,
                blank(m),
            ),
            EventV::Start(TagV::Heading(level)) => r == StepResultV::Stepped(
                pushed(
                    top_margin(),
                    NestedStateV::Inline(
                        InlineState::InlineText,
                        InlineAttrs { style: heading_style(), indent: 0 },
                    ),
                ),
                StateDataV { links: Seq::empty(), next_index: d.next_index },
                link_refs_out(cap, d.links) + blank(m) + mark_seq(caps.marks) + styled_seq(
                    cap,
                    heading_style(),
                    heading_prefix(level),
                ),
            ),
            EventV::Start(TagV::BlockQuote) => r == StepResultV::Stepped(
                pushed(
                    top_margin(),
                    NestedStateV::StyledBlock(
                        StyledBlockAttrs {
                            margin_before: MarginControl::NoMargin,
                            indent: 4,
                            style: quote_style(default_style()),
                        },
                    ),
                ),
                d,
                blank(m),
            ),
            EventV::Rule => r == StepResultV::Stepped(
                top_margin(),
                d,
                blank(m) + rule_seq(cap, size.width as nat) + seq!['\n'],
            ),
            EventV::Start(TagV::CodeBlock(kind)) => r matches StepResultV::Stepped(s2, d2, o)
                && code_block_started(cap, kind, top_margin(), 0, default_style(), s2) && d2 == d
                && o == blank(m) + code_block_start_out(cap, size, 0),
            EventV::Start(TagV::List(start)) => r == StepResultV::Stepped(
                pushed(
                    top_margin(),
                    NestedStateV::ListBlock(
                        ListBlockAttrs {
                            item_type: item_type_of(start),
                            indent: 0,
                            style: default_style(),
                        },
                    ),
                ),
                d,
                seq!['\n'],
            ),
            EventV::Html(html) => r == StepResultV::Stepped(
                StateV {
                    top: TopLevelAttrs { margin_before: MarginControl::NoMarginForHTMLOnly },
                    frames: Seq::empty(),
                },
                d,
                blank_html(m) + styled_seq(cap, green_fg(default_style()), html),
            ),
            _ => r is Invalid,
        }
    } else {
        match s.frames.last() {
            NestedStateV::StyledBlock(a) => match e {
                EventV::Start(TagV::Paragraph) => r == StepResultV::Stepped(
                    pushed(
                        swapped(s, NestedStateV::StyledBlock(StyledBlockAttrs { margin_before: MarginControl::Margin, ..a })),
                        NestedStateV::Inline(
                            InlineState::InlineText,
                            InlineAttrs { style: a.style, indent: a.indent },
                        ),
                    ),
                    d,
                    blank(a.margin_before) + spaces(a.indent as nat),
                ),
                EventV::Start(TagV::Heading(level)) => r == StepResultV::Stepped(
                    pushed(
                        swapped(s, NestedStateV::StyledBlock(StyledBlockAttrs { margin_before: MarginControl::Margin, ..a })),
                        NestedStateV::Inline(
                            InlineState::InlineText,
                            InlineAttrs { style: Style { bold: true, ..a.style }, indent: a.indent },
                        ),
                    ),
                    d,
                    blank(a.margin_before) + spaces(a.indent as nat) + styled_seq(
                        cap,
                        Style { bold: true, ..a.style },
                        heading_prefix(level),
                    ),
                ),
                EventV::Start(TagV::BlockQuote) => r == StepResultV::Stepped(
                    pushed(
                        swapped(s, NestedStateV::StyledBlock(StyledBlockAttrs { margin_before: MarginControl::Margin, ..a })),
                        NestedStateV::StyledBlock(
                            StyledBlockAttrs {
                                margin_before: MarginControl::NoMargin,
                                indent: ind_plus(a.indent, 4),
                                style: quote_style(a.style),
                            },
                        ),
                    ),
                    d,
                    blank(a.margin_before),
                ),
                EventV::Rule => r == StepResultV::Stepped(
                    swapped(s, NestedStateV::StyledBlock(StyledBlockAttrs { margin_before: MarginControl::Margin, ..a })),
                    d,
                    blank(a.margin_before) + spaces(a.indent as nat) + rule_seq(
                        cap,
                        rule_width(size.width, a.indent),
                    ) + seq!['\n'],
                ),
                EventV::Start(TagV::List(start)) => r == StepResultV::Stepped(
                    pushed(
                        swapped(s, NestedStateV::StyledBlock(StyledBlockAttrs { margin_before: MarginControl::Margin, ..a })),
                        NestedStateV::ListBlock(
                            ListBlockAttrs {
                                item_type: item_type_of(start),
                                indent: a.indent,
                                style: a.style,
                            },
                        ),
                    ),
                    d,
                    seq!['\n'],
                ),
                EventV::Start(TagV::CodeBlock(kind)) => r matches StepResultV::Stepped(s2, d2, o)
                    && code_block_started(
                    cap,
                    kind,
                    swapped(s, NestedStateV::StyledBlock(StyledBlockAttrs { margin_before: MarginControl::Margin, ..a })),
                    a.indent,
                    a.style,
                    s2,
                ) && d2 == d && o == blank(a.margin_before) + code_block_start_out(
                    cap,
                    size,
                    a.indent,
                ),
                EventV::Html(html) => r == StepResultV::Stepped(
                    swapped(
                        s,
                        NestedStateV::StyledBlock(
                            StyledBlockAttrs {
                                margin_before: MarginControl::NoMarginForHTMLOnly,
                                ..a
                            },
                        ),
                    ),
                    d,
                    blank_html(a.margin_before) + spaces(a.indent as nat) + styled_seq(
                        cap,
                        green_fg(a.style),
                        html,
                    ),
                ),
                EventV::End(TagV::Item) => r == StepResultV::Stepped(popped(s), d, Seq::empty()),
                EventV::End(TagV::BlockQuote) => r == StepResultV::Stepped(popped(s), d, Seq::empty()),
                _ => r is Invalid,
            },
            NestedStateV::ListBlock(a) => match e {
                EventV::Start(TagV::Item) => r == StepResultV::Stepped(
                    pushed(
                        swapped(
                            s,
                            NestedStateV::ListBlock(
                                ListBlockAttrs { item_type: next_item_type(a.item_type), ..a },
                            ),
                        ),
                        NestedStateV::Inline(
                            InlineState::ListItemText,
                            InlineAttrs {
                                style: a.style,
                                indent: ind_plus(a.indent, item_indent(a.item_type)),
                            },
                        ),
                    ),
                    d,
                    spaces(a.indent as nat) + item_marker(a.item_type),
                ),
                EventV::End(TagV::List(_)) => r == StepResultV::Stepped(
                    popped(s),
                    d,
                    if s.frames.len() == 1 {
                        seq!['\n']
                    } else {
                        Seq::empty()
                    },
                ),
                _ => r is Invalid,
            },
            NestedStateV::LiteralBlock(a) => match e {
                EventV::Text(text) => r == StepResultV::Stepped(
                    s,
                    d,
                    literal_block_out(cap, a.style, text, a.indent),
                ),
                EventV::End(TagV::CodeBlock(_)) => r == StepResultV::Stepped(
                    popped(s),
                    d,
                    border_seq(cap, size),
                ),
                _ => r is Invalid,
            },
            NestedStateV::HighlightBlock(ind) => match e {
                EventV::Text(text) => r matches StepResultV::Stepped(s2, d2, o) && s2 == s && d2
                    == d && crate::write::highlight_block_out_rel(cap, text, ind, o),
                EventV::End(TagV::CodeBlock(_)) => r == StepResultV::Stepped(
                    popped(s),
                    d,
                    border_seq(cap, size),
                ),
                _ => r is Invalid,
            },
            NestedStateV::SuppressedImage => match e {
                EventV::End(TagV::Image(_, _, _)) => r == StepResultV::Stepped(
                    popped(s),
                    d,
                    Seq::empty(),
                ),
                EventV::End(_) => r is Invalid,
                EventV::Start(_) => r == StepResultV::Stepped(
                    pushed(s, NestedStateV::SuppressedSpan),
                    d,
                    Seq::empty(),
                ),
                _ => r == StepResultV::Stepped(s, d, Seq::empty()),
            },
            NestedStateV::SuppressedSpan => match e {
                EventV::End(_) => r == StepResultV::Stepped(popped(s), d, Seq::empty()),
                EventV::Start(_) => r == StepResultV::Stepped(
                    pushed(s, NestedStateV::SuppressedSpan),
                    d,
                    Seq::empty(),
                ),
                _ => r == StepResultV::Stepped(s, d, Seq::empty()),
            },
            NestedStateV::Inline(is, a) => match e {
                EventV::Start(TagV::Emphasis) => r == StepResultV::Stepped(
                    pushed(
                        s,
                        NestedStateV::Inline(
                            InlineState::InlineText,
                            InlineAttrs {
                                style: Style { italic: !a.style.italic, ..a.style },
                                indent: a.indent,
                            },
                        ),
                    ),
                    d,
                    Seq::empty(),
                ),
                EventV::End(TagV::Emphasis) => r == StepResultV::Stepped(popped(s), d, Seq::empty()),
                EventV::Start(TagV::Strong) => r == StepResultV::Stepped(
                    pushed(
                        s,
                        NestedStateV::Inline(
                            InlineState::InlineText,
                            InlineAttrs {
                                style: Style { bold: true, ..a.style },
                                indent: a.indent,
                            },
                        ),
                    ),
                    d,
                    Seq::empty(),
                ),
                EventV::End(TagV::Strong) => r == StepResultV::Stepped(popped(s), d, Seq::empty()),
                EventV::Start(TagV::Strikethrough) => r == StepResultV::Stepped(
                    pushed(
                        s,
                        NestedStateV::Inline(
                            InlineState::InlineText,
                            InlineAttrs {
                                style: Style { strikethrough: true, ..a.style },
                                indent: a.indent,
                            },
                        ),
                    ),
                    d,
                    Seq::empty(),
                ),
                EventV::End(TagV::Strikethrough) => r == StepResultV::Stepped(
                    popped(s),
                    d,
                    Seq::empty(),
                ),
                EventV::Code(code) => r == StepResultV::Stepped(
                    s,
                    d,
                    styled_seq(cap, yellow_fg(a.style), code),
                ),
                EventV::TaskListMarker(checked) => if is == InlineState::ListItemText {
                    r == StepResultV::Stepped(s, d, styled_seq(cap, a.style, task_marker(checked)))
                } else {
                    r is Invalid
                },
                EventV::SoftBreak | EventV::HardBreak => r == StepResultV::Stepped(
                    s,
                    d,
                    seq!['\n'] + spaces(a.indent as nat),
                ),
                EventV::Text(text) => r == StepResultV::Stepped(
                    s,
                    d,
                    styled_seq(cap, a.style, text),
                ),
                EventV::Html(html) => r == StepResultV::Stepped(
                    s,
                    d,
                    styled_seq(cap, green_fg(a.style), html),
                ),
                EventV::End(TagV::Item) => if is == InlineState::ListItemText {
                    r == StepResultV::Stepped(popped(s), d, seq!['\n'])
                } else {
                    r is Invalid
                },
                EventV::End(TagV::Paragraph) => r == StepResultV::Stepped(popped(s), d, seq!['\n']),
                EventV::End(TagV::Heading(_)) => r == StepResultV::Stepped(popped(s), d, seq!['\n']),
                EventV::Start(TagV::Link(_, target, _)) => if is == InlineState::InlineText || is
                    == InlineState::ListItemText {
                    match (caps.links, resolved_reference(base, target)) {
                        (LinkCapability::Osc8, Some(url)) => r == StepResultV::Stepped(
                            pushed(
                                s,
                                NestedStateV::Inline(
                                    InlineState::InlineLink,
                                    InlineAttrs { style: blue_fg(a.style), indent: a.indent },
                                ),
                            ),
                            d,
                            osc8_open_seq(url),
                        ),
                        _ => r == StepResultV::Stepped(
                            pushed(
                                s,
                                NestedStateV::Inline(
                                    InlineState::InlineText,
                                    InlineAttrs { style: blue_fg(a.style), indent: a.indent },
                                ),
                            ),
                            d,
                            Seq::empty(),
                        ),
                    }
                } else {
                    r is Invalid
                },
                EventV::End(TagV::Link(ty, target, title)) => if is == InlineState::InlineLink {
                    if caps.links == LinkCapability::Osc8 {
                        r == StepResultV::Stepped(popped(s), d, osc8_close_seq())
                    } else {
                        r is Invalid
                    }
                } else if is == InlineState::InlineText {
                    if ty == LinkType::Autolink || ty == LinkType::Email {
                        r == StepResultV::Stepped(popped(s), d, Seq::empty())
                    } else {
                        r == StepResultV::Stepped(
                            popped(s),
                            StateDataV {
                                links: d.links.push(
                                    LinkV { index: d.next_index, target, title },
                                ),
                                next_index: (d.next_index + 1) as u64,
                            },
                            styled_seq(cap, blue_fg(a.style), reference_seq(d.next_index)),
                        )
                    }
                } else {
                    r is Invalid
                },
                EventV::Start(TagV::Image(_, _, _)) => if is == InlineState::InlineText || is
                    == InlineState::ListItemText {
                    r == StepResultV::Stepped(
                        pushed(s, NestedStateV::Inline(InlineState::InlineText, a)),
                        d,
                        Seq::empty(),
                    )
                } else {
                    r is Invalid
                },
                EventV::End(TagV::Image(_, target, _)) => if is == InlineState::InlineText {
                    r == StepResultV::Stepped(
                        popped(s),
                        d,
                        styled_seq(cap, blue_fg(a.style), image_annotation_seq(target)),
                    )
                } else {
                    r is Invalid
                },
                EventV::Start(TagV::Paragraph) => if is == InlineState::ListItemText {
                    r == StepResultV::Stepped(
                        pushed(
                            swapped(
                                s,
                                NestedStateV::StyledBlock(
                                    StyledBlockAttrs {
                                        margin_before: MarginControl::Margin,
                                        indent: a.indent,
                                        style: a.style,
                                    },
                                ),
                            ),
                            NestedStateV::Inline(InlineState::InlineText, a),
                        ),
                        d,
                        Seq::empty(),
                    )
                } else {
                    r is Invalid
                },
                EventV::Start(TagV::List(start)) => if is == InlineState::ListItemText {
                    r == StepResultV::Stepped(
                        pushed(
                            swapped(
                                s,
                                NestedStateV::StyledBlock(
                                    StyledBlockAttrs {
                                        margin_before: MarginControl::Margin,
                                        indent: a.indent,
                                        style: a.style,
                                    },
                                ),
                            ),
                            NestedStateV::ListBlock(
                                ListBlockAttrs {
                                    item_type: item_type_of(start),
                                    indent: a.indent,
                                    style: a.style,
                                },
                            ),
                        ),
                        d,
                        seq!['\n'],
                    )
                } else {
                    r is Invalid
                },
                EventV::Start(TagV::CodeBlock(kind)) => if is == InlineState::ListItemText {
                    r matches StepResultV::Stepped(s2, d2, o) && code_block_started(
                        cap,
                        kind,
                        swapped(
                            s,
                            NestedStateV::StyledBlock(
                                StyledBlockAttrs {
                                    margin_before: MarginControl::Margin,
                                    indent: a.indent,
                                    style: a.style,
                                },
                            ),
                        ),
                        a.indent,
                        a.style,
                        s2,
                    ) && d2 == d && o == seq!['\n'] + code_block_start_out(cap, size, a.indent)
                } else {
                    r is Invalid
                },
                EventV::Rule => if is == InlineState::ListItemText {
                    r == StepResultV::Stepped(
                        swapped(
                            s,
                            NestedStateV::StyledBlock(
                                StyledBlockAttrs {
                                    margin_before: MarginControl::Margin,
                                    indent: a.indent,
                                    style: a.style,
                                },
                            ),
                        ),
                        d,
                        seq!['\n'] + spaces(a.indent as nat) + rule_seq(
                            cap,
                            rule_width(size.width, a.indent),
                        ) + seq!['\n'],
                    )
                } else {
                    r is Invalid
                },
                _ => r is Invalid,
            },
        }
    }
}
/// Whether the event is a table or footnote construct.
fn is_unsupported(event: &Event) -> (b: bool)
    ensures
        b == unsupported_event(event@),
{
    match event {
        Event::FootnoteReference(_) => true,
        Event::Start(tag) | Event::End(tag) => match tag {
            Tag::FootnoteDefinition(_) => true,
            Tag::Table => true,
            Tag::TableHead => true,
            Tag::TableRow => true,
            Tag::TableCell => true,
            _ => false,
        },
        _ => false,
    }
}

/// Write the blank line a margin asks for.
fn write_blank(out: &mut Vec<char>, m: MarginControl)
    ensures
        final(out)@ == old(out)@ + blank(m),
{
    if m != MarginControl::NoMargin {
        out.push('\n');
    }
    proof {
        assert(out@ =~= old(out)@ + blank(m));
    }
}

/// Write the blank line a margin asks for before raw HTML.
fn write_blank_html(out: &mut Vec<char>, m: MarginControl)
    ensures
        final(out)@ == old(out)@ + blank_html(m),
{
    if m == MarginControl::Margin {
        out.push('\n');
    }
    proof {
        assert(out@ =~= old(out)@ + blank_html(m));
    }
}

/// Write the dotted heading prefix in the given style.
fn write_heading_prefix(
    out: &mut Vec<char>,
    capabilities: &TerminalCapabilities,
    style: &Style,
    level: u32,
)
    ensures
        final(out)@ == old(out)@ + styled_seq(capabilities.style, *style, heading_prefix(level)),
{
    let mut prefix: Vec<char> = Vec::new();
    push_repeat(&mut prefix, '\u{2504}', level as usize);
    write_styled(out, capabilities, style, &prefix);
}

/// Indent increased by `d` columns, saturating.
fn indent_plus(indent: u16, d: u16) -> (r: u16)
    ensures
        r == ind_plus(indent, d),
{
    if indent <= u16::MAX - d {
        indent + d
    } else {
        u16::MAX
    }
}

/// One step taken at the top level.
#[verifier::rlimit(100)]
fn top_level_event(
    out: &mut Vec<char>,
    settings: &Settings,
    base_dir: &str,
    theme: &syntect::highlighting::Theme,
    attrs: TopLevelAttrs,
    data: StateData,
    event: Event,
) -> (r: Result<(State, StateData), RenderError>)
    requires
        !unsupported_event(event@),
    ensures
        old(out)@.is_prefix_of(final(out)@),
        r matches Ok(next) ==> step_rel(
            StateV { top: attrs, frames: Seq::empty() },
            data@,
            event@,
            settings.terminal_capabilities,
            settings.terminal_size,
            base_dir@,
            StepResultV::Stepped(next.0@, next.1@, final(out)@.skip(old(out)@.len() as int)),
        ),
        r matches Err(e) ==> e == RenderError::InvalidEvent && final(out)@ == old(out)@
            && step_rel(
            StateV { top: attrs, frames: Seq::empty() },
            data@,
            event@,
            settings.terminal_capabilities,
            settings.terminal_size,
            base_dir@,
            StepResultV::Invalid,
        ),
{
    let ghost sv = StateV { top: attrs, frames: Seq::<NestedStateV>::empty() };
    let ghost dv = data@;
    let ghost caps = settings.terminal_capabilities;
    let ghost size = settings.terminal_size;
    let ghost pre = out@;
    match event {
        Event::Start(Tag::Paragraph) => {
            write_blank(out, attrs.margin_before);
            let next = State::NestedState(
                Box::new(State::TopLevel(TopLevelAttrs::margin_before())),
                NestedState::Inline(
                    InlineState::InlineText,
                    InlineAttrs { style: Style::new(), indent: 0 },
                ),
            );
            proof {
                reveal_with_fuel(crate::state::state_view, 4);
                assert(next@.frames =~= top_margin().frames.push(
                    NestedStateV::Inline(
                        InlineState::InlineText,
                        InlineAttrs { style: default_style(), indent: 0 },
                    ),
                ));
                assert(out@.skip(pre.len() as int) =~= blank(attrs.margin_before));
                assert(pre.is_prefix_of(out@));
            }
            Ok((next, data))
        },
        Event::Start(Tag::Heading(level)) => {
            let (data, links) = data.take_links();
            write_link_refs(out, &settings.terminal_capabilities, links);
            write_blank(out, attrs.margin_before);
            write_mark(out, &settings.terminal_capabilities);
            let style = Style {
                fg: Some(Colour::Blue),
                bold: true,
                italic: false,
                underline: false,
                strikethrough: false,
            };
            write_heading_prefix(out, &settings.terminal_capabilities, &style, level);
            let next = State::NestedState(
                Box::new(State::TopLevel(TopLevelAttrs::margin_before())),
                NestedState::Inline(InlineState::InlineText, InlineAttrs { style, indent: 0 }),
            );
            proof {
                reveal_with_fuel(crate::state::state_view, 4);
                assert(style == heading_style());
                assert(next@.frames =~= top_margin().frames.push(
                    NestedStateV::Inline(
                        InlineState::InlineText,
                        InlineAttrs { style: heading_style(), indent: 0 },
                    ),
                ));
                assert(data@ == (StateDataV {
                    links: Seq::<LinkV>::empty(),
                    next_index: dv.next_index,
                }));
                assert(out@.skip(pre.len() as int) =~= link_refs_out(caps.style, dv.links) + blank(
                    attrs.margin_before,
                ) + mark_seq(caps.marks) + styled_seq(
                    caps.style,
                    heading_style(),
                    heading_prefix(level),
                ));
                assert(pre.is_prefix_of(out@));
            }
            Ok((next, data))
        },
        Event::Start(Tag::BlockQuote) => {
            write_blank(out, attrs.margin_before);
            let style = Style { fg: Some(Colour::Green), italic: true, ..Style::new() };
            let next = State::NestedState(
                Box::new(State::TopLevel(TopLevelAttrs::margin_before())),
                NestedState::StyledBlock(
                    StyledBlockAttrs { margin_before: MarginControl::NoMargin, indent: 4, style },
                ),
            );
            proof {
                reveal_with_fuel(crate::state::state_view, 4);
                assert(style == quote_style(default_style()));
                assert(next@.frames =~= top_margin().frames.push(
                    NestedStateV::StyledBlock(
                        StyledBlockAttrs {
                            margin_before: MarginControl::NoMargin,
                            indent: 4,
                            style: quote_style(default_style()),
                        },
                    ),
                ));
                assert(out@.skip(pre.len() as int) =~= blank(attrs.margin_before));
                assert(pre.is_prefix_of(out@));
            }
            Ok((next, data))
        },
        Event::Rule => {
            write_blank(out, attrs.margin_before);
            write_rule(out, &settings.terminal_capabilities, settings.terminal_size.width);
            out.push('\n');
            let next = State::TopLevel(TopLevelAttrs::margin_before());
            proof {
                reveal_with_fuel(crate::state::state_view, 4);
                assert(next@.frames =~= top_margin().frames);
                assert(out@.skip(pre.len() as int) =~= blank(attrs.margin_before) + rule_seq(
                    caps.style,
                    size.width as nat,
                ) + seq!['\n']);
                assert(pre.is_prefix_of(out@));
            }
            Ok((next, data))
        },
        Event::Start(Tag::CodeBlock(kind)) => {
            write_blank(out, attrs.margin_before);
            let ret_state = State::TopLevel(TopLevelAttrs::margin_before());
            proof {
                assert(ret_state@ == top_margin());
            }
            let next = write_start_code_block(
                out,
                settings,
                ret_state,
                0,
                Style::new(),
                &kind,
                theme,
            );
            proof {
                reveal_with_fuel(crate::state::state_view, 4);
                assert(out@.skip(pre.len() as int) =~= blank(attrs.margin_before)
                    + code_block_start_out(caps.style, size, 0));
                assert(pre.is_prefix_of(out@));
            }
            Ok((next, data))
        },
        Event::Start(Tag::List(start)) => {
            out.push('\n');
            let item_type = match start {
                Some(n) => ListItemType::Ordered(n),
                None => ListItemType::Unordered,
            };
            let next = State::NestedState(
                Box::new(State::TopLevel(TopLevelAttrs::margin_before())),
                NestedState::ListBlock(ListBlockAttrs { item_type, indent: 0, style: Style::new() }),
            );
            proof {
                reveal_with_fuel(crate::state::state_view, 4);
                assert(item_type == item_type_of(start));
                assert(next@.frames =~= top_margin().frames.push(
                    NestedStateV::ListBlock(
                        ListBlockAttrs {
                            item_type: item_type_of(start),
                            indent: 0,
                            style: default_style(),
                        },
                    ),
                ));
                assert(out@.skip(pre.len() as int) =~= seq!['\n']);
                assert(pre.is_prefix_of(out@));
            }
            Ok((next, data))
        },
        Event::Html(html) => {
            write_blank_html(out, attrs.margin_before);
            let style = Style { fg: Some(Colour::Green), ..Style::new() };
            let mut text: Vec<char> = Vec::new();
            append_str(&mut text, html.as_str());
            write_styled(out, &settings.terminal_capabilities, &style, &text);
            let next = State::TopLevel(TopLevelAttrs::no_margin_for_html_only());
            proof {
                reveal_with_fuel(crate::state::state_view, 4);
                assert(style == green_fg(default_style()));
                assert(next@.frames =~= Seq::<NestedStateV>::empty());
                assert(out@.skip(pre.len() as int) =~= blank_html(attrs.margin_before)
                    + styled_seq(caps.style, green_fg(default_style()), html@));
                assert(pre.is_prefix_of(out@));
            }
            Ok((next, data))
        },
        _ => {
            proof {
                assert(out@.take(pre.len() as int) =~= pre);
            }
            Err(RenderError::InvalidEvent)
        },
    }
}

/// One step taken inside a styled block.
#[verifier::rlimit(100)]
fn styled_block_event(
    out: &mut Vec<char>,
    settings: &Settings,
    base_dir: &str,
    theme: &syntect::highlighting::Theme,
    return_to: Box<State>,
    attrs: StyledBlockAttrs,
    data: StateData,
    event: Event,
) -> (r: Result<(State, StateData), RenderError>)
    requires
        !unsupported_event(event@),
    ensures
        old(out)@.is_prefix_of(final(out)@),
        r matches Ok(next) ==> step_rel(
            StateV {
                top: return_to@.top,
                frames: return_to@.frames.push(NestedStateV::StyledBlock(attrs)),
            },
            data@,
            event@,
            settings.terminal_capabilities,
            settings.terminal_size,
            base_dir@,
            StepResultV::Stepped(next.0@, next.1@, final(out)@.skip(old(out)@.len() as int)),
        ),
        r matches Err(e) ==> e == RenderError::InvalidEvent && final(out)@ == old(out)@
            && step_rel(
            StateV {
                top: return_to@.top,
                frames: return_to@.frames.push(NestedStateV::StyledBlock(attrs)),
            },
            data@,
            event@,
            settings.terminal_capabilities,
            settings.terminal_size,
            base_dir@,
            StepResultV::Invalid,
        ),
{
    let ghost sv = StateV {
        top: return_to@.top,
        frames: return_to@.frames.push(NestedStateV::StyledBlock(attrs)),
    };
    let ghost caps = settings.terminal_capabilities;
    let ghost size = settings.terminal_size;
    let ghost pre = out@;
    match event {
        Event::Start(Tag::Paragraph) => {
            write_blank(out, attrs.margin_before);
            write_indent(out, attrs.indent);
            let next = State::NestedState(
                Box::new(
                    State::NestedState(
                        return_to,
                        NestedState::StyledBlock(attrs.with_margin_before()),
                    ),
                ),
                NestedState::Inline(
                    InlineState::InlineText,
                    InlineAttrs { style: attrs.style, indent: attrs.indent },
                ),
            );
            proof {
                reveal_with_fuel(crate::state::state_view, 4);
                assert(next@.frames =~= swapped(
                    sv,
                    NestedStateV::StyledBlock(
                        StyledBlockAttrs { margin_before: MarginControl::Margin, ..attrs },
                    ),
                ).frames.push(
                    NestedStateV::Inline(
                        InlineState::InlineText,
                        InlineAttrs { style: attrs.style, indent: attrs.indent },
                    ),
                ));
                assert(out@.skip(pre.len() as int) =~= blank(attrs.margin_before) + spaces(
                    attrs.indent as nat,
                ));
                assert(pre.is_prefix_of(out@));
            }
            Ok((next, data))
        },
        Event::Start(Tag::Heading(level)) => {
            write_blank(out, attrs.margin_before);
            write_indent(out, attrs.indent);
            let style = Style { bold: true, ..attrs.style };
            write_heading_prefix(out, &settings.terminal_capabilities, &style, level);
            let next = State::NestedState(
                Box::new(
                    State::NestedState(
                        return_to,
                        NestedState::StyledBlock(attrs.with_margin_before()),
                    ),
                ),
                NestedState::Inline(
                    InlineState::InlineText,
                    InlineAttrs { style, indent: attrs.indent },
                ),
            );
            proof {
                reveal_with_fuel(crate::state::state_view, 4);
                assert(next@.frames =~= swapped(
                    sv,
                    NestedStateV::StyledBlock(
                        StyledBlockAttrs { margin_before: MarginControl::Margin, ..attrs },
                    ),
                ).frames.push(
                    NestedStateV::Inline(
                        InlineState::InlineText,
                        InlineAttrs {
                            style: Style { bold: true, ..attrs.style },
                            indent: attrs.indent,
                        },
                    ),
                ));
                assert(out@.skip(pre.len() as int) =~= blank(attrs.margin_before) + spaces(
                    attrs.indent as nat,
                ) + styled_seq(
                    caps.style,
                    Style { bold: true, ..attrs.style },
                    heading_prefix(level),
                ));
                assert(pre.is_prefix_of(out@));
            }
            Ok((next, data))
        },
        Event::Start(Tag::BlockQuote) => {
            write_blank(out, attrs.margin_before);
            let style = Style {
                fg: Some(Colour::Green),
                italic: !attrs.style.italic,
                ..attrs.style
            };
            let indent = indent_plus(attrs.indent, 4);
            let next = State::NestedState(
                Box::new(
                    State::NestedState(
                        return_to,
                        NestedState::StyledBlock(attrs.with_margin_before()),
                    ),
                ),
                NestedState::StyledBlock(
                    StyledBlockAttrs { margin_before: MarginControl::NoMargin, indent, style },
                ),
            );
            proof {
                reveal_with_fuel(crate::state::state_view, 4);
                assert(style == quote_style(attrs.style));
                assert(next@.frames =~= swapped(
                    sv,
                    NestedStateV::StyledBlock(
                        StyledBlockAttrs { margin_before: MarginControl::Margin, ..attrs },
                    ),
                ).frames.push(
                    NestedStateV::StyledBlock(
                        StyledBlockAttrs {
                            margin_before: MarginControl::NoMargin,
                            indent: ind_plus(attrs.indent, 4),
                            style: quote_style(attrs.style),
                        },
                    ),
                ));
                assert(out@.skip(pre.len() as int) =~= blank(attrs.margin_before));
                assert(pre.is_prefix_of(out@));
            }
            Ok((next, data))
        },
        Event::Rule => {
            write_blank(out, attrs.margin_before);
            write_indent(out, attrs.indent);
            let length = if settings.terminal_size.width >= attrs.indent as usize {
                settings.terminal_size.width - attrs.indent as usize
            } else {
                0
            };
            write_rule(out, &settings.terminal_capabilities, length);
            out.push('\n');
            let next = State::NestedState(
                return_to,
                NestedState::StyledBlock(attrs.with_margin_before()),
            );
            proof {
                reveal_with_fuel(crate::state::state_view, 4);
                assert(length as nat == rule_width(size.width, attrs.indent));
                assert(next@.frames =~= swapped(
                    sv,
                    NestedStateV::StyledBlock(
                        StyledBlockAttrs { margin_before: MarginControl::Margin, ..attrs },
                    ),
                ).frames);
                assert(out@.skip(pre.len() as int) =~= blank(attrs.margin_before) + spaces(
                    attrs.indent as nat,
                ) + rule_seq(caps.style, rule_width(size.width, attrs.indent)) + seq!['\n']);
                assert(pre.is_prefix_of(out@));
            }
            Ok((next, data))
        },
        Event::Start(Tag::List(start)) => {
            out.push('\n');
            let item_type = match start {
                Some(n) => ListItemType::Ordered(n),
                None => ListItemType::Unordered,
            };
            let next = State::NestedState(
                Box::new(
                    State::NestedState(
                        return_to,
                        NestedState::StyledBlock(attrs.with_margin_before()),
                    ),
                ),
                NestedState::ListBlock(
                    ListBlockAttrs { item_type, indent: attrs.indent, style: attrs.style },
                ),
            );
            proof {
                reveal_with_fuel(crate::state::state_view, 4);
                assert(item_type == item_type_of(start));
                assert(next@.frames =~= swapped(
                    sv,
                    NestedStateV::StyledBlock(
                        StyledBlockAttrs { margin_before: MarginControl::Margin, ..attrs },
                    ),
                ).frames.push(
                    NestedStateV::ListBlock(
                        ListBlockAttrs {
                            item_type: item_type_of(start),
                            indent: attrs.indent,
                            style: attrs.style,
                        },
                    ),
                ));
                assert(out@.skip(pre.len() as int) =~= seq!['\n']);
                assert(pre.is_prefix_of(out@));
            }
            Ok((next, data))
        },
        Event::Start(Tag::CodeBlock(kind)) => {
            write_blank(out, attrs.margin_before);
            let ret_state = State::NestedState(
                return_to,
                NestedState::StyledBlock(attrs.with_margin_before()),
            );
            proof {
                reveal_with_fuel(crate::state::state_view, 4);
                assert(ret_state@.frames =~= swapped(
                    sv,
                    NestedStateV::StyledBlock(
                        StyledBlockAttrs { margin_before: MarginControl::Margin, ..attrs },
                    ),
                ).frames);
                assert(ret_state@ == swapped(
                    sv,
                    NestedStateV::StyledBlock(
                        StyledBlockAttrs { margin_before: MarginControl::Margin, ..attrs },
                    ),
                ));
            }
            let next = write_start_code_block(
                out,
                settings,
                ret_state,
                attrs.indent,
                attrs.style,
                &kind,
                theme,
            );
            proof {
                assert(out@.skip(pre.len() as int) =~= blank(attrs.margin_before)
                    + code_block_start_out(caps.style, size, attrs.indent));
                assert(pre.is_prefix_of(out@));
            }
            Ok((next, data))
        },
        Event::Html(html) => {
            write_blank_html(out, attrs.margin_before);
            write_indent(out, attrs.indent);
            let style = Style { fg: Some(Colour::Green), ..attrs.style };
            let mut text: Vec<char> = Vec::new();
            append_str(&mut text, html.as_str());
            write_styled(out, &settings.terminal_capabilities, &style, &text);
            let next = State::NestedState(
                return_to,
                NestedState::StyledBlock(attrs.without_margin_for_html_only()),
            );
            proof {
                reveal_with_fuel(crate::state::state_view, 4);
                assert(style == green_fg(attrs.style));
                assert(next@.frames =~= swapped(
                    sv,
                    NestedStateV::StyledBlock(
                        StyledBlockAttrs { margin_before: MarginControl::NoMarginForHTMLOnly, ..attrs },
                    ),
                ).frames);
                assert(out@.skip(pre.len() as int) =~= blank_html(attrs.margin_before) + spaces(
                    attrs.indent as nat,
                ) + styled_seq(caps.style, green_fg(attrs.style), html@));
                assert(pre.is_prefix_of(out@));
            }
            Ok((next, data))
        },
        Event::End(Tag::Item) => {
            proof {
                reveal_with_fuel(crate::state::state_view, 4);
                assert(sv.frames.drop_last() =~= return_to@.frames);
                assert(return_to@ == popped(sv));
                assert(out@.skip(pre.len() as int) =~= Seq::<char>::empty());
                assert(pre.is_prefix_of(out@));
            }
            Ok((*return_to, data))
        },
        Event::End(Tag::BlockQuote) => {
            proof {
                reveal_with_fuel(crate::state::state_view, 4);
                assert(sv.frames.drop_last() =~= return_to@.frames);
                assert(return_to@ == popped(sv));
                assert(out@.skip(pre.len() as int) =~= Seq::<char>::empty());
                assert(pre.is_prefix_of(out@));
            }
            Ok((*return_to, data))
        },
        _ => {
            proof {
                assert(out@.take(pre.len() as int) =~= pre);
            }
            Err(RenderError::InvalidEvent)
        },
    }
}

/// One step taken inside a list block.
fn list_block_event(
    out: &mut Vec<char>,
    settings: &Settings,
    base_dir: &str,
    return_to: Box<State>,
    attrs: ListBlockAttrs,
    data: StateData,
    event: Event,
) -> (r: Result<(State, StateData), RenderError>)
    requires
        !unsupported_event(event@),
    ensures
        old(out)@.is_prefix_of(final(out)@),
        r matches Ok(next) ==> step_rel(
            StateV {
                top: return_to@.top,
                frames: return_to@.frames.push(NestedStateV::ListBlock(attrs)),
            },
            data@,
            event@,
            settings.terminal_capabilities,
            settings.terminal_size,
            base_dir@,
            StepResultV::Stepped(next.0@, next.1@, final(out)@.skip(old(out)@.len() as int)),
        ),
        r matches Err(e) ==> e == RenderError::InvalidEvent && final(out)@ == old(out)@
            && step_rel(
            StateV {
                top: return_to@.top,
                frames: return_to@.frames.push(NestedStateV::ListBlock(attrs)),
            },
            data@,
            event@,
            settings.terminal_capabilities,
            settings.terminal_size,
            base_dir@,
            StepResultV::Invalid,
        ),
{
    let ghost sv = StateV {
        top: return_to@.top,
        frames: return_to@.frames.push(NestedStateV::ListBlock(attrs)),
    };
    let ghost pre = out@;
    match event {
        Event::Start(Tag::Item) => {
            write_indent(out, attrs.indent);
            let added: u16 = match attrs.item_type {
                ListItemType::Unordered => {
                    out.push('\u{2022}');
                    out.push(' ');
                    2
                },
                ListItemType::Ordered(n) => {
                    push_rjust2(out, n);
                    out.push('.');
                    out.push(' ');
                    4
                },
            };
            let indent = indent_plus(attrs.indent, added);
            let next = State::NestedState(
                Box::new(State::NestedState(return_to, NestedState::ListBlock(attrs.next_item()))),
                NestedState::Inline(
                    InlineState::ListItemText,
                    InlineAttrs { style: attrs.style, indent },
                ),
            );
            proof {
                reveal_with_fuel(crate::state::state_view, 4);
                assert(added == item_indent(attrs.item_type));
                assert(next@.frames =~= swapped(
                    sv,
                    NestedStateV::ListBlock(
                        ListBlockAttrs { item_type: next_item_type(attrs.item_type), ..attrs },
                    ),
                ).frames.push(
                    NestedStateV::Inline(
                        InlineState::ListItemText,
                        InlineAttrs {
                            style: attrs.style,
                            indent: ind_plus(attrs.indent, item_indent(attrs.item_type)),
                        },
                    ),
                ));
                assert(out@.skip(pre.len() as int) =~= spaces(attrs.indent as nat) + item_marker(
                    attrs.item_type,
                ));
                assert(pre.is_prefix_of(out@));
            }
            Ok((next, data))
        },
        Event::End(Tag::List(_)) => {
            writeln_returning_to_toplevel(out, &*return_to);
            proof {
                reveal_with_fuel(crate::state::state_view, 4);
                assert(sv.frames.drop_last() =~= return_to@.frames);
                assert(return_to@ == popped(sv));
                assert(sv.frames.len() == 1 <==> return_to@.frames.len() == 0);
                if sv.frames.len() == 1 {
                    assert(out@.skip(pre.len() as int) =~= seq!['\n']);
                } else {
                    assert(out@.skip(pre.len() as int) =~= Seq::<char>::empty());
                }
                assert(pre.is_prefix_of(out@));
            }
            Ok((*return_to, data))
        },
        _ => {
            proof {
                assert(out@.take(pre.len() as int) =~= pre);
            }
            Err(RenderError::InvalidEvent)
        },
    }
}

/// One step taken inside a literal code block.
fn literal_block_event(
    out: &mut Vec<char>,
    settings: &Settings,
    base_dir: &str,
    return_to: Box<State>,
    attrs: LiteralBlockAttrs,
    data: StateData,
    event: Event,
) -> (r: Result<(State, StateData), RenderError>)
    requires
        !unsupported_event(event@),
    ensures
        old(out)@.is_prefix_of(final(out)@),
        r matches Ok(next) ==> step_rel(
            StateV {
                top: return_to@.top,
                frames: return_to@.frames.push(NestedStateV::LiteralBlock(attrs)),
            },
            data@,
            event@,
            settings.terminal_capabilities,
            settings.terminal_size,
            base_dir@,
            StepResultV::Stepped(next.0@, next.1@, final(out)@.skip(old(out)@.len() as int)),
        ),
        r matches Err(e) ==> e == RenderError::InvalidEvent && final(out)@ == old(out)@
            && step_rel(
            StateV {
                top: return_to@.top,
                frames: return_to@.frames.push(NestedStateV::LiteralBlock(attrs)),
            },
            data@,
            event@,
            settings.terminal_capabilities,
            settings.terminal_size,
            base_dir@,
            StepResultV::Invalid,
        ),
{
    let ghost sv = StateV {
        top: return_to@.top,
        frames: return_to@.frames.push(NestedStateV::LiteralBlock(attrs)),
    };
    let ghost caps = settings.terminal_capabilities;
    let ghost size = settings.terminal_size;
    let ghost pre = out@;
    match event {
        Event::Text(text) => {
            write_literal_text(
                out,
                &settings.terminal_capabilities,
                &attrs.style,
                text.as_str(),
                attrs.indent,
            );
            let next = State::NestedState(return_to, NestedState::LiteralBlock(attrs));
            proof {
                reveal_with_fuel(crate::state::state_view, 4);
                assert(next@ == sv);
                assert(out@.skip(pre.len() as int) =~= literal_block_out(
                    caps.style,
                    attrs.style,
                    text@,
                    attrs.indent,
                ));
                assert(pre.is_prefix_of(out@));
            }
            Ok((next, data))
        },
        Event::End(Tag::CodeBlock(_)) => {
            write_border(out, &settings.terminal_capabilities, &settings.terminal_size);
            proof {
                reveal_with_fuel(crate::state::state_view, 4);
                assert(sv.frames.drop_last() =~= return_to@.frames);
                assert(return_to@ == popped(sv));
                assert(out@.skip(pre.len() as int) =~= border_seq(caps.style, size));
                assert(pre.is_prefix_of(out@));
            }
            Ok((*return_to, data))
        },
        _ => {
            proof {
                assert(out@.take(pre.len() as int) =~= pre);
            }
            Err(RenderError::InvalidEvent)
        },
    }
}

/// One step taken inside a highlighted code block.
fn highlight_block_event(
    out: &mut Vec<char>,
    settings: &Settings,
    base_dir: &str,
    theme: &syntect::highlighting::Theme,
    return_to: Box<State>,
    attrs: HighlightBlockAttrs,
    data: StateData,
    event: Event,
) -> (r: Result<(State, StateData), RenderError>)
    requires
        !unsupported_event(event@),
    ensures
        old(out)@.is_prefix_of(final(out)@),
        r matches Ok(next) ==> step_rel(
            StateV {
                top: return_to@.top,
                frames: return_to@.frames.push(NestedStateV::HighlightBlock(attrs.indent)),
            },
            data@,
            event@,
            settings.terminal_capabilities,
            settings.terminal_size,
            base_dir@,
            StepResultV::Stepped(next.0@, next.1@, final(out)@.skip(old(out)@.len() as int)),
        ),
        r matches Err(e) ==> e == RenderError::InvalidEvent && final(out)@ == old(out)@
            && step_rel(
            StateV {
                top: return_to@.top,
                frames: return_to@.frames.push(NestedStateV::HighlightBlock(attrs.indent)),
            },
            data@,
            event@,
            settings.terminal_capabilities,
            settings.terminal_size,
            base_dir@,
            StepResultV::Invalid,
        ),
{
    let ghost sv = StateV {
        top: return_to@.top,
        frames: return_to@.frames.push(NestedStateV::HighlightBlock(attrs.indent)),
    };
    let ghost caps = settings.terminal_capabilities;
    let ghost size = settings.terminal_size;
    let ghost pre = out@;
    match event {
        Event::Text(text) => {
            let mut hattrs = attrs;
            write_highlight_text(out, settings, &mut hattrs, theme, text.as_str());
            let next = State::NestedState(return_to, NestedState::HighlightBlock(hattrs));
            proof {
                reveal_with_fuel(crate::state::state_view, 4);
                assert(next@ == sv);
                assert(pre.is_prefix_of(out@));
                assert(crate::write::highlight_block_out_rel(
                    caps.style,
                    text@,
                    attrs.indent,
                    out@.skip(pre.len() as int),
                ));
            }
            Ok((next, data))
        },
        Event::End(Tag::CodeBlock(_)) => {
            write_border(out, &settings.terminal_capabilities, &settings.terminal_size);
            proof {
                reveal_with_fuel(crate::state::state_view, 4);
                assert(sv.frames.drop_last() =~= return_to@.frames);
                assert(return_to@ == popped(sv));
                assert(out@.skip(pre.len() as int) =~= border_seq(caps.style, size));
                assert(pre.is_prefix_of(out@));
            }
            Ok((*return_to, data))
        },
        _ => {
            proof {
                assert(out@.take(pre.len() as int) =~= pre);
            }
            Err(RenderError::InvalidEvent)
        },
    }
}

/// One step taken inside inline markup.
#[verifier::rlimit(100)]
fn inline_event(
    out: &mut Vec<char>,
    settings: &Settings,
    base_dir: &str,
    theme: &syntect::highlighting::Theme,
    return_to: Box<State>,
    istate: InlineState,
    attrs: InlineAttrs,
    data: StateData,
    event: Event,
) -> (r: Result<(State, StateData), RenderError>)
    requires
        !unsupported_event(event@),
        data@.next_index < u64::MAX,
    ensures
        old(out)@.is_prefix_of(final(out)@),
        r matches Ok(next) ==> step_rel(
            StateV {
                top: return_to@.top,
                frames: return_to@.frames.push(NestedStateV::Inline(istate, attrs)),
            },
            data@,
            event@,
            settings.terminal_capabilities,
            settings.terminal_size,
            base_dir@,
            StepResultV::Stepped(next.0@, next.1@, final(out)@.skip(old(out)@.len() as int)),
        ),
        r matches Err(e) ==> e == RenderError::InvalidEvent && final(out)@ == old(out)@
            && step_rel(
            StateV {
                top: return_to@.top,
                frames: return_to@.frames.push(NestedStateV::Inline(istate, attrs)),
            },
            data@,
            event@,
            settings.terminal_capabilities,
            settings.terminal_size,
            base_dir@,
            StepResultV::Invalid,
        ),
{
    let ghost sv = StateV {
        top: return_to@.top,
        frames: return_to@.frames.push(NestedStateV::Inline(istate, attrs)),
    };
    let ghost dv = data@;
    let ghost basev = base_dir@;
    let ghost caps = settings.terminal_capabilities;
    let ghost size = settings.terminal_size;
    let ghost pre = out@;
    match event {
        Event::Start(Tag::Emphasis) => {
            let style = Style { italic: !attrs.style.italic, ..attrs.style };
            let next = State::NestedState(
                Box::new(State::NestedState(return_to, NestedState::Inline(istate, attrs))),
                NestedState::Inline(
                    InlineState::InlineText,
                    InlineAttrs { style, indent: attrs.indent },
                ),
            );
            proof {
                reveal_with_fuel(crate::state::state_view, 4);
                assert(next@.frames =~= sv.frames.push(
                    NestedStateV::Inline(
                        InlineState::InlineText,
                        InlineAttrs { style, indent: attrs.indent },
                    ),
                ));
                assert(out@.skip(pre.len() as int) =~= Seq::<char>::empty());
                assert(pre.is_prefix_of(out@));
            }
            Ok((next, data))
        },
        Event::End(Tag::Emphasis) => {
            proof {
                reveal_with_fuel(crate::state::state_view, 4);
                assert(sv.frames.drop_last() =~= return_to@.frames);
                assert(return_to@ == popped(sv));
                assert(out@.skip(pre.len() as int) =~= Seq::<char>::empty());
                assert(pre.is_prefix_of(out@));
            }
            Ok((*return_to, data))
        },
        Event::Start(Tag::Strong) => {
            let style = Style { bold: true, ..attrs.style };
            let next = State::NestedState(
                Box::new(State::NestedState(return_to, NestedState::Inline(istate, attrs))),
                NestedState::Inline(
                    InlineState::InlineText,
                    InlineAttrs { style, indent: attrs.indent },
                ),
            );
            proof {
                reveal_with_fuel(crate::state::state_view, 4);
                assert(next@.frames =~= sv.frames.push(
                    NestedStateV::Inline(
                        InlineState::InlineText,
                        InlineAttrs { style, indent: attrs.indent },
                    ),
                ));
                assert(out@.skip(pre.len() as int) =~= Seq::<char>::empty());
                assert(pre.is_prefix_of(out@));
            }
            Ok((next, data))
        },
        Event::End(Tag::Strong) => {
            proof {
                reveal_with_fuel(crate::state::state_view, 4);
                assert(sv.frames.drop_last() =~= return_to@.frames);
                assert(return_to@ == popped(sv));
                assert(out@.skip(pre.len() as int) =~= Seq::<char>::empty());
                assert(pre.is_prefix_of(out@));
            }
            Ok((*return_to, data))
        },
        Event::Start(Tag::Strikethrough) => {
            let style = Style { strikethrough: true, ..attrs.style };
            let next = State::NestedState(
                Box::new(State::NestedState(return_to, NestedState::Inline(istate, attrs))),
                NestedState::Inline(
                    InlineState::InlineText,
                    InlineAttrs { style, indent: attrs.indent },
                ),
            );
            proof {
                reveal_with_fuel(crate::state::state_view, 4);
                assert(next@.frames =~= sv.frames.push(
                    NestedStateV::Inline(
                        InlineState::InlineText,
                        InlineAttrs { style, indent: attrs.indent },
                    ),
                ));
                assert(out@.skip(pre.len() as int) =~= Seq::<char>::empty());
                assert(pre.is_prefix_of(out@));
            }
            Ok((next, data))
        },
        Event::End(Tag::Strikethrough) => {
            proof {
                reveal_with_fuel(crate::state::state_view, 4);
                assert(sv.frames.drop_last() =~= return_to@.frames);
                assert(return_to@ == popped(sv));
                assert(out@.skip(pre.len() as int) =~= Seq::<char>::empty());
                assert(pre.is_prefix_of(out@));
            }
            Ok((*return_to, data))
        },
        Event::Code(code) => {
            let style = Style { fg: Some(Colour::Yellow), ..attrs.style };
            let mut text: Vec<char> = Vec::new();
            append_str(&mut text, code.as_str());
            write_styled(out, &settings.terminal_capabilities, &style, &text);
            let next = State::NestedState(return_to, NestedState::Inline(istate, attrs));
            proof {
                reveal_with_fuel(crate::state::state_view, 4);
                assert(style == yellow_fg(attrs.style));
                assert(next@ == sv);
                assert(out@.skip(pre.len() as int) =~= styled_seq(
                    caps.style,
                    yellow_fg(attrs.style),
                    code@,
                ));
                assert(pre.is_prefix_of(out@));
            }
            Ok((next, data))
        },
        Event::TaskListMarker(checked) => {
            if istate == InlineState::ListItemText {
                let mut marker: Vec<char> = Vec::new();
                if checked {
                    marker.push('\u{2611}');
                } else {
                    marker.push('\u{2610}');
                }
                marker.push(' ');
                write_styled(out, &settings.terminal_capabilities, &attrs.style, &marker);
                let next = State::NestedState(return_to, NestedState::Inline(istate, attrs));
                proof {
                    reveal_with_fuel(crate::state::state_view, 4);
                    assert(marker@ =~= task_marker(checked));
                    assert(next@ == sv);
                    assert(out@.skip(pre.len() as int) =~= styled_seq(
                        caps.style,
                        attrs.style,
                        task_marker(checked),
                    ));
                    assert(pre.is_prefix_of(out@));
                }
                Ok((next, data))
            } else {
                proof {
                    assert(out@.take(pre.len() as int) =~= pre);
                }
                Err(RenderError::InvalidEvent)
            }
        },
        Event::SoftBreak => {
            out.push('\n');
            write_indent(out, attrs.indent);
            let next = State::NestedState(return_to, NestedState::Inline(istate, attrs));
            proof {
                reveal_with_fuel(crate::state::state_view, 4);
                assert(next@ == sv);
                assert(out@.skip(pre.len() as int) =~= seq!['\n'] + spaces(attrs.indent as nat));
                assert(pre.is_prefix_of(out@));
            }
            Ok((next, data))
        },
        Event::HardBreak => {
            out.push('\n');
            write_indent(out, attrs.indent);
            let next = State::NestedState(return_to, NestedState::Inline(istate, attrs));
            proof {
                reveal_with_fuel(crate::state::state_view, 4);
                assert(next@ == sv);
                assert(out@.skip(pre.len() as int) =~= seq!['\n'] + spaces(attrs.indent as nat));
                assert(pre.is_prefix_of(out@));
            }
            Ok((next, data))
        },
        Event::Text(text) => {
            let mut chars: Vec<char> = Vec::new();
            append_str(&mut chars, text.as_str());
            write_styled(out, &settings.terminal_capabilities, &attrs.style, &chars);
            let next = State::NestedState(return_to, NestedState::Inline(istate, attrs));
            proof {
                reveal_with_fuel(crate::state::state_view, 4);
                assert(next@ == sv);
                assert(out@.skip(pre.len() as int) =~= styled_seq(caps.style, attrs.style, text@));
                assert(pre.is_prefix_of(out@));
            }
            Ok((next, data))
        },
        Event::Html(html) => {
            let style = Style { fg: Some(Colour::Green), ..attrs.style };
            let mut chars: Vec<char> = Vec::new();
            append_str(&mut chars, html.as_str());
            write_styled(out, &settings.terminal_capabilities, &style, &chars);
            let next = State::NestedState(return_to, NestedState::Inline(istate, attrs));
            proof {
                reveal_with_fuel(crate::state::state_view, 4);
                assert(style == green_fg(attrs.style));
                assert(next@ == sv);
                assert(out@.skip(pre.len() as int) =~= styled_seq(
                    caps.style,
                    green_fg(attrs.style),
                    html@,
                ));
                assert(pre.is_prefix_of(out@));
            }
            Ok((next, data))
        },
        Event::End(Tag::Item) => {
            if istate == InlineState::ListItemText {
                out.push('\n');
                proof {
                    reveal_with_fuel(crate::state::state_view, 4);
                    assert(sv.frames.drop_last() =~= return_to@.frames);
                    assert(return_to@ == popped(sv));
                    assert(out@.skip(pre.len() as int) =~= seq!['\n']);
                    assert(pre.is_prefix_of(out@));
                }
                Ok((*return_to, data))
            } else {
                proof {
                    assert(out@.take(pre.len() as int) =~= pre);
                }
                Err(RenderError::InvalidEvent)
            }
        },
        Event::End(Tag::Paragraph) => {
            out.push('\n');
            proof {
                reveal_with_fuel(crate::state::state_view, 4);
                assert(sv.frames.drop_last() =~= return_to@.frames);
                assert(return_to@ == popped(sv));
                assert(out@.skip(pre.len() as int) =~= seq!['\n']);
                assert(pre.is_prefix_of(out@));
            }
            Ok((*return_to, data))
        },
        Event::End(Tag::Heading(_)) => {
            out.push('\n');
            proof {
                reveal_with_fuel(crate::state::state_view, 4);
                assert(sv.frames.drop_last() =~= return_to@.frames);
                assert(return_to@ == popped(sv));
                assert(out@.skip(pre.len() as int) =~= seq!['\n']);
                assert(pre.is_prefix_of(out@));
            }
            Ok((*return_to, data))
        },
        Event::Start(Tag::Link(_, target, _)) => {
            if istate != InlineState::InlineLink {
                let style = Style { fg: Some(Colour::Blue), ..attrs.style };
                let indent = attrs.indent;
                let opened: bool = match settings.terminal_capabilities.links {
                    LinkCapability::Osc8 => match resolve_reference(base_dir, target.as_str()) {
                        Some(url) => {
                            write_osc8_open(out, url.as_str());
                            true
                        },
                        None => false,
                    },
                    LinkCapability::NoLinks => false,
                };
                let inline_state = if opened {
                    InlineState::InlineLink
                } else {
                    InlineState::InlineText
                };
                let next = State::NestedState(
                    Box::new(State::NestedState(return_to, NestedState::Inline(istate, attrs))),
                    NestedState::Inline(inline_state, InlineAttrs { style, indent }),
                );
                proof {
                    reveal_with_fuel(crate::state::state_view, 4);
                    assert(style == blue_fg(attrs.style));
                    assert(next@.frames =~= sv.frames.push(
                        NestedStateV::Inline(inline_state, InlineAttrs { style, indent }),
                    ));
                    if opened {
                        assert(out@.skip(pre.len() as int) =~= osc8_open_seq(
                            resolved_reference(basev, target@)->Some_0,
                        ));
                    } else {
                        assert(out@.skip(pre.len() as int) =~= Seq::<char>::empty());
                    }
                    assert(pre.is_prefix_of(out@));
                }
                Ok((next, data))
            } else {
                proof {
                    assert(out@.take(pre.len() as int) =~= pre);
                }
                Err(RenderError::InvalidEvent)
            }
        },
        Event::End(Tag::Link(ty, target, title)) => {
            match istate {
                InlineState::InlineLink => {
                    match settings.terminal_capabilities.links {
                        LinkCapability::Osc8 => {
                            write_osc8_close(out);
                            proof {
                                reveal_with_fuel(crate::state::state_view, 4);
                                assert(sv.frames.drop_last() =~= return_to@.frames);
                                assert(return_to@ == popped(sv));
                                assert(out@.skip(pre.len() as int) =~= osc8_close_seq());
                                assert(pre.is_prefix_of(out@));
                            }
                            Ok((*return_to, data))
                        },
                        LinkCapability::NoLinks => {
                            proof {
                                assert(out@.take(pre.len() as int) =~= pre);
                            }
                            Err(RenderError::InvalidEvent)
                        },
                    }
                },
                InlineState::InlineText => {
                    match ty {
                        LinkType::Autolink | LinkType::Email => {
                            proof {
                                reveal_with_fuel(crate::state::state_view, 4);
                                assert(sv.frames.drop_last() =~= return_to@.frames);
                                assert(return_to@ == popped(sv));
                                assert(out@.skip(pre.len() as int) =~= Seq::<char>::empty());
                                assert(pre.is_prefix_of(out@));
                            }
                            Ok((*return_to, data))
                        },
                        _ => {
                            let ghost targetv = target@;
                            let ghost titlev = title@;
                            let (data, index) = data.add_link(target, title);
                            let style = Style { fg: Some(Colour::Blue), ..attrs.style };
                            let mut reference: Vec<char> = Vec::new();
                            reference.push('[');
                            push_decimal(&mut reference, index);
                            reference.push(']');
                            write_styled(out, &settings.terminal_capabilities, &style, &reference);
                            proof {
                                reveal_with_fuel(crate::state::state_view, 4);
                                assert(reference@ =~= reference_seq(dv.next_index));
                                assert(style == blue_fg(attrs.style));
                                assert(sv.frames.drop_last() =~= return_to@.frames);
                                assert(return_to@ == popped(sv));
                                assert(data@.links =~= dv.links.push(
                                    LinkV { index: dv.next_index, target: targetv, title: titlev },
                                ));
                                assert(out@.skip(pre.len() as int) =~= styled_seq(
                                    caps.style,
                                    blue_fg(attrs.style),
                                    reference_seq(dv.next_index),
                                ));
                                assert(pre.is_prefix_of(out@));
                            }
                            Ok((*return_to, data))
                        },
                    }
                },
                InlineState::ListItemText => {
                    proof {
                        assert(out@.take(pre.len() as int) =~= pre);
                    }
                    Err(RenderError::InvalidEvent)
                },
            }
        },
        Event::Start(Tag::Image(_, _, _)) => {
            if istate != InlineState::InlineLink {
                let next = State::NestedState(
                    Box::new(State::NestedState(return_to, NestedState::Inline(istate, attrs))),
                    NestedState::Inline(InlineState::InlineText, attrs),
                );
                proof {
                    reveal_with_fuel(crate::state::state_view, 4);
                    assert(next@.frames =~= sv.frames.push(
                        NestedStateV::Inline(InlineState::InlineText, attrs),
                    ));
                    assert(out@.skip(pre.len() as int) =~= Seq::<char>::empty());
                    assert(pre.is_prefix_of(out@));
                }
                Ok((next, data))
            } else {
                proof {
                    assert(out@.take(pre.len() as int) =~= pre);
                }
                Err(RenderError::InvalidEvent)
            }
        },
        Event::End(Tag::Image(_, target, _)) => {
            if istate == InlineState::InlineText {
                let style = Style { fg: Some(Colour::Blue), ..attrs.style };
                let mut annotation: Vec<char> = Vec::new();
                annotation.push(' ');
                annotation.push('(');
                append_str(&mut annotation, target.as_str());
                annotation.push(')');
                write_styled(out, &settings.terminal_capabilities, &style, &annotation);
                proof {
                    reveal_with_fuel(crate::state::state_view, 4);
                    assert(annotation@ =~= image_annotation_seq(target@));
                    assert(style == blue_fg(attrs.style));
                    assert(sv.frames.drop_last() =~= return_to@.frames);
                    assert(return_to@ == popped(sv));
                    assert(out@.skip(pre.len() as int) =~= styled_seq(
                        caps.style,
                        blue_fg(attrs.style),
                        image_annotation_seq(target@),
                    ));
                    assert(pre.is_prefix_of(out@));
                }
                Ok((*return_to, data))
            } else {
                proof {
                    assert(out@.take(pre.len() as int) =~= pre);
                }
                Err(RenderError::InvalidEvent)
            }
        },
        Event::Start(Tag::Paragraph) => {
            if istate == InlineState::ListItemText {
                let next = State::NestedState(
                    Box::new(
                        State::NestedState(
                            return_to,
                            NestedState::StyledBlock(
                                StyledBlockAttrs {
                                    margin_before: MarginControl::Margin,
                                    indent: attrs.indent,
                                    style: attrs.style,
                                },
                            ),
                        ),
                    ),
                    NestedState::Inline(InlineState::InlineText, attrs),
                );
                proof {
                    reveal_with_fuel(crate::state::state_view, 4);
                    assert(next@.frames =~= swapped(
                        sv,
                        NestedStateV::StyledBlock(
                            StyledBlockAttrs {
                                margin_before: MarginControl::Margin,
                                indent: attrs.indent,
                                style: attrs.style,
                            },
                        ),
                    ).frames.push(NestedStateV::Inline(InlineState::InlineText, attrs)));
                    assert(out@.skip(pre.len() as int) =~= Seq::<char>::empty());
                    assert(pre.is_prefix_of(out@));
                }
                Ok((next, data))
            } else {
                proof {
                    assert(out@.take(pre.len() as int) =~= pre);
                }
                Err(RenderError::InvalidEvent)
            }
        },
        Event::Start(Tag::List(start)) => {
            if istate == InlineState::ListItemText {
                out.push('\n');
                let item_type = match start {
                    Some(n) => ListItemType::Ordered(n),
                    None => ListItemType::Unordered,
                };
                let next = State::NestedState(
                    Box::new(
                        State::NestedState(
                            return_to,
                            NestedState::StyledBlock(
                                StyledBlockAttrs {
                                    margin_before: MarginControl::Margin,
                                    indent: attrs.indent,
                                    style: attrs.style,
                                },
                            ),
                        ),
                    ),
                    NestedState::ListBlock(
                        ListBlockAttrs { item_type, indent: attrs.indent, style: attrs.style },
                    ),
                );
                proof {
                    reveal_with_fuel(crate::state::state_view, 4);
                    assert(item_type == item_type_of(start));
                    assert(next@.frames =~= swapped(
                        sv,
                        NestedStateV::StyledBlock(
                            StyledBlockAttrs {
                                margin_before: MarginControl::Margin,
                                indent: attrs.indent,
                                style: attrs.style,
                            },
                        ),
                    ).frames.push(
                        NestedStateV::ListBlock(
                            ListBlockAttrs {
                                item_type: item_type_of(start),
                                indent: attrs.indent,
                                style: attrs.style,
                            },
                        ),
                    ));
                    assert(out@.skip(pre.len() as int) =~= seq!['\n']);
                    assert(pre.is_prefix_of(out@));
                }
                Ok((next, data))
            } else {
                proof {
                    assert(out@.take(pre.len() as int) =~= pre);
                }
                Err(RenderError::InvalidEvent)
            }
        },
        Event::Start(Tag::CodeBlock(kind)) => {
            if istate == InlineState::ListItemText {
                out.push('\n');
                let ret_state = State::NestedState(
                    return_to,
                    NestedState::StyledBlock(
                        StyledBlockAttrs {
                            margin_before: MarginControl::Margin,
                            indent: attrs.indent,
                            style: attrs.style,
                        },
                    ),
                );
                proof {
                    reveal_with_fuel(crate::state::state_view, 4);
                    assert(ret_state@.frames =~= swapped(
                        sv,
                        NestedStateV::StyledBlock(
                            StyledBlockAttrs {
                                margin_before: MarginControl::Margin,
                                indent: attrs.indent,
                                style: attrs.style,
                            },
                        ),
                    ).frames);
                    assert(ret_state@ == swapped(
                        sv,
                        NestedStateV::StyledBlock(
                            StyledBlockAttrs {
                                margin_before: MarginControl::Margin,
                                indent: attrs.indent,
                                style: attrs.style,
                            },
                        ),
                    ));
                }
                let next = write_start_code_block(
                    out,
                    settings,
                    ret_state,
                    attrs.indent,
                    attrs.style,
                    &kind,
                    theme,
                );
                proof {
                    assert(out@.skip(pre.len() as int) =~= seq!['\n'] + code_block_start_out(
                        caps.style,
                        size,
                        attrs.indent,
                    ));
                    assert(pre.is_prefix_of(out@));
                }
                Ok((next, data))
            } else {
                proof {
                    assert(out@.take(pre.len() as int) =~= pre);
                }
                Err(RenderError::InvalidEvent)
            }
        },
        Event::Rule => {
            if istate == InlineState::ListItemText {
                out.push('\n');
                write_indent(out, attrs.indent);
                let length = if settings.terminal_size.width >= attrs.indent as usize {
                    settings.terminal_size.width - attrs.indent as usize
                } else {
                    0
                };
                write_rule(out, &settings.terminal_capabilities, length);
                out.push('\n');
                let next = State::NestedState(
                    return_to,
                    NestedState::StyledBlock(
                        StyledBlockAttrs {
                            margin_before: MarginControl::Margin,
                            indent: attrs.indent,
                            style: attrs.style,
                        },
                    ),
                );
                proof {
                    reveal_with_fuel(crate::state::state_view, 4);
                    assert(length as nat == rule_width(size.width, attrs.indent));
                    assert(next@.frames =~= swapped(
                        sv,
                        NestedStateV::StyledBlock(
                            StyledBlockAttrs {
                                margin_before: MarginControl::Margin,
                                indent: attrs.indent,
                                style: attrs.style,
                            },
                        ),
                    ).frames);
                    assert(out@.skip(pre.len() as int) =~= seq!['\n'] + spaces(attrs.indent as nat)
                        + rule_seq(caps.style, rule_width(size.width, attrs.indent)) + seq!['\n']);
                    assert(pre.is_prefix_of(out@));
                }
                Ok((next, data))
            } else {
                proof {
                    assert(out@.take(pre.len() as int) =~= pre);
                }
                Err(RenderError::InvalidEvent)
            }
        },
        _ => {
            proof {
                assert(out@.take(pre.len() as int) =~= pre);
            }
            Err(RenderError::InvalidEvent)
        },
    }
}

/// Enter the suppression frame for an image the driver has just rendered
/// inline.
///
/// Rendering an image on the terminal — resolving its target, fetching
/// and encoding it, writing the graphics escape — is the driver's work.
/// When that has succeeded, the driver calls this instead of forwarding
/// the image's start event; the alt tree's events are then fed through
/// [`write_event`] as usual and produce no output at all, and the
/// matching image end event closes the frame without the annotation.
/// When the render failed or the terminal shows no images, the driver
/// forwards the start event unchanged and the alt text with the
/// annotation appears instead.
pub fn begin_inline_image(state: State) -> (r: State)
    ensures
        r@ == pushed(state@, NestedStateV::SuppressedImage),
{
    let ghost sv = state@;
    let next = State::NestedState(Box::new(state), NestedState::SuppressedImage);
    proof {
        reveal_with_fuel(crate::state::state_view, 2);
        assert(next@.frames =~= sv.frames.push(NestedStateV::SuppressedImage));
    }
    next
}

/// One step taken inside a suppressed image: everything up to the
/// matching image end is swallowed.
fn suppressed_image_event(
    out: &mut Vec<char>,
    settings: &Settings,
    base_dir: &str,
    return_to: Box<State>,
    data: StateData,
    event: Event,
) -> (r: Result<(State, StateData), RenderError>)
    requires
        !unsupported_event(event@),
    ensures
        old(out)@.is_prefix_of(final(out)@),
        r matches Ok(next) ==> step_rel(
            StateV {
                top: return_to@.top,
                frames: return_to@.frames.push(NestedStateV::SuppressedImage),
            },
            data@,
            event@,
            settings.terminal_capabilities,
            settings.terminal_size,
            base_dir@,
            StepResultV::Stepped(next.0@, next.1@, final(out)@.skip(old(out)@.len() as int)),
        ),
        r matches Err(e) ==> e == RenderError::InvalidEvent && final(out)@ == old(out)@
            && step_rel(
            StateV {
                top: return_to@.top,
                frames: return_to@.frames.push(NestedStateV::SuppressedImage),
            },
            data@,
            event@,
            settings.terminal_capabilities,
            settings.terminal_size,
            base_dir@,
            StepResultV::Invalid,
        ),
{
    let ghost sv = StateV {
        top: return_to@.top,
        frames: return_to@.frames.push(NestedStateV::SuppressedImage),
    };
    let ghost pre = out@;
    match event {
        Event::End(Tag::Image(_, _, _)) => {
            proof {
                reveal_with_fuel(crate::state::state_view, 4);
                assert(sv.frames.drop_last() =~= return_to@.frames);
                assert(return_to@ == popped(sv));
                assert(out@.skip(pre.len() as int) =~= Seq::<char>::empty());
                assert(out@.take(pre.len() as int) =~= pre);
            }
            Ok((*return_to, data))
        },
        Event::End(_) => {
            proof {
                assert(out@.take(pre.len() as int) =~= pre);
            }
            Err(RenderError::InvalidEvent)
        },
        Event::Start(_) => {
            let next = State::NestedState(
                Box::new(State::NestedState(return_to, NestedState::SuppressedImage)),
                NestedState::SuppressedSpan,
            );
            proof {
                reveal_with_fuel(crate::state::state_view, 4);
                assert(next@.frames =~= sv.frames.push(NestedStateV::SuppressedSpan));
                assert(out@.skip(pre.len() as int) =~= Seq::<char>::empty());
                assert(out@.take(pre.len() as int) =~= pre);
            }
            Ok((next, data))
        },
        _ => {
            let next = State::NestedState(return_to, NestedState::SuppressedImage);
            proof {
                reveal_with_fuel(crate::state::state_view, 4);
                assert(next@ == sv);
                assert(out@.skip(pre.len() as int) =~= Seq::<char>::empty());
                assert(out@.take(pre.len() as int) =~= pre);
            }
            Ok((next, data))
        },
    }
}

/// One step taken inside a construct opened within a suppressed image's
/// alt tree: any end event closes it, still without output.
fn suppressed_span_event(
    out: &mut Vec<char>,
    settings: &Settings,
    base_dir: &str,
    return_to: Box<State>,
    data: StateData,
    event: Event,
) -> (r: Result<(State, StateData), RenderError>)
    requires
        !unsupported_event(event@),
    ensures
        old(out)@.is_prefix_of(final(out)@),
        r matches Ok(next) ==> step_rel(
            StateV {
                top: return_to@.top,
                frames: return_to@.frames.push(NestedStateV::SuppressedSpan),
            },
            data@,
            event@,
            settings.terminal_capabilities,
            settings.terminal_size,
            base_dir@,
            StepResultV::Stepped(next.0@, next.1@, final(out)@.skip(old(out)@.len() as int)),
        ),
        r matches Err(e) ==> e == RenderError::InvalidEvent && final(out)@ == old(out)@
            && step_rel(
            StateV {
                top: return_to@.top,
                frames: return_to@.frames.push(NestedStateV::SuppressedSpan),
            },
            data@,
            event@,
            settings.terminal_capabilities,
            settings.terminal_size,
            base_dir@,
            StepResultV::Invalid,
        ),
{
    let ghost sv = StateV {
        top: return_to@.top,
        frames: return_to@.frames.push(NestedStateV::SuppressedSpan),
    };
    let ghost pre = out@;
    match event {
        Event::End(_) => {
            proof {
                reveal_with_fuel(crate::state::state_view, 4);
                assert(sv.frames.drop_last() =~= return_to@.frames);
                assert(return_to@ == popped(sv));
                assert(out@.skip(pre.len() as int) =~= Seq::<char>::empty());
                assert(out@.take(pre.len() as int) =~= pre);
            }
            Ok((*return_to, data))
        },
        Event::Start(_) => {
            let next = State::NestedState(
                Box::new(State::NestedState(return_to, NestedState::SuppressedSpan)),
                NestedState::SuppressedSpan,
            );
            proof {
                reveal_with_fuel(crate::state::state_view, 4);
                assert(next@.frames =~= sv.frames.push(NestedStateV::SuppressedSpan));
                assert(out@.skip(pre.len() as int) =~= Seq::<char>::empty());
                assert(out@.take(pre.len() as int) =~= pre);
            }
            Ok((next, data))
        },
        _ => {
            let next = State::NestedState(return_to, NestedState::SuppressedSpan);
            proof {
                reveal_with_fuel(crate::state::state_view, 4);
                assert(next@ == sv);
                assert(out@.skip(pre.len() as int) =~= Seq::<char>::empty());
                assert(out@.take(pre.len() as int) =~= pre);
            }
            Ok((next, data))
        },
    }
}

/// Process one event: write its output to `out` and step the state
/// machine.
///
/// The outcome is exactly what [`step_rel`] allows for the incoming state,
/// data and event: a table or footnote construct is refused as
/// unsupported, an event no well-formed stream can produce here is
/// refused as invalid (in both cases nothing is written), and otherwise
/// the next state and data are returned with the event's output appended
/// to `out`.
pub fn write_event(
    out: &mut Vec<char>,
    settings: &Settings,
    base_dir: &str,
    theme: &syntect::highlighting::Theme,
    state: State,
    data: StateData,
    event: Event,
) -> (r: Result<(State, StateData), RenderError>)
    requires
        data@.next_index < u64::MAX,
    ensures
        old(out)@.is_prefix_of(final(out)@),
        r matches Ok(next) ==> step_rel(
            state@,
            data@,
            event@,
            settings.terminal_capabilities,
            settings.terminal_size,
            base_dir@,
            StepResultV::Stepped(next.0@, next.1@, final(out)@.skip(old(out)@.len() as int)),
        ),
        r == Err::<(State, StateData), RenderError>(RenderError::UnsupportedConstruct)
            ==> final(out)@ == old(out)@ && step_rel(
            state@,
            data@,
            event@,
            settings.terminal_capabilities,
            settings.terminal_size,
            base_dir@,
            StepResultV::Unsupported,
        ),
        r == Err::<(State, StateData), RenderError>(RenderError::InvalidEvent) ==> final(out)@
            == old(out)@ && step_rel(
            state@,
            data@,
            event@,
            settings.terminal_capabilities,
            settings.terminal_size,
            base_dir@,
            StepResultV::Invalid,
        ),
        r != Err::<(State, StateData), RenderError>(RenderError::NotAtTopLevel),
{
    let ghost sv = state@;
    proof {
        reveal_with_fuel(crate::state::state_view, 2);
    }
    if is_unsupported(&event) {
        return Err(RenderError::UnsupportedConstruct);
    }
    match state {
        State::TopLevel(attrs) => top_level_event(out, settings, base_dir, theme, attrs, data, event),
        State::NestedState(return_to, NestedState::StyledBlock(attrs)) => styled_block_event(
            out,
            settings,
            base_dir,
            theme,
            return_to,
            attrs,
            data,
            event,
        ),
        State::NestedState(return_to, NestedState::ListBlock(attrs)) => list_block_event(
            out,
            settings,
            base_dir,
            return_to,
            attrs,
            data,
            event,
        ),
        State::NestedState(return_to, NestedState::LiteralBlock(attrs)) => literal_block_event(
            out,
            settings,
            base_dir,
            return_to,
            attrs,
            data,
            event,
        ),
        State::NestedState(return_to, NestedState::HighlightBlock(attrs)) => highlight_block_event(
            out,
            settings,
            base_dir,
            theme,
            return_to,
            attrs,
            data,
            event,
        ),
        State::NestedState(return_to, NestedState::Inline(istate, attrs)) => inline_event(
            out,
            settings,
            base_dir,
            theme,
            return_to,
            istate,
            attrs,
            data,
            event,
        ),
        State::NestedState(return_to, NestedState::SuppressedImage) => suppressed_image_event(
            out,
            settings,
            base_dir,
            return_to,
            data,
            event,
        ),
        State::NestedState(return_to, NestedState::SuppressedSpan) => suppressed_span_event(
            out,
            settings,
            base_dir,
            return_to,
            data,
            event,
        ),
    }
}

/// Close a render: the machine must be back at the top level, and the
/// links that are still pending are flushed.  A stream that ends away
/// from the top level was not well balanced and is refused, with nothing
/// written.
pub fn finish(
    out: &mut Vec<char>,
    settings: &Settings,
    state: State,
    data: StateData,
) -> (r: Result<(), RenderError>)
    ensures
        r is Ok <==> state@.frames.len() == 0,
        r is Ok ==> final(out)@ == old(out)@ + link_refs_out(
            settings.terminal_capabilities.style,
            data@.links,
        ),
        r is Err ==> final(out)@ == old(out)@ && r == Err::<(), RenderError>(
            RenderError::NotAtTopLevel,
        ),
{
    match state {
        State::TopLevel(_) => {
            let (_rest, links) = data.take_links();
            write_link_refs(out, &settings.terminal_capabilities, links);
            Ok(())
        },
        _ => Err(RenderError::NotAtTopLevel),
    }
}

} // verus!
