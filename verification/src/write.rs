//! Writers for the renderer's output: indents, marks, rules, borders,
//! reference-link lists, and code-block text, each with an exact
//! description of the characters it appends.

use vstd::prelude::*;
use crate::ansi::{styled_seq, write_styled};
use crate::data::{Link, LinkV};
use crate::event::{CodeBlockKind, CodeBlockKindV};
use crate::highlight::{new_highlighter, CodeHighlighter};
use crate::settings::Settings;
use crate::state::{
    HighlightBlockAttrs, LiteralBlockAttrs, NestedState, NestedStateV, State, StateV,
};
use crate::strutil::{append_str, decimal_seq, push_decimal, push_repeat, repeat_char};
use crate::style::{Colour, Style};
use crate::terminal::{mark_seq, MarkCapability, StyleCapability, TerminalCapabilities, TerminalSize};

verus! {

/// `n` spaces.
pub open spec fn spaces(n: nat) -> Seq<char> {
    repeat_char(' ', n)
}

/// A green style on an otherwise default style, as used for rules and
/// borders.
pub open spec fn green_style() -> Style {
    Style { fg: Some(Colour::Green), bold: false, italic: false, underline: false, strikethrough: false }
}

/// A blue style on an otherwise default style, as used for reference
/// links.
pub open spec fn blue_style() -> Style {
    Style { fg: Some(Colour::Blue), bold: false, italic: false, underline: false, strikethrough: false }
}

/// Write `level` spaces of indentation.
pub fn write_indent(out: &mut Vec<char>, level: u16)
    ensures
        final(out)@ == old(out)@ + spaces(level as nat),
{
    push_repeat(out, ' ', level as usize);
}

/// Write a terminal mark, if the terminal supports marks; otherwise write
/// nothing.
pub fn write_mark(out: &mut Vec<char>, capabilities: &TerminalCapabilities)
    ensures
        final(out)@ == old(out)@ + mark_seq(capabilities.marks),
{
    match capabilities.marks {
        MarkCapability::NoMarks => (),
        MarkCapability::ITerm2 => {
            out.push('\x1b');
            out.push(']');
            out.push('1');
            out.push('3');
            out.push('3');
            out.push('7');
            out.push(';');
            out.push('S');
            out.push('e');
            out.push('t');
            out.push('M');
            out.push('a');
            out.push('r');
            out.push('k');
            out.push('\x07');
            proof {
                assert(out@ =~= old(out)@ + mark_seq(capabilities.marks));
            }
        },
    }
}

/// The OSC 8 hyperlink opening sequence for `url`.
pub fn write_osc8_open(out: &mut Vec<char>, url: &str)
    ensures
        final(out)@ == old(out)@ + crate::terminal::osc8_open_seq(url@),
{
    out.push('\x1b');
    out.push(']');
    out.push('8');
    out.push(';');
    out.push(';');
    append_str(out, url);
    out.push('\x1b');
    out.push('\\');
    proof {
        assert(out@ =~= old(out)@ + crate::terminal::osc8_open_seq(url@));
    }
}

/// The OSC 8 hyperlink closing sequence.
pub fn write_osc8_close(out: &mut Vec<char>)
    ensures
        final(out)@ == old(out)@ + crate::terminal::osc8_close_seq(),
{
    out.push('\x1b');
    out.push(']');
    out.push('8');
    out.push(';');
    out.push(';');
    out.push('\x1b');
    out.push('\\');
    proof {
        assert(out@ =~= old(out)@ + crate::terminal::osc8_close_seq());
    }
}

/// A rule line of `length` heavy double-line characters, in green.
pub open spec fn rule_seq(cap: StyleCapability, length: nat) -> Seq<char> {
    styled_seq(cap, green_style(), repeat_char('\u{2550}', length))
}

/// Write a rule of `length` characters.
pub fn write_rule(out: &mut Vec<char>, capabilities: &TerminalCapabilities, length: usize)
    ensures
        final(out)@ == old(out)@ + rule_seq(capabilities.style, length as nat),
{
    let mut rule: Vec<char> = Vec::new();
    push_repeat(&mut rule, '\u{2550}', length);
    let style = Style::new().fg(Colour::Green);
    write_styled(out, capabilities, &style, &rule);
}

/// The width of a code-block border: at least 20 columns, capped at the
/// terminal width.
pub open spec fn border_width(size: TerminalSize) -> nat {
    if size.width < 20 {
        size.width as nat
    } else {
        20
    }
}

/// A code-block border: light horizontal characters in green, then a
/// newline.
pub open spec fn border_seq(cap: StyleCapability, size: TerminalSize) -> Seq<char> {
    styled_seq(cap, green_style(), repeat_char('\u{2500}', border_width(size))) + seq!['\n']
}

/// Write a code-block border.
pub fn write_border(
    out: &mut Vec<char>,
    capabilities: &TerminalCapabilities,
    terminal_size: &TerminalSize,
)
    ensures
        final(out)@ == old(out)@ + border_seq(capabilities.style, *terminal_size),
{
    let width = if terminal_size.width < 20 {
        terminal_size.width
    } else {
        20
    };
    let mut border: Vec<char> = Vec::new();
    push_repeat(&mut border, '\u{2500}', width);
    let style = Style::new().fg(Colour::Green);
    write_styled(out, capabilities, &style, &border);
    out.push('\n');
    proof {
        assert(out@ =~= old(out)@ + border_seq(capabilities.style, *terminal_size));
    }
}

/// Write a newline if the given state is the top level; lists directly
/// under the top level get a trailing blank line for separation.
pub fn writeln_returning_to_toplevel(out: &mut Vec<char>, state: &State)
    ensures
        final(out)@ == old(out)@ + (if state@.frames.len() == 0 {
            seq!['\n']
        } else {
            Seq::<char>::empty()
        }),
{
    match state {
        State::TopLevel(_) => {
            out.push('\n');
            proof {
                assert(out@ =~= old(out)@ + seq!['\n']);
            }
        },
        _ => {
            proof {
                assert(out@ =~= old(out)@ + Seq::<char>::empty());
            }
        },
    }
}

/// One reference-link line, before styling: `[index]: target title`.
pub open spec fn link_line_seq(link: LinkV) -> Seq<char> {
    seq!['['] + decimal_seq(link.index as nat) + seq![']', ':', ' '] + link.target + seq![' ']
        + link.title
}

/// The styled lines for a sequence of pending links, each followed by a
/// newline.
pub open spec fn link_lines_out(cap: StyleCapability, links: Seq<LinkV>) -> Seq<char>
    decreases links.len(),
{
    if links.len() == 0 {
        Seq::empty()
    } else {
        styled_seq(cap, blue_style(), link_line_seq(links.first())) + seq!['\n'] + link_lines_out(
            cap,
            links.drop_first(),
        )
    }
}

/// Everything written when pending links are flushed: nothing when there
/// are none, otherwise one separating blank line and then one line per
/// link.
pub open spec fn link_refs_out(cap: StyleCapability, links: Seq<LinkV>) -> Seq<char> {
    if links.len() == 0 {
        Seq::empty()
    } else {
        seq!['\n'] + link_lines_out(cap, links)
    }
}

proof fn lemma_link_lines_take(cap: StyleCapability, links: Seq<LinkV>, i: int)
    requires
        0 <= i < links.len(),
    ensures
        link_lines_out(cap, links.take(i + 1)) == link_lines_out(cap, links.take(i)) + styled_seq(
            cap,
            blue_style(),
            link_line_seq(links[i]),
        ) + seq!['\n'],
    decreases i,
{
    if i == 0 {
        assert(links.take(1).drop_first() =~= links.take(0));
        assert(links.take(0).len() == 0);
        assert(link_lines_out(cap, links.take(1)) =~= styled_seq(
            cap,
            blue_style(),
            link_line_seq(links[0]),
        ) + seq!['\n']);
        assert(link_lines_out(cap, links.take(0)) + styled_seq(
            cap,
            blue_style(),
            link_line_seq(links[0]),
        ) + seq!['\n'] =~= styled_seq(cap, blue_style(), link_line_seq(links[0])) + seq!['\n']);
    } else {
        lemma_link_lines_take(cap, links.drop_first(), i - 1);
        assert(links.take(i + 1).drop_first() =~= links.drop_first().take(i));
        assert(links.take(i).drop_first() =~= links.drop_first().take(i - 1));
        assert(links.take(i + 1).first() == links.first());
        assert(links.take(i).first() == links.first());
        assert(links.drop_first()[i - 1] == links[i]);
        assert(link_lines_out(cap, links.take(i + 1)) =~= link_lines_out(cap, links.take(i))
            + styled_seq(cap, blue_style(), link_line_seq(links[i])) + seq!['\n']);
    }
}

/// Write all pending reference links: a separating blank line, then
/// `[index]: target title` per link, in blue, one per line.  Writes
/// nothing when there are no links.
pub fn write_link_refs(
    out: &mut Vec<char>,
    capabilities: &TerminalCapabilities,
    links: Vec<Link>,
)
    ensures
        final(out)@ == old(out)@ + link_refs_out(
            capabilities.style,
            links@.map_values(|l: Link| l@),
        ),
{
    let ghost linksv = links@.map_values(|l: Link| l@);
    if links.len() > 0 {
        out.push('\n');
        let style = Style::new().fg(Colour::Blue);
        let mut i: usize = 0;
        proof {
            assert(linksv.take(0) =~= Seq::<LinkV>::empty());
            assert(out@ =~= old(out)@ + seq!['\n'] + link_lines_out(
                capabilities.style,
                linksv.take(0),
            ));
        }
        while i < links.len()
            invariant
                i <= links.len(),
                linksv == links@.map_values(|l: Link| l@),
                style == blue_style(),
                out@ == old(out)@ + seq!['\n'] + link_lines_out(
                    capabilities.style,
                    linksv.take(i as int),
                ),
            decreases links.len() - i,
        {
            let mut line: Vec<char> = Vec::new();
            line.push('[');
            push_decimal(&mut line, links[i].index);
            line.push(']');
            line.push(':');
            line.push(' ');
            append_str(&mut line, links[i].target.as_str());
            line.push(' ');
            append_str(&mut line, links[i].title.as_str());
            proof {
                assert(line@ =~= link_line_seq(linksv[i as int]));
            }
            write_styled(out, capabilities, &style, &line);
            out.push('\n');
            proof {
                lemma_link_lines_take(capabilities.style, linksv, i as int);
                assert(out@ =~= old(out)@ + seq!['\n'] + link_lines_out(
                    capabilities.style,
                    linksv.take(i as int + 1),
                ));
            }
            i = i + 1;
        }
        proof {
            assert(linksv.take(links@.len() as int) =~= linksv);
        }
    } else {
        proof {
            assert(out@ =~= old(out)@ + link_refs_out(capabilities.style, linksv));
        }
    }
}

/// What starting a code block writes: the indent, the top border, and the
/// indent again for the first content line.
pub open spec fn code_block_start_out(
    cap: StyleCapability,
    size: TerminalSize,
    indent: u16,
) -> Seq<char> {
    spaces(indent as nat) + border_seq(cap, size) + spaces(indent as nat)
}

/// How the state after starting a code block relates to the state to
/// return to: one new frame is pushed.  With ANSI styling and a fenced,
/// non-empty language token the frame is a highlight block if the syntax
/// set resolves the token, and a literal block otherwise; in every other
/// case it is always a literal block.  A literal block renders in the
/// surrounding style with a yellow foreground.
pub open spec fn code_block_started(
    cap: StyleCapability,
    kind: CodeBlockKindV,
    return_to: StateV,
    indent: u16,
    style: Style,
    s2: StateV,
) -> bool {
    let literal = StateV {
        top: return_to.top,
        frames: return_to.frames.push(
            NestedStateV::LiteralBlock(
                LiteralBlockAttrs { indent, style: Style { fg: Some(Colour::Yellow), ..style } },
            ),
        ),
    };
    let highlighted = StateV {
        top: return_to.top,
        frames: return_to.frames.push(NestedStateV::HighlightBlock(indent)),
    };
    if cap == StyleCapability::Ansi && (kind matches CodeBlockKindV::Fenced(token)
        && token.len() > 0) {
        s2 == literal || s2 == highlighted
    } else {
        s2 == literal
    }
}

/// How the state after starting a code block relates to the state to
/// return to, with the syntax-set lookup pinned: with ANSI styling and a
/// fenced, non-empty language token the frame is a highlight block
/// exactly when the set resolves the token ([`crate::highlight::token_resolves`]),
/// and in every other case — no ANSI styling, an indented block, an empty
/// token, or an unresolved token — it is the literal fallback.
pub open spec fn code_block_resolved(
    cap: StyleCapability,
    kind: CodeBlockKindV,
    syntax_set: syntect::parsing::SyntaxSet,
    return_to: StateV,
    indent: u16,
    style: Style,
    s2: StateV,
) -> bool {
    let literal = StateV {
        top: return_to.top,
        frames: return_to.frames.push(
            NestedStateV::LiteralBlock(
                LiteralBlockAttrs { indent, style: Style { fg: Some(Colour::Yellow), ..style } },
            ),
        ),
    };
    let highlighted = StateV {
        top: return_to.top,
        frames: return_to.frames.push(NestedStateV::HighlightBlock(indent)),
    };
    if cap == StyleCapability::Ansi && (kind matches CodeBlockKindV::Fenced(token)
        && token.len() > 0) {
        s2 == if crate::highlight::token_resolves(
            syntax_set,
            kind->Fenced_0,
        ) {
            highlighted
        } else {
            literal
        }
    } else {
        s2 == literal
    }
}

/// Start a code block: write the top border and push the block's frame
/// onto `return_to`.  The block is highlighted when the terminal styles
/// with ANSI, the block is fenced with a language token, and the syntax
/// set resolves that token; otherwise it is a literal block.
pub fn write_start_code_block(
    out: &mut Vec<char>,
    settings: &Settings,
    return_to: State,
    indent: u16,
    style: Style,
    block_kind: &CodeBlockKind,
    theme: &syntect::highlighting::Theme,
) -> (next: State)
    ensures
        final(out)@ == old(out)@ + code_block_start_out(
            settings.terminal_capabilities.style,
            settings.terminal_size,
            indent,
        ),
        code_block_started(
            settings.terminal_capabilities.style,
            block_kind@,
            return_to@,
            indent,
            style,
            next@,
        ),
        code_block_resolved(
            settings.terminal_capabilities.style,
            block_kind@,
            settings.syntax_set,
            return_to@,
            indent,
            style,
            next@,
        ),
{
    write_indent(out, indent);
    write_border(out, &settings.terminal_capabilities, &settings.terminal_size);
    write_indent(out, indent);
    let highlighter: Option<CodeHighlighter> = match (
        &settings.terminal_capabilities.style,
        block_kind,
    ) {
        (StyleCapability::Ansi, CodeBlockKind::Fenced(token)) => {
            if token.as_str().is_empty() {
                Option::None
            } else {
                new_highlighter(&settings.syntax_set, theme, token.as_str())
            }
        },
        (_, _) => Option::None,
    };
    match highlighter {
        Some(h) => State::NestedState(
            Box::new(return_to),
            NestedState::HighlightBlock(HighlightBlockAttrs { highlighter: h, indent }),
        ),
        None => State::NestedState(
            Box::new(return_to),
            NestedState::LiteralBlock(
                LiteralBlockAttrs { indent, style: Style { fg: Some(Colour::Yellow), ..style } },
            ),
        ),
    }
}

/// The output for the text of a literal code block: the text's lines,
/// each styled separately (endings included), with the indent re-emitted
/// after every newline so the next line starts aligned.
pub open spec fn literal_block_out(
    cap: StyleCapability,
    st: Style,
    text: Seq<char>,
    indent: u16,
) -> Seq<char>
    decreases text.len(),
{
    if text.len() == 0 {
        Seq::empty()
    } else {
        let k = crate::strutil::first_nl(text);
        if k >= text.len() {
            styled_seq(cap, st, text)
        } else {
            styled_seq(cap, st, text.take(k as int + 1)) + spaces(indent as nat) + literal_block_out(
                cap,
                st,
                text.skip(k as int + 1),
                indent,
            )
        }
    }
}

/// Write the text of a literal code block: each line in the block style,
/// with the indent after every newline.
pub fn write_literal_text(
    out: &mut Vec<char>,
    capabilities: &TerminalCapabilities,
    style: &Style,
    text: &str,
    indent: u16,
)
    ensures
        final(out)@ == old(out)@ + literal_block_out(capabilities.style, *style, text@, indent),
{
    let ghost cap = capabilities.style;
    let ghost st = *style;
    let ghost t = text@;
    let mut chars: Vec<char> = Vec::new();
    append_str(&mut chars, text);
    let mut pos: usize = 0;
    proof {
        assert(t.skip(0) =~= t);
    }
    while pos < chars.len()
        invariant
            pos <= chars.len(),
            chars@ == t,
            st == *style,
            cap == capabilities.style,
            old(out)@ + literal_block_out(cap, st, t, indent) == out@ + literal_block_out(
                cap,
                st,
                t.skip(pos as int),
                indent,
            ),
        decreases chars.len() - pos,
    {
        let ghost out_entry = out@;
        let mut line: Vec<char> = Vec::new();
        let mut end: usize = pos;
        while end < chars.len() && chars[end] != '\n'
            invariant
                pos <= end <= chars.len(),
                chars@ == t,
                line@ == t.subrange(pos as int, end as int),
                forall|i: int| pos <= i < end ==> t[i] != '\n',
            decreases chars.len() - end,
        {
            line.push(chars[end]);
            proof {
                assert(line@ =~= t.subrange(pos as int, end as int + 1));
            }
            end = end + 1;
        }
        let ghost rest = t.skip(pos as int);
        proof {
            assert forall|i: int| 0 <= i < end - pos implies rest[i] != '\n' by {
                assert(rest[i] == t[pos + i]);
            }
            if (end as int) - (pos as int) < rest.len() {
                assert(rest[end - pos] == t[end as int]);
            }
            crate::strutil::lemma_first_nl_at(rest, end as int - pos as int);
        }
        if end < chars.len() {
            line.push('\n');
            write_styled(out, capabilities, style, &line);
            write_indent(out, indent);
            proof {
                assert(rest.take(end - pos + 1) =~= line@);
                assert(rest.skip(end - pos + 1) =~= t.skip(end as int + 1));
                assert(literal_block_out(cap, st, rest, indent) == styled_seq(cap, st, line@)
                    + spaces(indent as nat) + literal_block_out(
                    cap,
                    st,
                    t.skip(end as int + 1),
                    indent,
                ));
                assert(out@ =~= out_entry + styled_seq(cap, st, line@) + spaces(indent as nat));
                assert(out@ + literal_block_out(cap, st, t.skip(end as int + 1), indent)
                    =~= out_entry + literal_block_out(cap, st, rest, indent));
            }
            pos = end + 1;
        } else {
            write_styled(out, capabilities, style, &line);
            proof {
                assert(rest =~= line@);
                assert(literal_block_out(cap, st, rest, indent) == styled_seq(cap, st, line@));
                assert(t.skip(chars@.len() as int) =~= Seq::<char>::empty());
                assert(out@ + literal_block_out(cap, st, t.skip(chars@.len() as int), indent)
                    =~= out_entry + literal_block_out(cap, st, rest, indent));
            }
            pos = end;
        }
    }
    proof {
        assert(t.skip(t.len() as int) =~= Seq::<char>::empty());
        assert(old(out)@ + literal_block_out(cap, st, t, indent) =~= out@);
    }
}

/// How the characters written for the text of a highlighted code block
/// relate to that text: line by line (endings included), each line is
/// written as the styled regions the tokeniser produced for it — whose
/// texts concatenate to a prefix of that line — and the indent follows
/// every newline-terminated line.  Under a terminal without styling this
/// pins the visible characters of the block up to where the tokeniser
/// covered each line; the styling itself depends on grammar and theme.
pub open spec fn highlight_block_out_rel(
    cap: StyleCapability,
    text: Seq<char>,
    indent: u16,
    out: Seq<char>,
) -> bool
    decreases text.len(),
{
    if text.len() == 0 {
        out == Seq::<char>::empty()
    } else if crate::strutil::first_nl(text) >= text.len() {
        exists|rs: Seq<crate::highlight::HighlightRegion>|
            out == #[trigger] crate::highlight::regions_out(cap, rs)
                && crate::highlight::regions_text(rs).is_prefix_of(text)
    } else {
        exists|rs: Seq<crate::highlight::HighlightRegion>, rest: Seq<char>|
            {
                &&& out == #[trigger] (crate::highlight::regions_out(cap, rs) + spaces(
                    indent as nat,
                ) + rest)
                &&& crate::highlight::regions_text(rs).is_prefix_of(
                    text.take(crate::strutil::first_nl(text) as int + 1),
                )
                &&& highlight_block_out_rel(
                    cap,
                    text.skip(crate::strutil::first_nl(text) as int + 1),
                    indent,
                    rest,
                )
            }
    }
}

/// One line's regions, the indent and a related tail assemble into a
/// related output for the whole text.
proof fn lemma_highlight_block_out_step(
    cap: StyleCapability,
    text: Seq<char>,
    indent: u16,
    rs: Seq<crate::highlight::HighlightRegion>,
    rest: Seq<char>,
    out: Seq<char>,
)
    requires
        crate::strutil::first_nl(text) < text.len(),
        out == crate::highlight::regions_out(cap, rs) + spaces(indent as nat) + rest,
        crate::highlight::regions_text(rs).is_prefix_of(
            text.take(crate::strutil::first_nl(text) as int + 1),
        ),
        highlight_block_out_rel(cap, text.skip(crate::strutil::first_nl(text) as int + 1), indent, rest),
    ensures
        highlight_block_out_rel(cap, text, indent, out),
{
}

/// Write the lines of a highlighted code block from position `pos` on.
#[verifier::rlimit(100)]
#[verifier::spinoff_prover]
fn write_highlight_lines(
    out: &mut Vec<char>,
    settings: &Settings,
    highlighter: &mut CodeHighlighter,
    theme: &syntect::highlighting::Theme,
    chars: &Vec<char>,
    pos: usize,
    indent: u16,
)
    requires
        pos <= chars.len(),
    ensures
        old(out)@.is_prefix_of(final(out)@),
        highlight_block_out_rel(
            settings.terminal_capabilities.style,
            chars@.skip(pos as int),
            indent,
            final(out)@.skip(old(out)@.len() as int),
        ),
    decreases chars.len() - pos,
{
    let ghost cap = settings.terminal_capabilities.style;
    let ghost pre = out@;
    let ghost rest_text = chars@.skip(pos as int);
    if pos >= chars.len() {
        proof {
            assert(rest_text.len() == 0);
            assert(out@.skip(pre.len() as int) =~= Seq::<char>::empty());
            assert(out@.take(pre.len() as int) =~= pre);
        }
    } else {
        let mut line: Vec<char> = Vec::new();
        let mut end: usize = pos;
        while end < chars.len() && chars[end] != '\n'
            invariant
                pos <= end <= chars.len(),
                line@ == chars@.subrange(pos as int, end as int),
                forall|i: int| pos <= i < end ==> chars@[i] != '\n',
            decreases chars.len() - end,
        {
            line.push(chars[end]);
            proof {
                assert(line@ =~= chars@.subrange(pos as int, end as int + 1));
            }
            end = end + 1;
        }
        let ghost nl_at = end as int;
        proof {
            assert forall|i: int| 0 <= i < nl_at - pos implies rest_text[i] != '\n' by {
                assert(rest_text[i] == chars@[pos + i]);
            }
            if nl_at - pos < rest_text.len() {
                assert(rest_text[nl_at - pos] == chars@[nl_at]);
            }
            crate::strutil::lemma_first_nl_at(rest_text, nl_at - pos);
        }
        let mut ended_nl = false;
        if end < chars.len() {
            line.push('\n');
            end = end + 1;
            ended_nl = true;
        }
        let line_string = crate::strutil::chars_string(&line);
        let regions = crate::highlight::highlight_line(highlighter, theme, line_string.as_str());
        crate::highlight::write_regions(out, &settings.terminal_capabilities, &regions);
        let ghost after_regions = out@;
        if ended_nl {
            write_indent(out, indent);
            let ghost after_indent = out@;
            write_highlight_lines(out, settings, highlighter, theme, chars, end, indent);
            proof {
                let chunk = out@.skip(pre.len() as int);
                let tail_chunk = out@.skip(after_indent.len() as int);
                assert(crate::strutil::first_nl(rest_text) == nl_at - pos);
                assert(crate::strutil::first_nl(rest_text) < rest_text.len());
                assert(rest_text.take(crate::strutil::first_nl(rest_text) as int + 1) =~= line@);
                assert(rest_text.skip(crate::strutil::first_nl(rest_text) as int + 1)
                    =~= chars@.skip(end as int));
                assert(after_regions == pre + crate::highlight::regions_out(cap, regions@));
                assert(after_indent == after_regions + spaces(indent as nat));
                assert(out@.take(after_indent.len() as int) =~= after_indent);
                assert(out@ =~= out@.take(after_indent.len() as int) + tail_chunk);
                assert(chunk =~= crate::highlight::regions_out(cap, regions@) + spaces(
                    indent as nat,
                ) + tail_chunk);
                assert(crate::highlight::regions_text(regions@).is_prefix_of(
                    rest_text.take(crate::strutil::first_nl(rest_text) as int + 1),
                ));
                assert(highlight_block_out_rel(
                    cap,
                    rest_text.skip(crate::strutil::first_nl(rest_text) as int + 1),
                    indent,
                    tail_chunk,
                ));
                lemma_highlight_block_out_step(cap, rest_text, indent, regions@, tail_chunk, chunk);
                assert(highlight_block_out_rel(cap, rest_text, indent, chunk));
                assert(out@.take(pre.len() as int) =~= pre);
            }
        } else {
            proof {
                let k = crate::strutil::first_nl(rest_text);
                let chunk = out@.skip(pre.len() as int);
                assert(k == nl_at - pos);
                assert(k >= rest_text.len());
                assert(rest_text =~= line@);
                assert(chunk =~= crate::highlight::regions_out(cap, regions@));
                assert(crate::highlight::regions_text(regions@).is_prefix_of(rest_text));
                assert(highlight_block_out_rel(cap, rest_text, indent, chunk));
                assert(out@.take(pre.len() as int) =~= pre);
            }
        }
    }
}

/// Write the text of a highlighted code block: each line is fed through
/// the block's tokeniser and written as styled regions, with the indent
/// re-emitted after every newline.  The characters written satisfy
/// [`highlight_block_out_rel`]: the regions written for each line carry a
/// prefix of that line's text — all of it whenever the tokeniser covers
/// the line — while the styling itself depends on the grammar and theme
/// behind the tokeniser.
pub fn write_highlight_text(
    out: &mut Vec<char>,
    settings: &Settings,
    attrs: &mut HighlightBlockAttrs,
    theme: &syntect::highlighting::Theme,
    text: &str,
)
    ensures
        final(attrs).indent == old(attrs).indent,
        old(out)@.is_prefix_of(final(out)@),
        highlight_block_out_rel(
            settings.terminal_capabilities.style,
            text@,
            old(attrs).indent,
            final(out)@.skip(old(out)@.len() as int),
        ),
{
    let mut chars: Vec<char> = Vec::new();
    append_str(&mut chars, text);
    let indent = attrs.indent;
    write_highlight_lines(out, settings, &mut attrs.highlighter, theme, &chars, 0, indent);
    proof {
        assert(chars@.skip(0) =~= text@);
    }
}

} // verus!
