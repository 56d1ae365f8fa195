//! Laws of the rendering state machine.
//!
//! A well-formed event stream is one a Markdown parser can emit: the
//! flattening of a document tree.  The laws here quantify over all such
//! trees and all runs of the machine: a well-formed document drives the
//! machine back to the top level with a margin pending, the effective
//! style unwinds to the default, nesting depth mirrors the open/close
//! balance of the stream, and link reference indices stay contiguous and
//! strictly increasing.

use vstd::prelude::*;
use crate::ansi::styled_seq;
use crate::data::{data_wf, LinkV, StateDataV};
use crate::event::{CodeBlockKindV, EventV, LinkType, TagV};
use crate::render::{
    blank, blank_html, blue_fg, green_fg, heading_prefix, heading_style, image_annotation_seq,
    ind_plus, item_indent, item_marker, item_type_of, popped, pushed, quote_style, reference_seq,
    rule_width, step_rel, swapped, task_marker, top_margin, yellow_fg, StepResultV,
};
use crate::resolve::resolved_reference;
use crate::state::{
    effective_style, initial_state, next_item_type, InlineAttrs, InlineState, ListBlockAttrs,
    ListItemType, LiteralBlockAttrs, MarginControl, NestedStateV, StateV, StyledBlockAttrs,
    TopLevelAttrs,
};
use crate::style::{default_style, Colour, Style};
use crate::highlight::{regions_out, regions_text, HighlightRegion};
use crate::strutil::first_nl;
use crate::terminal::{
    mark_seq, osc8_close_seq, osc8_open_seq, LinkCapability, StyleCapability,
    TerminalCapabilities, TerminalSize,
};
use crate::write::{
    border_seq, code_block_start_out, code_block_started, highlight_block_out_rel, link_refs_out,
    literal_block_out, rule_seq, spaces,
};

verus! {

/// One piece of inline content, as a tree.
pub enum InlineNode {
    Words(Seq<char>),
    CodeSpan(Seq<char>),
    HtmlSpan(Seq<char>),
    SoftBreak,
    HardBreak,
    Emphasis(Seq<InlineNode>),
    Strong(Seq<InlineNode>),
    Strikethrough(Seq<InlineNode>),
    LinkNode(LinkType, Seq<char>, Seq<char>, Seq<InlineNode>),
    ImageNode(LinkType, Seq<char>, Seq<char>, Seq<InlineNode>),
}

/// One block of a document, as a tree.
pub enum BlockNode {
    Paragraph(Seq<InlineNode>),
    Heading(u32, Seq<InlineNode>),
    Quote(Seq<BlockNode>),
    CodeBlock(CodeBlockKindV, Seq<Seq<char>>),
    ListBlock(Option<u64>, Seq<ItemNode>),
    RuleBlock,
    HtmlBlock(Seq<char>),
}

/// One item of a list: an optional task marker, leading inline text, and
/// block children.
pub struct ItemNode {
    pub marker: Option<bool>,
    pub lead: Seq<InlineNode>,
    pub blocks: Seq<BlockNode>,
}

/// The events of one inline node.
pub open spec fn inline_events(n: InlineNode) -> Seq<EventV>
    decreases n,
{
    match n {
        InlineNode::Words(t) => seq![EventV::Text(t)],
        InlineNode::CodeSpan(t) => seq![EventV::Code(t)],
        InlineNode::HtmlSpan(t) => seq![EventV::Html(t)],
        InlineNode::SoftBreak => seq![EventV::SoftBreak],
        InlineNode::HardBreak => seq![EventV::HardBreak],
        InlineNode::Emphasis(ns) => seq![EventV::Start(TagV::Emphasis)] + inlines_events(ns, 0)
            + seq![EventV::End(TagV::Emphasis)],
        InlineNode::Strong(ns) => seq![EventV::Start(TagV::Strong)] + inlines_events(ns, 0)
            + seq![EventV::End(TagV::Strong)],
        InlineNode::Strikethrough(ns) => seq![EventV::Start(TagV::Strikethrough)]
            + inlines_events(ns, 0) + seq![EventV::End(TagV::Strikethrough)],
        InlineNode::LinkNode(ty, target, title, ns) => seq![
            EventV::Start(TagV::Link(ty, target, title)),
        ] + inlines_events(ns, 0) + seq![EventV::End(TagV::Link(ty, target, title))],
        InlineNode::ImageNode(ty, target, title, ns) => seq![
            EventV::Start(TagV::Image(ty, target, title)),
        ] + inlines_events(ns, 0) + seq![EventV::End(TagV::Image(ty, target, title))],
    }
}

/// The events of the inline nodes from position `i` on.
pub open spec fn inlines_events(ns: Seq<InlineNode>, i: int) -> Seq<EventV>
    decreases ns, ns.len() - i,
{
    if i < 0 || i >= ns.len() {
        Seq::empty()
    } else {
        inline_events(ns[i]) + inlines_events(ns, i + 1)
    }
}

/// The text events of a code block's lines from position `i` on.
pub open spec fn text_events(lines: Seq<Seq<char>>, i: int) -> Seq<EventV>
    decreases lines.len() - i,
{
    if i < 0 || i >= lines.len() {
        Seq::empty()
    } else {
        seq![EventV::Text(lines[i])] + text_events(lines, i + 1)
    }
}

/// The events of one block.
pub open spec fn block_events(b: BlockNode) -> Seq<EventV>
    decreases b,
{
    match b {
        BlockNode::Paragraph(ns) => seq![EventV::Start(TagV::Paragraph)] + inlines_events(ns, 0)
            + seq![EventV::End(TagV::Paragraph)],
        BlockNode::Heading(level, ns) => seq![EventV::Start(TagV::Heading(level))]
            + inlines_events(ns, 0) + seq![EventV::End(TagV::Heading(level))],
        BlockNode::Quote(bs) => seq![EventV::Start(TagV::BlockQuote)] + blocks_events(bs, 0)
            + seq![EventV::End(TagV::BlockQuote)],
        BlockNode::CodeBlock(kind, lines) => seq![EventV::Start(TagV::CodeBlock(kind))]
            + text_events(lines, 0) + seq![EventV::End(TagV::CodeBlock(kind))],
        BlockNode::ListBlock(start, items) => seq![EventV::Start(TagV::List(start))]
            + items_events(items, 0) + seq![EventV::End(TagV::List(start))],
        BlockNode::RuleBlock => seq![EventV::Rule],
        BlockNode::HtmlBlock(h) => seq![EventV::Html(h)],
    }
}

/// The events of the blocks from position `i` on.
pub open spec fn blocks_events(bs: Seq<BlockNode>, i: int) -> Seq<EventV>
    decreases bs, bs.len() - i,
{
    if i < 0 || i >= bs.len() {
        Seq::empty()
    } else {
        block_events(bs[i]) + blocks_events(bs, i + 1)
    }
}

/// The events of one list item.
pub open spec fn item_events(it: ItemNode) -> Seq<EventV>
    decreases it,
{
    seq![EventV::Start(TagV::Item)] + (match it.marker {
        Some(checked) => seq![EventV::TaskListMarker(checked)],
        None => Seq::empty(),
    }) + inlines_events(it.lead, 0) + blocks_events(it.blocks, 0) + seq![EventV::End(TagV::Item)]
}

/// The events of the items from position `i` on.
pub open spec fn items_events(its: Seq<ItemNode>, i: int) -> Seq<EventV>
    decreases its, its.len() - i,
{
    if i < 0 || i >= its.len() {
        Seq::empty()
    } else {
        item_events(its[i]) + items_events(its, i + 1)
    }
}

/// Whether none of the nodes is a link or an image.  Inside a hyperlinked
/// span the machine refuses to open another link or an image, so
/// well-formed link content is plain.
pub open spec fn plain_inlines(ns: Seq<InlineNode>) -> bool {
    forall|i: int|
        0 <= i < ns.len() ==> !(#[trigger] ns[i] is LinkNode) && !(ns[i] is ImageNode)
}

/// Well-formedness of one inline node.
pub open spec fn wf_inline(n: InlineNode) -> bool
    decreases n,
{
    match n {
        InlineNode::Words(_) => true,
        InlineNode::CodeSpan(_) => true,
        InlineNode::HtmlSpan(_) => true,
        InlineNode::SoftBreak => true,
        InlineNode::HardBreak => true,
        InlineNode::Emphasis(ns) => wf_inlines(ns),
        InlineNode::Strong(ns) => wf_inlines(ns),
        InlineNode::Strikethrough(ns) => wf_inlines(ns),
        InlineNode::LinkNode(_, _, _, ns) => wf_inlines(ns) && plain_inlines(ns),
        InlineNode::ImageNode(_, _, _, ns) => wf_inlines(ns),
    }
}

/// Well-formedness of a sequence of inline nodes.
pub open spec fn wf_inlines(ns: Seq<InlineNode>) -> bool
    decreases ns,
{
    forall|i: int| 0 <= i < ns.len() ==> wf_inline(#[trigger] ns[i])
}

/// Whether a block may stand first in a list item, straight after the
/// item marker on the same line.
pub open spec fn item_leading_block(b: BlockNode) -> bool {
    match b {
        BlockNode::Paragraph(_) => true,
        BlockNode::ListBlock(_, _) => true,
        BlockNode::CodeBlock(_, _) => true,
        BlockNode::RuleBlock => true,
        _ => false,
    }
}

/// Well-formedness of one block.
pub open spec fn wf_block(b: BlockNode) -> bool
    decreases b,
{
    match b {
        BlockNode::Paragraph(ns) => wf_inlines(ns),
        BlockNode::Heading(_, ns) => wf_inlines(ns),
        BlockNode::Quote(bs) => wf_blocks(bs),
        BlockNode::CodeBlock(_, _) => true,
        BlockNode::ListBlock(_, items) => wf_items(items),
        BlockNode::RuleBlock => true,
        BlockNode::HtmlBlock(_) => true,
    }
}

/// Well-formedness of a sequence of blocks.
pub open spec fn wf_blocks(bs: Seq<BlockNode>) -> bool
    decreases bs,
{
    forall|i: int| 0 <= i < bs.len() ==> wf_block(#[trigger] bs[i])
}

/// Well-formedness of one list item: its inline lead must be well formed,
/// its blocks too, and the first block must be one that may follow the
/// item marker on the same line.
pub open spec fn wf_item(it: ItemNode) -> bool
    decreases it,
{
    &&& wf_inlines(it.lead)
    &&& wf_blocks(it.blocks)
    &&& it.blocks.len() > 0 ==> item_leading_block(it.blocks[0])
}

/// Well-formedness of a sequence of list items.
pub open spec fn wf_items(its: Seq<ItemNode>) -> bool
    decreases its,
{
    forall|i: int| 0 <= i < its.len() ==> wf_item(#[trigger] its[i])
}

/// Whether the machine can take the events `evs` from `(s, d)` to
/// `(s2, d2)`: there is a chain of accepted steps through them.
pub open spec fn run_rel(
    s: StateV,
    d: StateDataV,
    evs: Seq<EventV>,
    caps: TerminalCapabilities,
    size: TerminalSize,
    base: Seq<char>,
    s2: StateV,
    d2: StateDataV,
) -> bool
    decreases evs.len(),
{
    if evs.len() == 0 {
        s2 == s && d2 == d
    } else {
        exists|sm: StateV, dm: StateDataV, o: Seq<char>|
            step_rel(s, d, evs.first(), caps, size, base, StepResultV::Stepped(sm, dm, o))
                && run_rel(sm, dm, evs.drop_first(), caps, size, base, s2, d2)
    }
}

/// A single accepted step is a run of one event.
pub proof fn lemma_run_single(
    s: StateV,
    d: StateDataV,
    e: EventV,
    caps: TerminalCapabilities,
    size: TerminalSize,
    base: Seq<char>,
    s2: StateV,
    d2: StateDataV,
    o: Seq<char>,
)
    requires
        step_rel(s, d, e, caps, size, base, StepResultV::Stepped(s2, d2, o)),
    ensures
        run_rel(s, d, seq![e], caps, size, base, s2, d2),
{
    let evs = seq![e];
    assert(evs.first() == e);
    assert(evs.drop_first() =~= Seq::<EventV>::empty());
    assert(run_rel(s2, d2, evs.drop_first(), caps, size, base, s2, d2));
}

/// Runs compose: a run over `a` followed by a run over `b` is a run over
/// `a + b`.
pub proof fn lemma_run_compose(
    s: StateV,
    d: StateDataV,
    a: Seq<EventV>,
    b: Seq<EventV>,
    caps: TerminalCapabilities,
    size: TerminalSize,
    base: Seq<char>,
    sm: StateV,
    dm: StateDataV,
    s2: StateV,
    d2: StateDataV,
)
    requires
        run_rel(s, d, a, caps, size, base, sm, dm),
        run_rel(sm, dm, b, caps, size, base, s2, d2),
    ensures
        run_rel(s, d, a + b, caps, size, base, s2, d2),
    decreases a.len(),
{
    if a.len() == 0 {
        assert(a + b =~= b);
    } else {
        let (s1, d1, o) = choose|s1: StateV, d1: StateDataV, o: Seq<char>|
            step_rel(s, d, a.first(), caps, size, base, StepResultV::Stepped(s1, d1, o))
                && run_rel(s1, d1, a.drop_first(), caps, size, base, sm, dm);
        lemma_run_compose(s1, d1, a.drop_first(), b, caps, size, base, sm, dm, s2, d2);
        assert((a + b).first() == a.first());
        assert((a + b).drop_first() =~= a.drop_first() + b);
        assert(step_rel(s, d, (a + b).first(), caps, size, base, StepResultV::Stepped(s1, d1, o))
            && run_rel(s1, d1, (a + b).drop_first(), caps, size, base, s2, d2));
    }
}

/// The nesting balance of one event: a `Start` opens a construct, an
/// `End` closes one, everything else leaves the nesting alone.
pub open spec fn tag_delta(e: EventV) -> int {
    match e {
        EventV::Start(_) => 1,
        EventV::End(_) => -1,
        _ => 0,
    }
}

/// The nesting balance of a stream: opened minus closed constructs.
pub open spec fn events_delta(evs: Seq<EventV>) -> int
    decreases evs.len(),
{
    if evs.len() == 0 {
        0
    } else {
        tag_delta(evs.first()) + events_delta(evs.drop_first())
    }
}

/// Law: one accepted step changes the machine's nesting depth by exactly
/// the event's balance.  Every `Start` pushes one frame, every `End` pops
/// one, and no other event moves the stack.
pub proof fn lemma_step_depth(
    s: StateV,
    d: StateDataV,
    e: EventV,
    caps: TerminalCapabilities,
    size: TerminalSize,
    base: Seq<char>,
    s2: StateV,
    d2: StateDataV,
    o: Seq<char>,
)
    requires
        step_rel(s, d, e, caps, size, base, StepResultV::Stepped(s2, d2, o)),
    ensures
        s2.frames.len() == s.frames.len() + tag_delta(e),
{
}

/// Law: over a whole run, the machine's nesting depth changes by exactly
/// the stream's balance.  In particular a run that starts and ends at the
/// top level has exactly as many `End`s as `Start`s: every opened
/// construct was closed before the machine returned to the top level.
pub proof fn lemma_run_depth(
    s: StateV,
    d: StateDataV,
    evs: Seq<EventV>,
    caps: TerminalCapabilities,
    size: TerminalSize,
    base: Seq<char>,
    s2: StateV,
    d2: StateDataV,
)
    requires
        run_rel(s, d, evs, caps, size, base, s2, d2),
    ensures
        s2.frames.len() == s.frames.len() + events_delta(evs),
    decreases evs.len(),
{
    if evs.len() == 0 {
    } else {
        let (s1, d1, o) = choose|s1: StateV, d1: StateDataV, o: Seq<char>|
            step_rel(s, d, evs.first(), caps, size, base, StepResultV::Stepped(s1, d1, o))
                && run_rel(s1, d1, evs.drop_first(), caps, size, base, s2, d2);
        lemma_step_depth(s, d, evs.first(), caps, size, base, s1, d1, o);
        lemma_run_depth(s1, d1, evs.drop_first(), caps, size, base, s2, d2);
    }
}

/// Law: one accepted step keeps the link registry well formed and never
/// decreases the next reference index.  Indices are handed out in
/// encounter order, are never reused, and the pending links always carry
/// the contiguous run of indices directly below the next one.
pub proof fn lemma_step_links(
    s: StateV,
    d: StateDataV,
    e: EventV,
    caps: TerminalCapabilities,
    size: TerminalSize,
    base: Seq<char>,
    s2: StateV,
    d2: StateDataV,
    o: Seq<char>,
)
    requires
        step_rel(s, d, e, caps, size, base, StepResultV::Stepped(s2, d2, o)),
        data_wf(d),
        d.next_index < u64::MAX,
    ensures
        data_wf(d2),
        d.next_index <= d2.next_index <= d.next_index + 1,
{
}

/// Law: over a whole run short enough for its reference indices to fit,
/// the link registry stays well formed and the next index never
/// decreases: indices are strictly monotonic and contiguous from one
/// across the lifetime of a render.
pub proof fn lemma_run_links(
    s: StateV,
    d: StateDataV,
    evs: Seq<EventV>,
    caps: TerminalCapabilities,
    size: TerminalSize,
    base: Seq<char>,
    s2: StateV,
    d2: StateDataV,
)
    requires
        run_rel(s, d, evs, caps, size, base, s2, d2),
        data_wf(d),
        d.next_index + evs.len() <= u64::MAX,
    ensures
        data_wf(d2),
        d.next_index <= d2.next_index <= d.next_index + evs.len(),
    decreases evs.len(),
{
    if evs.len() == 0 {
    } else {
        let (s1, d1, o) = choose|s1: StateV, d1: StateDataV, o: Seq<char>|
            step_rel(s, d, evs.first(), caps, size, base, StepResultV::Stepped(s1, d1, o))
                && run_rel(s1, d1, evs.drop_first(), caps, size, base, s2, d2);
        lemma_step_links(s, d, evs.first(), caps, size, base, s1, d1, o);
        lemma_run_links(s1, d1, evs.drop_first(), caps, size, base, s2, d2);
    }
}

/// The margin a block leaves behind: raw HTML suppresses the following
/// margin for HTML only, every other block asks for a full margin.
pub open spec fn margin_after(b: BlockNode) -> MarginControl {
    match b {
        BlockNode::HtmlBlock(_) => MarginControl::NoMarginForHTMLOnly,
        _ => MarginControl::Margin,
    }
}

/// The margin left after the blocks from `i` on, starting from `m`.
pub open spec fn seq_margin(bs: Seq<BlockNode>, i: int, m: MarginControl) -> MarginControl
    decreases bs.len() - i,
{
    if i < 0 || i >= bs.len() {
        m
    } else {
        seq_margin(bs, i + 1, margin_after(bs[i]))
    }
}

/// The characters a highlighted block writes when the tokeniser covers
/// none of any line: only the indent after each newline-terminated line.
/// This is one output [`highlight_block_out_rel`] admits, used below as
/// a witness that text events inside highlighted blocks are accepted.
pub open spec fn silent_highlight_out(text: Seq<char>, indent: u16) -> Seq<char>
    decreases text.len(),
{
    if text.len() == 0 {
        Seq::empty()
    } else {
        let k = first_nl(text);
        if k >= text.len() {
            Seq::empty()
        } else {
            spaces(indent as nat) + silent_highlight_out(text.skip(k as int + 1), indent)
        }
    }
}

/// The silent output satisfies the highlighted-block output relation,
/// with empty region sequences as witnesses.
proof fn lemma_silent_highlight_out(cap: StyleCapability, text: Seq<char>, indent: u16)
    ensures
        highlight_block_out_rel(cap, text, indent, silent_highlight_out(text, indent)),
    decreases text.len(),
{
    let none = Seq::<HighlightRegion>::empty();
    assert(regions_out(cap, none) == Seq::<char>::empty());
    assert(regions_text(none) == Seq::<char>::empty());
    if text.len() == 0 {
    } else {
        let k = first_nl(text);
        if k >= text.len() {
            assert(Seq::<char>::empty().is_prefix_of(text)) by {
                assert(text.take(0) =~= Seq::<char>::empty());
            }
            assert(silent_highlight_out(text, indent) == regions_out(cap, none));
        } else {
            lemma_silent_highlight_out(cap, text.skip(k as int + 1), indent);
            assert(Seq::<char>::empty().is_prefix_of(text.take(k as int + 1))) by {
                assert(text.take(k as int + 1).take(0) =~= Seq::<char>::empty());
            }
            assert(silent_highlight_out(text, indent) =~= regions_out(cap, none) + spaces(
                indent as nat,
            ) + silent_highlight_out(text.skip(k as int + 1), indent));
        }
    }
}

/// Text events inside a code block leave the state and data unchanged.
proof fn lemma_text_lines_run(
    lines: Seq<Seq<char>>,
    i: int,
    s: StateV,
    d: StateDataV,
    caps: TerminalCapabilities,
    size: TerminalSize,
    base: Seq<char>,
)
    requires
        0 <= i,
        s.frames.len() > 0,
        s.frames.last() is LiteralBlock || s.frames.last() is HighlightBlock,
    ensures
        run_rel(s, d, text_events(lines, i), caps, size, base, s, d),
    decreases lines.len() - i,
{
    if i >= lines.len() {
    } else {
        let e = EventV::Text(lines[i]);
        match s.frames.last() {
            NestedStateV::LiteralBlock(a) => {
                let o = literal_block_out(caps.style, a.style, lines[i], a.indent);
                assert(step_rel(s, d, e, caps, size, base, StepResultV::Stepped(s, d, o)));
                lemma_run_single(s, d, e, caps, size, base, s, d, o);
            },
            NestedStateV::HighlightBlock(ind) => {
                let o = silent_highlight_out(lines[i], ind);
                lemma_silent_highlight_out(caps.style, lines[i], ind);
                assert(step_rel(s, d, e, caps, size, base, StepResultV::Stepped(s, d, o)));
                lemma_run_single(s, d, e, caps, size, base, s, d, o);
            },
            _ => {
                assert(false);
            },
        }
        lemma_text_lines_run(lines, i + 1, s, d, caps, size, base);
        lemma_run_compose(
            s,
            d,
            seq![e],
            text_events(lines, i + 1),
            caps,
            size,
            base,
            s,
            d,
            s,
            d,
        );
    }
}

/// A well-formed inline node runs from any inline frame back to the same
/// state; only the link registry may have grown.  Inside a hyperlinked
/// span the node must not itself be a link or an image.
#[verifier::rlimit(100)]
#[verifier::spinoff_prover]
proof fn lemma_inline_run(
    n: InlineNode,
    is: InlineState,
    a: InlineAttrs,
    s: StateV,
    d: StateDataV,
    caps: TerminalCapabilities,
    size: TerminalSize,
    base: Seq<char>,
)
    requires
        wf_inline(n),
        s.frames.len() > 0,
        s.frames.last() == NestedStateV::Inline(is, a),
        is == InlineState::InlineLink ==> !(n is LinkNode) && !(n is ImageNode),
    ensures
        exists|d2: StateDataV| run_rel(s, d, inline_events(n), caps, size, base, s, d2),
    decreases n, 0int,
{
    match n {
        InlineNode::Words(t) => {
            let o = styled_seq(caps.style, a.style, t);
            assert(step_rel(s, d, EventV::Text(t), caps, size, base, StepResultV::Stepped(s, d, o)));
            lemma_run_single(s, d, EventV::Text(t), caps, size, base, s, d, o);
            assert(run_rel(s, d, inline_events(n), caps, size, base, s, d));
            assert(exists|dw: StateDataV|
                run_rel(s, d, inline_events(n), caps, size, base, s, dw));
        },
        InlineNode::CodeSpan(t) => {
            let o = styled_seq(caps.style, yellow_fg(a.style), t);
            assert(step_rel(s, d, EventV::Code(t), caps, size, base, StepResultV::Stepped(s, d, o)));
            lemma_run_single(s, d, EventV::Code(t), caps, size, base, s, d, o);
            assert(run_rel(s, d, inline_events(n), caps, size, base, s, d));
            assert(exists|dw: StateDataV|
                run_rel(s, d, inline_events(n), caps, size, base, s, dw));
        },
        InlineNode::HtmlSpan(t) => {
            let o = styled_seq(caps.style, green_fg(a.style), t);
            assert(step_rel(s, d, EventV::Html(t), caps, size, base, StepResultV::Stepped(s, d, o)));
            lemma_run_single(s, d, EventV::Html(t), caps, size, base, s, d, o);
            assert(run_rel(s, d, inline_events(n), caps, size, base, s, d));
            assert(exists|dw: StateDataV|
                run_rel(s, d, inline_events(n), caps, size, base, s, dw));
        },
        InlineNode::SoftBreak => {
            let o = seq!['\n'] + spaces(a.indent as nat);
            assert(step_rel(s, d, EventV::SoftBreak, caps, size, base, StepResultV::Stepped(s, d, o)));
            lemma_run_single(s, d, EventV::SoftBreak, caps, size, base, s, d, o);
            assert(run_rel(s, d, inline_events(n), caps, size, base, s, d));
            assert(exists|dw: StateDataV|
                run_rel(s, d, inline_events(n), caps, size, base, s, dw));
        },
        InlineNode::HardBreak => {
            let o = seq!['\n'] + spaces(a.indent as nat);
            assert(step_rel(s, d, EventV::HardBreak, caps, size, base, StepResultV::Stepped(s, d, o)));
            lemma_run_single(s, d, EventV::HardBreak, caps, size, base, s, d, o);
            assert(run_rel(s, d, inline_events(n), caps, size, base, s, d));
            assert(exists|dw: StateDataV|
                run_rel(s, d, inline_events(n), caps, size, base, s, dw));
        },
        InlineNode::Emphasis(ns) => {
            let a2 = InlineAttrs {
                style: Style { italic: !a.style.italic, ..a.style },
                indent: a.indent,
            };
            let ev_s = EventV::Start(TagV::Emphasis);
            let ev_e = EventV::End(TagV::Emphasis);
            let s1 = pushed(s, NestedStateV::Inline(InlineState::InlineText, a2));
            assert(step_rel(s, d, ev_s, caps, size, base, StepResultV::Stepped(s1, d, Seq::empty())));
            lemma_run_single(s, d, ev_s, caps, size, base, s1, d, Seq::empty());
            lemma_inlines_run(ns, 0, InlineState::InlineText, a2, s1, d, caps, size, base);
            let d1 = choose|d1: StateDataV|
                #[trigger] run_rel(s1, d, inlines_events(ns, 0), caps, size, base, s1, d1);
            lemma_run_compose(
                s, d, seq![ev_s], inlines_events(ns, 0), caps, size, base, s1, d, s1, d1,
            );
            proof_pop_to(s1, s);
            assert(step_rel(s1, d1, ev_e, caps, size, base, StepResultV::Stepped(s, d1, Seq::empty())));
            lemma_run_single(s1, d1, ev_e, caps, size, base, s, d1, Seq::empty());
            lemma_run_compose(
                s, d, seq![ev_s] + inlines_events(ns, 0), seq![ev_e], caps, size, base, s1, d1, s, d1,
            );
            assert(run_rel(s, d, inline_events(n), caps, size, base, s, d1));
            assert(exists|dw: StateDataV|
                run_rel(s, d, inline_events(n), caps, size, base, s, dw));
        },
        InlineNode::Strong(ns) => {
            let a2 = InlineAttrs { style: Style { bold: true, ..a.style }, indent: a.indent };
            let ev_s = EventV::Start(TagV::Strong);
            let ev_e = EventV::End(TagV::Strong);
            let s1 = pushed(s, NestedStateV::Inline(InlineState::InlineText, a2));
            assert(step_rel(s, d, ev_s, caps, size, base, StepResultV::Stepped(s1, d, Seq::empty())));
            lemma_run_single(s, d, ev_s, caps, size, base, s1, d, Seq::empty());
            lemma_inlines_run(ns, 0, InlineState::InlineText, a2, s1, d, caps, size, base);
            let d1 = choose|d1: StateDataV|
                #[trigger] run_rel(s1, d, inlines_events(ns, 0), caps, size, base, s1, d1);
            lemma_run_compose(
                s, d, seq![ev_s], inlines_events(ns, 0), caps, size, base, s1, d, s1, d1,
            );
            proof_pop_to(s1, s);
            assert(step_rel(s1, d1, ev_e, caps, size, base, StepResultV::Stepped(s, d1, Seq::empty())));
            lemma_run_single(s1, d1, ev_e, caps, size, base, s, d1, Seq::empty());
            lemma_run_compose(
                s, d, seq![ev_s] + inlines_events(ns, 0), seq![ev_e], caps, size, base, s1, d1, s, d1,
            );
            assert(run_rel(s, d, inline_events(n), caps, size, base, s, d1));
            assert(exists|dw: StateDataV|
                run_rel(s, d, inline_events(n), caps, size, base, s, dw));
        },
        InlineNode::Strikethrough(ns) => {
            let a2 = InlineAttrs {
                style: Style { strikethrough: true, ..a.style },
                indent: a.indent,
            };
            let ev_s = EventV::Start(TagV::Strikethrough);
            let ev_e = EventV::End(TagV::Strikethrough);
            let s1 = pushed(s, NestedStateV::Inline(InlineState::InlineText, a2));
            assert(step_rel(s, d, ev_s, caps, size, base, StepResultV::Stepped(s1, d, Seq::empty())));
            lemma_run_single(s, d, ev_s, caps, size, base, s1, d, Seq::empty());
            lemma_inlines_run(ns, 0, InlineState::InlineText, a2, s1, d, caps, size, base);
            let d1 = choose|d1: StateDataV|
                #[trigger] run_rel(s1, d, inlines_events(ns, 0), caps, size, base, s1, d1);
            lemma_run_compose(
                s, d, seq![ev_s], inlines_events(ns, 0), caps, size, base, s1, d, s1, d1,
            );
            proof_pop_to(s1, s);
            assert(step_rel(s1, d1, ev_e, caps, size, base, StepResultV::Stepped(s, d1, Seq::empty())));
            lemma_run_single(s1, d1, ev_e, caps, size, base, s, d1, Seq::empty());
            lemma_run_compose(
                s, d, seq![ev_s] + inlines_events(ns, 0), seq![ev_e], caps, size, base, s1, d1, s, d1,
            );
            assert(run_rel(s, d, inline_events(n), caps, size, base, s, d1));
            assert(exists|dw: StateDataV|
                run_rel(s, d, inline_events(n), caps, size, base, s, dw));
        },
        InlineNode::LinkNode(ty, target, title, ns) => {
            let a2 = InlineAttrs { style: blue_fg(a.style), indent: a.indent };
            let ev_s = EventV::Start(TagV::Link(ty, target, title));
            let ev_e = EventV::End(TagV::Link(ty, target, title));
            match (caps.links, resolved_reference(base, target)) {
                (LinkCapability::Osc8, Option::Some(url)) => {
                    let s1 = pushed(s, NestedStateV::Inline(InlineState::InlineLink, a2));
                    assert(step_rel(
                        s, d, ev_s, caps, size, base,
                        StepResultV::Stepped(s1, d, osc8_open_seq(url)),
                    ));
                    lemma_run_single(s, d, ev_s, caps, size, base, s1, d, osc8_open_seq(url));
                    lemma_inlines_run(ns, 0, InlineState::InlineLink, a2, s1, d, caps, size, base);
                    let d1 = choose|d1: StateDataV|
                        #[trigger] run_rel(s1, d, inlines_events(ns, 0), caps, size, base, s1, d1);
                    lemma_run_compose(
                        s, d, seq![ev_s], inlines_events(ns, 0), caps, size, base, s1, d, s1, d1,
                    );
                    proof_pop_to(s1, s);
                    assert(step_rel(
                        s1, d1, ev_e, caps, size, base,
                        StepResultV::Stepped(s, d1, osc8_close_seq()),
                    ));
                    lemma_run_single(s1, d1, ev_e, caps, size, base, s, d1, osc8_close_seq());
                    lemma_run_compose(
                        s, d, seq![ev_s] + inlines_events(ns, 0), seq![ev_e], caps, size, base,
                        s1, d1, s, d1,
                    );
                    assert(run_rel(s, d, inline_events(n), caps, size, base, s, d1));
                    assert(exists|dw: StateDataV|
                        run_rel(s, d, inline_events(n), caps, size, base, s, dw));
                },
                _ => {
                    let s1 = pushed(s, NestedStateV::Inline(InlineState::InlineText, a2));
                    assert(step_rel(
                        s, d, ev_s, caps, size, base, StepResultV::Stepped(s1, d, Seq::empty()),
                    ));
                    lemma_run_single(s, d, ev_s, caps, size, base, s1, d, Seq::empty());
                    lemma_inlines_run(ns, 0, InlineState::InlineText, a2, s1, d, caps, size, base);
                    let d1 = choose|d1: StateDataV|
                        #[trigger] run_rel(s1, d, inlines_events(ns, 0), caps, size, base, s1, d1);
                    lemma_run_compose(
                        s, d, seq![ev_s], inlines_events(ns, 0), caps, size, base, s1, d, s1, d1,
                    );
                    proof_pop_to(s1, s);
                    if ty == LinkType::Autolink || ty == LinkType::Email {
                        assert(step_rel(
                            s1, d1, ev_e, caps, size, base,
                            StepResultV::Stepped(s, d1, Seq::empty()),
                        ));
                        lemma_run_single(s1, d1, ev_e, caps, size, base, s, d1, Seq::empty());
                        lemma_run_compose(
                            s, d, seq![ev_s] + inlines_events(ns, 0), seq![ev_e], caps, size,
                            base, s1, d1, s, d1,
                        );
                        assert(run_rel(s, d, inline_events(n), caps, size, base, s, d1));
                        assert(exists|dw: StateDataV|
                            run_rel(s, d, inline_events(n), caps, size, base, s, dw));
                    } else {
                        let d2 = StateDataV {
                            links: d1.links.push(
                                LinkV { index: d1.next_index, target, title },
                            ),
                            next_index: (d1.next_index + 1) as u64,
                        };
                        let o = styled_seq(caps.style, blue_fg(a2.style), reference_seq(d1.next_index));
                        assert(step_rel(
                            s1, d1, ev_e, caps, size, base, StepResultV::Stepped(s, d2, o),
                        ));
                        lemma_run_single(s1, d1, ev_e, caps, size, base, s, d2, o);
                        lemma_run_compose(
                            s, d, seq![ev_s] + inlines_events(ns, 0), seq![ev_e], caps, size,
                            base, s1, d1, s, d2,
                        );
                        assert(run_rel(s, d, inline_events(n), caps, size, base, s, d2));
                        assert(exists|dw: StateDataV|
                            run_rel(s, d, inline_events(n), caps, size, base, s, dw));
                    }
                },
            }
        },
        InlineNode::ImageNode(ty, target, title, ns) => {
            let ev_s = EventV::Start(TagV::Image(ty, target, title));
            let ev_e = EventV::End(TagV::Image(ty, target, title));
            let s1 = pushed(s, NestedStateV::Inline(InlineState::InlineText, a));
            assert(step_rel(s, d, ev_s, caps, size, base, StepResultV::Stepped(s1, d, Seq::empty())));
            lemma_run_single(s, d, ev_s, caps, size, base, s1, d, Seq::empty());
            lemma_inlines_run(ns, 0, InlineState::InlineText, a, s1, d, caps, size, base);
            let d1 = choose|d1: StateDataV|
                #[trigger] run_rel(s1, d, inlines_events(ns, 0), caps, size, base, s1, d1);
            lemma_run_compose(
                s, d, seq![ev_s], inlines_events(ns, 0), caps, size, base, s1, d, s1, d1,
            );
            proof_pop_to(s1, s);
            let o = styled_seq(caps.style, blue_fg(a.style), image_annotation_seq(target));
            assert(step_rel(s1, d1, ev_e, caps, size, base, StepResultV::Stepped(s, d1, o)));
            lemma_run_single(s1, d1, ev_e, caps, size, base, s, d1, o);
            lemma_run_compose(
                s, d, seq![ev_s] + inlines_events(ns, 0), seq![ev_e], caps, size, base, s1, d1, s, d1,
            );
            assert(run_rel(s, d, inline_events(n), caps, size, base, s, d1));
            assert(exists|dw: StateDataV|
                run_rel(s, d, inline_events(n), caps, size, base, s, dw));
        },
    }
}

/// Popping the frame just pushed restores the original state.
proof fn proof_pop_to(s1: StateV, s: StateV)
    requires
        s1 == pushed(s, s1.frames.last()),
    ensures
        popped(s1) == s,
{
    assert(popped(s1).frames =~= s.frames);
}

/// A well-formed sequence of inline nodes runs from any inline frame back
/// to the same state.
proof fn lemma_inlines_run(
    ns: Seq<InlineNode>,
    i: int,
    is: InlineState,
    a: InlineAttrs,
    s: StateV,
    d: StateDataV,
    caps: TerminalCapabilities,
    size: TerminalSize,
    base: Seq<char>,
)
    requires
        wf_inlines(ns),
        0 <= i,
        s.frames.len() > 0,
        s.frames.last() == NestedStateV::Inline(is, a),
        is == InlineState::InlineLink ==> plain_inlines(ns),
    ensures
        exists|d2: StateDataV| run_rel(s, d, inlines_events(ns, i), caps, size, base, s, d2),
    decreases ns, ns.len() - i,
{
    if i >= ns.len() {
        assert(run_rel(s, d, inlines_events(ns, i), caps, size, base, s, d));
    } else {
        assert(wf_inline(ns[i]));
        lemma_inline_run(ns[i], is, a, s, d, caps, size, base);
        let d1 = choose|d1: StateDataV|
            #[trigger] run_rel(s, d, inline_events(ns[i]), caps, size, base, s, d1);
        lemma_inlines_run(ns, i + 1, is, a, s, d1, caps, size, base);
        let d2 = choose|d2: StateDataV|
            #[trigger] run_rel(s, d1, inlines_events(ns, i + 1), caps, size, base, s, d2);
        lemma_run_compose(
            s, d, inline_events(ns[i]), inlines_events(ns, i + 1), caps, size, base, s, d1, s, d2,
        );
        assert(run_rel(s, d, inlines_events(ns, i), caps, size, base, s, d2));
    }
}

/// Swapping the innermost frame twice keeps only the last swap.
proof fn proof_swap_swap(s: StateV, x: NestedStateV, y: NestedStateV)
    requires
        s.frames.len() > 0,
    ensures
        swapped(swapped(s, x), y) == swapped(s, y),
{
    assert(swapped(swapped(s, x), y).frames =~= swapped(s, y).frames);
}

/// Swapping the innermost frame for itself changes nothing.
proof fn proof_swap_self(s: StateV)
    requires
        s.frames.len() > 0,
    ensures
        swapped(s, s.frames.last()) == s,
{
    assert(swapped(s, s.frames.last()).frames =~= s.frames);
}

/// Popping from a state whose innermost frame sits on a swapped base
/// returns to the swapped base.
proof fn proof_pop_to_swapped(s1: StateV, s: StateV, x: NestedStateV)
    requires
        s.frames.len() > 0,
        s1 == pushed(swapped(s, x), s1.frames.last()),
    ensures
        popped(s1) == swapped(s, x),
{
    assert(popped(s1).frames =~= swapped(s, x).frames);
}

/// A well-formed block that may lead a list item runs from the item's
/// inline frame to a styled block frame with a margin pending, replacing
/// the inline frame.
#[verifier::rlimit(100)]
#[verifier::spinoff_prover]
proof fn lemma_first_item_block(
    b: BlockNode,
    a: InlineAttrs,
    s: StateV,
    d: StateDataV,
    caps: TerminalCapabilities,
    size: TerminalSize,
    base: Seq<char>,
)
    requires
        wf_block(b),
        item_leading_block(b),
        s.frames.len() > 0,
        s.frames.last() == NestedStateV::Inline(InlineState::ListItemText, a),
    ensures
        exists|d2: StateDataV|
            run_rel(
                s,
                d,
                block_events(b),
                caps,
                size,
                base,
                swapped(
                    s,
                    NestedStateV::StyledBlock(
                        StyledBlockAttrs {
                            margin_before: MarginControl::Margin,
                            indent: a.indent,
                            style: a.style,
                        },
                    ),
                ),
                d2,
            ),
    decreases b, 0int,
{
    let sbf = NestedStateV::StyledBlock(
        StyledBlockAttrs {
            margin_before: MarginControl::Margin,
            indent: a.indent,
            style: a.style,
        },
    );
    let sb = swapped(s, sbf);
    match b {
        BlockNode::Paragraph(ns) => {
            let ev_s = EventV::Start(TagV::Paragraph);
            let ev_e = EventV::End(TagV::Paragraph);
            let s1 = pushed(sb, NestedStateV::Inline(InlineState::InlineText, a));
            assert(step_rel(s, d, ev_s, caps, size, base, StepResultV::Stepped(s1, d, Seq::empty())));
            lemma_run_single(s, d, ev_s, caps, size, base, s1, d, Seq::empty());
            lemma_inlines_run(ns, 0, InlineState::InlineText, a, s1, d, caps, size, base);
            let d1 = choose|d1: StateDataV|
                #[trigger] run_rel(s1, d, inlines_events(ns, 0), caps, size, base, s1, d1);
            lemma_run_compose(
                s, d, seq![ev_s], inlines_events(ns, 0), caps, size, base, s1, d, s1, d1,
            );
            proof_pop_to_swapped(s1, s, sbf);
            assert(step_rel(s1, d1, ev_e, caps, size, base, StepResultV::Stepped(sb, d1, seq!['\n'])));
            lemma_run_single(s1, d1, ev_e, caps, size, base, sb, d1, seq!['\n']);
            lemma_run_compose(
                s, d, seq![ev_s] + inlines_events(ns, 0), seq![ev_e], caps, size, base, s1, d1, sb, d1,
            );
            assert(run_rel(s, d, block_events(b), caps, size, base, sb, d1));
            assert(exists|dw: StateDataV| run_rel(s, d, block_events(b), caps, size, base, sb, dw));
        },
        BlockNode::ListBlock(start, items) => {
            let ev_s = EventV::Start(TagV::List(start));
            let ev_e = EventV::End(TagV::List(start));
            let lb = ListBlockAttrs { item_type: item_type_of(start), indent: a.indent, style: a.style };
            let s1 = pushed(sb, NestedStateV::ListBlock(lb));
            assert(step_rel(s, d, ev_s, caps, size, base, StepResultV::Stepped(s1, d, seq!['\n'])));
            lemma_run_single(s, d, ev_s, caps, size, base, s1, d, seq!['\n']);
            lemma_items_run(items, 0, lb, s1, d, caps, size, base);
            let (d1, t1) = choose|d1: StateDataV, t1: ListItemType|
                #[trigger] run_rel(
                    s1, d, items_events(items, 0), caps, size, base,
                    swapped(
                        s1,
                        NestedStateV::ListBlock(
                            ListBlockAttrs { item_type: t1, indent: lb.indent, style: lb.style },
                        ),
                    ),
                    d1,
                );
            let se = swapped(
                s1,
                NestedStateV::ListBlock(
                    ListBlockAttrs { item_type: t1, indent: lb.indent, style: lb.style },
                ),
            );
            lemma_run_compose(
                s, d, seq![ev_s], items_events(items, 0), caps, size, base, s1, d, se, d1,
            );
            assert(popped(se).frames =~= sb.frames);
            assert(popped(se) == sb);
            assert(se.frames.len() == s.frames.len() + 1);
            assert(se.frames.len() != 1);
            assert(step_rel(se, d1, ev_e, caps, size, base, StepResultV::Stepped(sb, d1, Seq::empty())));
            lemma_run_single(se, d1, ev_e, caps, size, base, sb, d1, Seq::empty());
            lemma_run_compose(
                s, d, seq![ev_s] + items_events(items, 0), seq![ev_e], caps, size, base, se, d1, sb, d1,
            );
            assert(run_rel(s, d, block_events(b), caps, size, base, sb, d1));
            assert(exists|dw: StateDataV| run_rel(s, d, block_events(b), caps, size, base, sb, dw));
        },
        BlockNode::CodeBlock(kind, lines) => {
            let ev_s = EventV::Start(TagV::CodeBlock(kind));
            let ev_e = EventV::End(TagV::CodeBlock(kind));
            let lit = NestedStateV::LiteralBlock(
                LiteralBlockAttrs { indent: a.indent, style: Style { fg: Some(Colour::Yellow), ..a.style } },
            );
            let s1 = pushed(sb, lit);
            let o1 = seq!['\n'] + code_block_start_out(caps.style, size, a.indent);
            assert(code_block_started(caps.style, kind, sb, a.indent, a.style, s1));
            assert(step_rel(s, d, ev_s, caps, size, base, StepResultV::Stepped(s1, d, o1)));
            lemma_run_single(s, d, ev_s, caps, size, base, s1, d, o1);
            lemma_text_lines_run(lines, 0, s1, d, caps, size, base);
            lemma_run_compose(
                s, d, seq![ev_s], text_events(lines, 0), caps, size, base, s1, d, s1, d,
            );
            proof_pop_to_swapped(s1, s, sbf);
            assert(step_rel(
                s1, d, ev_e, caps, size, base,
                StepResultV::Stepped(sb, d, border_seq(caps.style, size)),
            ));
            lemma_run_single(s1, d, ev_e, caps, size, base, sb, d, border_seq(caps.style, size));
            lemma_run_compose(
                s, d, seq![ev_s] + text_events(lines, 0), seq![ev_e], caps, size, base, s1, d, sb, d,
            );
            assert(run_rel(s, d, block_events(b), caps, size, base, sb, d));
            assert(exists|dw: StateDataV| run_rel(s, d, block_events(b), caps, size, base, sb, dw));
        },
        BlockNode::RuleBlock => {
            let o = seq!['\n'] + spaces(a.indent as nat) + rule_seq(
                caps.style,
                rule_width(size.width, a.indent),
            ) + seq!['\n'];
            assert(step_rel(s, d, EventV::Rule, caps, size, base, StepResultV::Stepped(sb, d, o)));
            lemma_run_single(s, d, EventV::Rule, caps, size, base, sb, d, o);
            assert(run_rel(s, d, block_events(b), caps, size, base, sb, d));
            assert(exists|dw: StateDataV| run_rel(s, d, block_events(b), caps, size, base, sb, dw));
        },
        _ => {
            assert(false);
        },
    }
}

/// A well-formed list item runs from the list frame back to the list
/// frame with the item counter moved on.
#[verifier::rlimit(100)]
#[verifier::spinoff_prover]
proof fn lemma_item_run(
    it: ItemNode,
    a: ListBlockAttrs,
    s: StateV,
    d: StateDataV,
    caps: TerminalCapabilities,
    size: TerminalSize,
    base: Seq<char>,
)
    requires
        wf_item(it),
        s.frames.len() > 0,
        s.frames.last() == NestedStateV::ListBlock(a),
    ensures
        exists|d2: StateDataV|
            run_rel(
                s,
                d,
                item_events(it),
                caps,
                size,
                base,
                swapped(
                    s,
                    NestedStateV::ListBlock(
                        ListBlockAttrs {
                            item_type: next_item_type(a.item_type),
                            indent: a.indent,
                            style: a.style,
                        },
                    ),
                ),
                d2,
            ),
    decreases it, 0int,
{
    let lbf = NestedStateV::ListBlock(
        ListBlockAttrs { item_type: next_item_type(a.item_type), indent: a.indent, style: a.style },
    );
    let sp = swapped(s, lbf);
    let ia = InlineAttrs { style: a.style, indent: ind_plus(a.indent, item_indent(a.item_type)) };
    let s1 = pushed(sp, NestedStateV::Inline(InlineState::ListItemText, ia));
    let ev_s = EventV::Start(TagV::Item);
    let ev_e = EventV::End(TagV::Item);
    let o1 = spaces(a.indent as nat) + item_marker(a.item_type);
    assert(step_rel(s, d, ev_s, caps, size, base, StepResultV::Stepped(s1, d, o1)));
    lemma_run_single(s, d, ev_s, caps, size, base, s1, d, o1);
    // The optional task marker.
    let ev_m: Seq<EventV> = match it.marker {
        Some(checked) => seq![EventV::TaskListMarker(checked)],
        None => Seq::empty(),
    };
    match it.marker {
        Some(checked) => {
            let om = styled_seq(caps.style, ia.style, task_marker(checked));
            assert(step_rel(
                s1, d, EventV::TaskListMarker(checked), caps, size, base,
                StepResultV::Stepped(s1, d, om),
            ));
            lemma_run_single(
                s1, d, EventV::TaskListMarker(checked), caps, size, base, s1, d, om,
            );
        },
        None => {
            assert(run_rel(s1, d, ev_m, caps, size, base, s1, d));
        },
    }
    lemma_run_compose(s, d, seq![ev_s], ev_m, caps, size, base, s1, d, s1, d);
    // The leading inline text.
    lemma_inlines_run(it.lead, 0, InlineState::ListItemText, ia, s1, d, caps, size, base);
    let d1 = choose|d1: StateDataV|
        #[trigger] run_rel(s1, d, inlines_events(it.lead, 0), caps, size, base, s1, d1);
    lemma_run_compose(
        s, d, seq![ev_s] + ev_m, inlines_events(it.lead, 0), caps, size, base, s1, d, s1, d1,
    );
    if it.blocks.len() == 0 {
        // No block children: the item closes from its inline text.
        assert(blocks_events(it.blocks, 0) =~= Seq::<EventV>::empty());
        assert(run_rel(s1, d1, blocks_events(it.blocks, 0), caps, size, base, s1, d1));
        lemma_run_compose(
            s, d, seq![ev_s] + ev_m + inlines_events(it.lead, 0), blocks_events(it.blocks, 0),
            caps, size, base, s1, d1, s1, d1,
        );
        proof_pop_to_swapped(s1, s, lbf);
        assert(step_rel(s1, d1, ev_e, caps, size, base, StepResultV::Stepped(sp, d1, seq!['\n'])));
        lemma_run_single(s1, d1, ev_e, caps, size, base, sp, d1, seq!['\n']);
        lemma_run_compose(
            s, d, seq![ev_s] + ev_m + inlines_events(it.lead, 0) + blocks_events(it.blocks, 0),
            seq![ev_e], caps, size, base, s1, d1, sp, d1,
        );
        assert(run_rel(s, d, item_events(it), caps, size, base, sp, d1));
        assert(exists|dw: StateDataV| run_rel(s, d, item_events(it), caps, size, base, sp, dw));
    } else {
        // Block children: the first block replaces the inline frame, the
        // rest run inside the styled block it leaves behind.
        let sba = StyledBlockAttrs {
            margin_before: MarginControl::Margin,
            indent: ia.indent,
            style: ia.style,
        };
        assert(wf_block(it.blocks[0]));
        lemma_first_item_block(it.blocks[0], ia, s1, d1, caps, size, base);
        let sb = swapped(s1, NestedStateV::StyledBlock(sba));
        let d2 = choose|d2: StateDataV|
            #[trigger] run_rel(s1, d1, block_events(it.blocks[0]), caps, size, base, sb, d2);
        lemma_blocks_run_sb(it.blocks, 1, sba, sb, d2, caps, size, base);
        let (d3, m3) = choose|d3: StateDataV, m3: MarginControl|
            #[trigger] run_rel(
                sb, d2, blocks_events(it.blocks, 1), caps, size, base,
                swapped(
                    sb,
                    NestedStateV::StyledBlock(
                        StyledBlockAttrs { margin_before: m3, indent: sba.indent, style: sba.style },
                    ),
                ),
                d3,
            );
        let se = swapped(
            sb,
            NestedStateV::StyledBlock(
                StyledBlockAttrs { margin_before: m3, indent: sba.indent, style: sba.style },
            ),
        );
        lemma_run_compose(
            s1, d1, block_events(it.blocks[0]), blocks_events(it.blocks, 1), caps, size, base,
            sb, d2, se, d3,
        );
        assert(blocks_events(it.blocks, 0) == block_events(it.blocks[0]) + blocks_events(
            it.blocks, 1,
        ));
        lemma_run_compose(
            s, d, seq![ev_s] + ev_m + inlines_events(it.lead, 0), blocks_events(it.blocks, 0),
            caps, size, base, s1, d1, se, d3,
        );
        assert(popped(se).frames =~= sp.frames);
        assert(popped(se) == sp);
        assert(step_rel(se, d3, ev_e, caps, size, base, StepResultV::Stepped(sp, d3, Seq::empty())));
        lemma_run_single(se, d3, ev_e, caps, size, base, sp, d3, Seq::empty());
        lemma_run_compose(
            s, d, seq![ev_s] + ev_m + inlines_events(it.lead, 0) + blocks_events(it.blocks, 0),
            seq![ev_e], caps, size, base, se, d3, sp, d3,
        );
        assert(run_rel(s, d, item_events(it), caps, size, base, sp, d3));
        assert(exists|dw: StateDataV| run_rel(s, d, item_events(it), caps, size, base, sp, dw));
    }
}

/// A well-formed tail of list items runs from the list frame back to the
/// list frame, with the item counter somewhere further on.
proof fn lemma_items_run(
    its: Seq<ItemNode>,
    i: int,
    a: ListBlockAttrs,
    s: StateV,
    d: StateDataV,
    caps: TerminalCapabilities,
    size: TerminalSize,
    base: Seq<char>,
)
    requires
        wf_items(its),
        0 <= i,
        s.frames.len() > 0,
        s.frames.last() == NestedStateV::ListBlock(a),
    ensures
        exists|d2: StateDataV, t2: ListItemType|
            run_rel(
                s,
                d,
                items_events(its, i),
                caps,
                size,
                base,
                swapped(
                    s,
                    NestedStateV::ListBlock(
                        ListBlockAttrs { item_type: t2, indent: a.indent, style: a.style },
                    ),
                ),
                d2,
            ),
    decreases its, its.len() - i,
{
    if i >= its.len() {
        proof_swap_self(s);
        assert(s.frames.last() == NestedStateV::ListBlock(
            ListBlockAttrs { item_type: a.item_type, indent: a.indent, style: a.style },
        ));
        assert(run_rel(
            s, d, items_events(its, i), caps, size, base,
            swapped(
                s,
                NestedStateV::ListBlock(
                    ListBlockAttrs { item_type: a.item_type, indent: a.indent, style: a.style },
                ),
            ),
            d,
        ));
    } else {
        assert(wf_item(its[i]));
        lemma_item_run(its[i], a, s, d, caps, size, base);
        let lb1 = ListBlockAttrs {
            item_type: next_item_type(a.item_type),
            indent: a.indent,
            style: a.style,
        };
        let s1 = swapped(s, NestedStateV::ListBlock(lb1));
        let d1 = choose|d1: StateDataV|
            #[trigger] run_rel(s, d, item_events(its[i]), caps, size, base, s1, d1);
        lemma_items_run(its, i + 1, lb1, s1, d1, caps, size, base);
        let (d2, t2) = choose|d2: StateDataV, t2: ListItemType|
            #[trigger] run_rel(
                s1, d1, items_events(its, i + 1), caps, size, base,
                swapped(
                    s1,
                    NestedStateV::ListBlock(
                        ListBlockAttrs { item_type: t2, indent: lb1.indent, style: lb1.style },
                    ),
                ),
                d2,
            );
        proof_swap_swap(
            s,
            NestedStateV::ListBlock(lb1),
            NestedStateV::ListBlock(
                ListBlockAttrs { item_type: t2, indent: a.indent, style: a.style },
            ),
        );
        lemma_run_compose(
            s, d, item_events(its[i]), items_events(its, i + 1), caps, size, base, s1, d1,
            swapped(
                s,
                NestedStateV::ListBlock(
                    ListBlockAttrs { item_type: t2, indent: a.indent, style: a.style },
                ),
            ),
            d2,
        );
        assert(run_rel(
            s, d, items_events(its, i), caps, size, base,
            swapped(
                s,
                NestedStateV::ListBlock(
                    ListBlockAttrs { item_type: t2, indent: a.indent, style: a.style },
                ),
            ),
            d2,
        ));
    }
}

/// A well-formed block runs from a styled-block frame back to that frame
/// with the margin the block leaves behind.
#[verifier::rlimit(100)]
#[verifier::spinoff_prover]
proof fn lemma_block_run_sb(
    b: BlockNode,
    a: StyledBlockAttrs,
    s: StateV,
    d: StateDataV,
    caps: TerminalCapabilities,
    size: TerminalSize,
    base: Seq<char>,
)
    requires
        wf_block(b),
        s.frames.len() > 0,
        s.frames.last() == NestedStateV::StyledBlock(a),
    ensures
        exists|d2: StateDataV|
            run_rel(
                s,
                d,
                block_events(b),
                caps,
                size,
                base,
                swapped(
                    s,
                    NestedStateV::StyledBlock(
                        StyledBlockAttrs {
                            margin_before: margin_after(b),
                            indent: a.indent,
                            style: a.style,
                        },
                    ),
                ),
                d2,
            ),
    decreases b, 0int,
{
    let sbf = NestedStateV::StyledBlock(
        StyledBlockAttrs { margin_before: MarginControl::Margin, indent: a.indent, style: a.style },
    );
    let sb = swapped(s, sbf);
    match b {
        BlockNode::Paragraph(ns) => {
            let ev_s = EventV::Start(TagV::Paragraph);
            let ev_e = EventV::End(TagV::Paragraph);
            let ia = InlineAttrs { style: a.style, indent: a.indent };
            let s1 = pushed(sb, NestedStateV::Inline(InlineState::InlineText, ia));
            let o1 = blank(a.margin_before) + spaces(a.indent as nat);
            assert(step_rel(s, d, ev_s, caps, size, base, StepResultV::Stepped(s1, d, o1)));
            lemma_run_single(s, d, ev_s, caps, size, base, s1, d, o1);
            lemma_inlines_run(ns, 0, InlineState::InlineText, ia, s1, d, caps, size, base);
            let d1 = choose|d1: StateDataV|
                #[trigger] run_rel(s1, d, inlines_events(ns, 0), caps, size, base, s1, d1);
            lemma_run_compose(
                s, d, seq![ev_s], inlines_events(ns, 0), caps, size, base, s1, d, s1, d1,
            );
            proof_pop_to_swapped(s1, s, sbf);
            assert(step_rel(s1, d1, ev_e, caps, size, base, StepResultV::Stepped(sb, d1, seq!['\n'])));
            lemma_run_single(s1, d1, ev_e, caps, size, base, sb, d1, seq!['\n']);
            lemma_run_compose(
                s, d, seq![ev_s] + inlines_events(ns, 0), seq![ev_e], caps, size, base, s1, d1, sb, d1,
            );
            assert(run_rel(s, d, block_events(b), caps, size, base, sb, d1));
            assert(exists|dw: StateDataV| run_rel(s, d, block_events(b), caps, size, base, sb, dw));
        },
        BlockNode::Heading(level, ns) => {
            let ev_s = EventV::Start(TagV::Heading(level));
            let ev_e = EventV::End(TagV::Heading(level));
            let hs = Style { bold: true, ..a.style };
            let ia = InlineAttrs { style: hs, indent: a.indent };
            let s1 = pushed(sb, NestedStateV::Inline(InlineState::InlineText, ia));
            let o1 = blank(a.margin_before) + spaces(a.indent as nat) + styled_seq(
                caps.style, hs, heading_prefix(level),
            );
            assert(step_rel(s, d, ev_s, caps, size, base, StepResultV::Stepped(s1, d, o1)));
            lemma_run_single(s, d, ev_s, caps, size, base, s1, d, o1);
            lemma_inlines_run(ns, 0, InlineState::InlineText, ia, s1, d, caps, size, base);
            let d1 = choose|d1: StateDataV|
                #[trigger] run_rel(s1, d, inlines_events(ns, 0), caps, size, base, s1, d1);
            lemma_run_compose(
                s, d, seq![ev_s], inlines_events(ns, 0), caps, size, base, s1, d, s1, d1,
            );
            proof_pop_to_swapped(s1, s, sbf);
            assert(step_rel(s1, d1, ev_e, caps, size, base, StepResultV::Stepped(sb, d1, seq!['\n'])));
            lemma_run_single(s1, d1, ev_e, caps, size, base, sb, d1, seq!['\n']);
            lemma_run_compose(
                s, d, seq![ev_s] + inlines_events(ns, 0), seq![ev_e], caps, size, base, s1, d1, sb, d1,
            );
            assert(run_rel(s, d, block_events(b), caps, size, base, sb, d1));
            assert(exists|dw: StateDataV| run_rel(s, d, block_events(b), caps, size, base, sb, dw));
        },
        BlockNode::Quote(bs) => {
            let ev_s = EventV::Start(TagV::BlockQuote);
            let ev_e = EventV::End(TagV::BlockQuote);
            let qa = StyledBlockAttrs {
                margin_before: MarginControl::NoMargin,
                indent: ind_plus(a.indent, 4),
                style: quote_style(a.style),
            };
            let s1 = pushed(sb, NestedStateV::StyledBlock(qa));
            assert(step_rel(
                s, d, ev_s, caps, size, base,
                StepResultV::Stepped(s1, d, blank(a.margin_before)),
            ));
            lemma_run_single(s, d, ev_s, caps, size, base, s1, d, blank(a.margin_before));
            lemma_blocks_run_sb(bs, 0, qa, s1, d, caps, size, base);
            let (d1, m1) = choose|d1: StateDataV, m1: MarginControl|
                #[trigger] run_rel(
                    s1, d, blocks_events(bs, 0), caps, size, base,
                    swapped(
                        s1,
                        NestedStateV::StyledBlock(
                            StyledBlockAttrs { margin_before: m1, indent: qa.indent, style: qa.style },
                        ),
                    ),
                    d1,
                );
            let se = swapped(
                s1,
                NestedStateV::StyledBlock(
                    StyledBlockAttrs { margin_before: m1, indent: qa.indent, style: qa.style },
                ),
            );
            lemma_run_compose(
                s, d, seq![ev_s], blocks_events(bs, 0), caps, size, base, s1, d, se, d1,
            );
            assert(popped(se).frames =~= sb.frames);
            assert(popped(se) == sb);
            assert(step_rel(se, d1, ev_e, caps, size, base, StepResultV::Stepped(sb, d1, Seq::empty())));
            lemma_run_single(se, d1, ev_e, caps, size, base, sb, d1, Seq::empty());
            lemma_run_compose(
                s, d, seq![ev_s] + blocks_events(bs, 0), seq![ev_e], caps, size, base, se, d1, sb, d1,
            );
            assert(run_rel(s, d, block_events(b), caps, size, base, sb, d1));
            assert(exists|dw: StateDataV| run_rel(s, d, block_events(b), caps, size, base, sb, dw));
        },
        BlockNode::CodeBlock(kind, lines) => {
            let ev_s = EventV::Start(TagV::CodeBlock(kind));
            let ev_e = EventV::End(TagV::CodeBlock(kind));
            let lit = NestedStateV::LiteralBlock(
                LiteralBlockAttrs { indent: a.indent, style: Style { fg: Some(Colour::Yellow), ..a.style } },
            );
            let s1 = pushed(sb, lit);
            let o1 = blank(a.margin_before) + code_block_start_out(caps.style, size, a.indent);
            assert(code_block_started(caps.style, kind, sb, a.indent, a.style, s1));
            assert(step_rel(s, d, ev_s, caps, size, base, StepResultV::Stepped(s1, d, o1)));
            lemma_run_single(s, d, ev_s, caps, size, base, s1, d, o1);
            lemma_text_lines_run(lines, 0, s1, d, caps, size, base);
            lemma_run_compose(
                s, d, seq![ev_s], text_events(lines, 0), caps, size, base, s1, d, s1, d,
            );
            proof_pop_to_swapped(s1, s, sbf);
            assert(step_rel(
                s1, d, ev_e, caps, size, base,
                StepResultV::Stepped(sb, d, border_seq(caps.style, size)),
            ));
            lemma_run_single(s1, d, ev_e, caps, size, base, sb, d, border_seq(caps.style, size));
            lemma_run_compose(
                s, d, seq![ev_s] + text_events(lines, 0), seq![ev_e], caps, size, base, s1, d, sb, d,
            );
            assert(run_rel(s, d, block_events(b), caps, size, base, sb, d));
            assert(exists|dw: StateDataV| run_rel(s, d, block_events(b), caps, size, base, sb, dw));
        },
        BlockNode::ListBlock(start, items) => {
            let ev_s = EventV::Start(TagV::List(start));
            let ev_e = EventV::End(TagV::List(start));
            let lb = ListBlockAttrs { item_type: item_type_of(start), indent: a.indent, style: a.style };
            let s1 = pushed(sb, NestedStateV::ListBlock(lb));
            assert(step_rel(s, d, ev_s, caps, size, base, StepResultV::Stepped(s1, d, seq!['\n'])));
            lemma_run_single(s, d, ev_s, caps, size, base, s1, d, seq!['\n']);
            lemma_items_run(items, 0, lb, s1, d, caps, size, base);
            let (d1, t1) = choose|d1: StateDataV, t1: ListItemType|
                #[trigger] run_rel(
                    s1, d, items_events(items, 0), caps, size, base,
                    swapped(
                        s1,
                        NestedStateV::ListBlock(
                            ListBlockAttrs { item_type: t1, indent: lb.indent, style: lb.style },
                        ),
                    ),
                    d1,
                );
            let se = swapped(
                s1,
                NestedStateV::ListBlock(
                    ListBlockAttrs { item_type: t1, indent: lb.indent, style: lb.style },
                ),
            );
            lemma_run_compose(
                s, d, seq![ev_s], items_events(items, 0), caps, size, base, s1, d, se, d1,
            );
            assert(popped(se).frames =~= sb.frames);
            assert(popped(se) == sb);
            assert(se.frames.len() == s.frames.len() + 1);
            assert(se.frames.len() != 1);
            assert(step_rel(se, d1, ev_e, caps, size, base, StepResultV::Stepped(sb, d1, Seq::empty())));
            lemma_run_single(se, d1, ev_e, caps, size, base, sb, d1, Seq::empty());
            lemma_run_compose(
                s, d, seq![ev_s] + items_events(items, 0), seq![ev_e], caps, size, base, se, d1, sb, d1,
            );
            assert(run_rel(s, d, block_events(b), caps, size, base, sb, d1));
            assert(exists|dw: StateDataV| run_rel(s, d, block_events(b), caps, size, base, sb, dw));
        },
        BlockNode::RuleBlock => {
            let o = blank(a.margin_before) + spaces(a.indent as nat) + rule_seq(
                caps.style, rule_width(size.width, a.indent),
            ) + seq!['\n'];
            assert(step_rel(s, d, EventV::Rule, caps, size, base, StepResultV::Stepped(sb, d, o)));
            lemma_run_single(s, d, EventV::Rule, caps, size, base, sb, d, o);
            assert(run_rel(s, d, block_events(b), caps, size, base, sb, d));
            assert(exists|dw: StateDataV| run_rel(s, d, block_events(b), caps, size, base, sb, dw));
        },
        BlockNode::HtmlBlock(h) => {
            let hf = NestedStateV::StyledBlock(
                StyledBlockAttrs {
                    margin_before: MarginControl::NoMarginForHTMLOnly,
                    indent: a.indent,
                    style: a.style,
                },
            );
            let sh = swapped(s, hf);
            let o = blank_html(a.margin_before) + spaces(a.indent as nat) + styled_seq(
                caps.style, green_fg(a.style), h,
            );
            assert(step_rel(s, d, EventV::Html(h), caps, size, base, StepResultV::Stepped(sh, d, o)));
            lemma_run_single(s, d, EventV::Html(h), caps, size, base, sh, d, o);
            assert(run_rel(s, d, block_events(b), caps, size, base, sh, d));
            assert(exists|dw: StateDataV| run_rel(s, d, block_events(b), caps, size, base, sh, dw));
        },
    }
}

/// A well-formed tail of blocks runs from a styled-block frame back to
/// that frame with some margin pending.
proof fn lemma_blocks_run_sb(
    bs: Seq<BlockNode>,
    i: int,
    a: StyledBlockAttrs,
    s: StateV,
    d: StateDataV,
    caps: TerminalCapabilities,
    size: TerminalSize,
    base: Seq<char>,
)
    requires
        wf_blocks(bs),
        0 <= i,
        s.frames.len() > 0,
        s.frames.last() == NestedStateV::StyledBlock(a),
    ensures
        exists|d2: StateDataV, m2: MarginControl|
            run_rel(
                s,
                d,
                blocks_events(bs, i),
                caps,
                size,
                base,
                swapped(
                    s,
                    NestedStateV::StyledBlock(
                        StyledBlockAttrs { margin_before: m2, indent: a.indent, style: a.style },
                    ),
                ),
                d2,
            ),
    decreases bs, bs.len() - i,
{
    if i >= bs.len() {
        proof_swap_self(s);
        assert(s.frames.last() == NestedStateV::StyledBlock(
            StyledBlockAttrs { margin_before: a.margin_before, indent: a.indent, style: a.style },
        ));
        assert(run_rel(
            s, d, blocks_events(bs, i), caps, size, base,
            swapped(
                s,
                NestedStateV::StyledBlock(
                    StyledBlockAttrs {
                        margin_before: a.margin_before,
                        indent: a.indent,
                        style: a.style,
                    },
                ),
            ),
            d,
        ));
    } else {
        assert(wf_block(bs[i]));
        lemma_block_run_sb(bs[i], a, s, d, caps, size, base);
        let a1 = StyledBlockAttrs {
            margin_before: margin_after(bs[i]),
            indent: a.indent,
            style: a.style,
        };
        let s1 = swapped(s, NestedStateV::StyledBlock(a1));
        let d1 = choose|d1: StateDataV|
            #[trigger] run_rel(s, d, block_events(bs[i]), caps, size, base, s1, d1);
        lemma_blocks_run_sb(bs, i + 1, a1, s1, d1, caps, size, base);
        let (d2, m2) = choose|d2: StateDataV, m2: MarginControl|
            #[trigger] run_rel(
                s1, d1, blocks_events(bs, i + 1), caps, size, base,
                swapped(
                    s1,
                    NestedStateV::StyledBlock(
                        StyledBlockAttrs { margin_before: m2, indent: a1.indent, style: a1.style },
                    ),
                ),
                d2,
            );
        proof_swap_swap(
            s,
            NestedStateV::StyledBlock(a1),
            NestedStateV::StyledBlock(
                StyledBlockAttrs { margin_before: m2, indent: a.indent, style: a.style },
            ),
        );
        lemma_run_compose(
            s, d, block_events(bs[i]), blocks_events(bs, i + 1), caps, size, base, s1, d1,
            swapped(
                s,
                NestedStateV::StyledBlock(
                    StyledBlockAttrs { margin_before: m2, indent: a.indent, style: a.style },
                ),
            ),
            d2,
        );
        assert(run_rel(
            s, d, blocks_events(bs, i), caps, size, base,
            swapped(
                s,
                NestedStateV::StyledBlock(
                    StyledBlockAttrs { margin_before: m2, indent: a.indent, style: a.style },
                ),
            ),
            d2,
        ));
    }
}

/// Whether every prefix of the stream keeps a non-negative balance.
pub open spec fn prefixes_nonneg(evs: Seq<EventV>) -> bool {
    forall|k: int| 0 <= k <= evs.len() ==> events_delta(#[trigger] evs.take(k)) >= 0
}

/// Whether every prefix strictly inside the stream keeps a positive
/// balance: some opened construct is still open.
pub open spec fn interior_prefixes_pos(evs: Seq<EventV>) -> bool {
    forall|k: int| 0 < k < evs.len() ==> events_delta(#[trigger] evs.take(k)) > 0
}

/// Balance distributes over concatenation.
proof fn lemma_delta_concat(a: Seq<EventV>, b: Seq<EventV>)
    ensures
        events_delta(a + b) == events_delta(a) + events_delta(b),
    decreases a.len(),
{
    if a.len() == 0 {
        assert(a + b =~= b);
    } else {
        assert((a + b).first() == a.first());
        assert((a + b).drop_first() =~= a.drop_first() + b);
        lemma_delta_concat(a.drop_first(), b);
    }
}

/// A prefix of a concatenation is a prefix of the first part, or all of
/// the first part and a prefix of the second.
proof fn lemma_delta_take_concat(a: Seq<EventV>, b: Seq<EventV>, k: int)
    requires
        0 <= k <= a.len() + b.len(),
    ensures
        events_delta((a + b).take(k)) == if k <= a.len() {
            events_delta(a.take(k))
        } else {
            events_delta(a) + events_delta(b.take(k - a.len()))
        },
{
    if k <= a.len() {
        assert((a + b).take(k) =~= a.take(k));
    } else {
        assert((a + b).take(k) =~= a + b.take(k - a.len()));
        lemma_delta_concat(a, b.take(k - a.len()));
    }
}

/// A single event that neither opens nor closes is balanced on its own.
proof fn lemma_flat_balance(e: EventV)
    requires
        tag_delta(e) == 0,
    ensures
        events_delta(seq![e]) == 0,
        prefixes_nonneg(seq![e]),
        interior_prefixes_pos(seq![e]),
{
    let evs = seq![e];
    assert(evs.drop_first() =~= Seq::<EventV>::empty());
    assert(events_delta(Seq::<EventV>::empty()) == 0);
    assert(events_delta(evs) == 0);
    assert forall|k: int| 0 <= k <= evs.len() implies events_delta(#[trigger] evs.take(k)) >= 0 by {
        if k == 0 {
            assert(evs.take(0) =~= Seq::<EventV>::empty());
        } else {
            assert(evs.take(k) =~= evs);
        }
    }
}

/// The empty stream is balanced.
proof fn lemma_empty_balance()
    ensures
        events_delta(Seq::<EventV>::empty()) == 0,
        prefixes_nonneg(Seq::<EventV>::empty()),
{
    assert forall|k: int|
        0 <= k <= Seq::<EventV>::empty().len() implies events_delta(
        #[trigger] Seq::<EventV>::empty().take(k),
    ) >= 0 by {
        assert(Seq::<EventV>::empty().take(k) =~= Seq::<EventV>::empty());
    }
}

/// Two balanced streams concatenate to a balanced stream.
proof fn lemma_content_concat(a: Seq<EventV>, b: Seq<EventV>)
    requires
        events_delta(a) == 0,
        prefixes_nonneg(a),
        events_delta(b) == 0,
        prefixes_nonneg(b),
    ensures
        events_delta(a + b) == 0,
        prefixes_nonneg(a + b),
{
    lemma_delta_concat(a, b);
    assert forall|k: int|
        0 <= k <= (a + b).len() implies events_delta(#[trigger] (a + b).take(k)) >= 0 by {
        lemma_delta_take_concat(a, b, k);
    }
}

/// A balanced content stream wrapped in one opening and one closing event
/// is balanced, and strictly inside it the opening construct is open.
proof fn lemma_wrapped_balance(open_ev: EventV, content: Seq<EventV>, close_ev: EventV)
    requires
        tag_delta(open_ev) == 1,
        tag_delta(close_ev) == -1,
        events_delta(content) == 0,
        prefixes_nonneg(content),
    ensures
        events_delta((seq![open_ev] + content) + seq![close_ev]) == 0,
        prefixes_nonneg((seq![open_ev] + content) + seq![close_ev]),
        interior_prefixes_pos((seq![open_ev] + content) + seq![close_ev]),
{
    let a = seq![open_ev] + content;
    let evs = a + seq![close_ev];
    assert(events_delta(Seq::<EventV>::empty()) == 0);
    assert(seq![open_ev].drop_first() =~= Seq::<EventV>::empty());
    assert(events_delta(seq![open_ev]) == 1);
    assert(seq![close_ev].drop_first() =~= Seq::<EventV>::empty());
    assert(events_delta(seq![close_ev]) == -1);
    lemma_delta_concat(seq![open_ev], content);
    lemma_delta_concat(a, seq![close_ev]);
    assert(events_delta(evs) == 0);
    assert forall|k: int| 0 < k < evs.len() implies events_delta(#[trigger] evs.take(k)) > 0 by {
        lemma_delta_take_concat(a, seq![close_ev], k);
        if k <= a.len() {
            lemma_delta_take_concat(seq![open_ev], content, k);
            if k <= 1 {
                assert(seq![open_ev].take(1) =~= seq![open_ev]);
                assert(events_delta(seq![open_ev].take(k)) == 1);
            } else {
                assert(seq![open_ev].take(1) =~= seq![open_ev]);
                assert(events_delta(content.take(k - 1)) >= 0);
            }
        }
    }
    assert forall|k: int| 0 <= k <= evs.len() implies events_delta(#[trigger] evs.take(k)) >= 0 by {
        if k == 0 {
            assert(evs.take(0) =~= Seq::<EventV>::empty());
        } else if k == evs.len() {
            assert(evs.take(k) =~= evs);
        }
    }
}

/// Law, stream side: the events of one inline node are balanced.
proof fn lemma_inline_balance(n: InlineNode)
    ensures
        events_delta(inline_events(n)) == 0,
        prefixes_nonneg(inline_events(n)),
        interior_prefixes_pos(inline_events(n)),
    decreases n, 0int,
{
    match n {
        InlineNode::Words(t) => lemma_flat_balance(EventV::Text(t)),
        InlineNode::CodeSpan(t) => lemma_flat_balance(EventV::Code(t)),
        InlineNode::HtmlSpan(t) => lemma_flat_balance(EventV::Html(t)),
        InlineNode::SoftBreak => lemma_flat_balance(EventV::SoftBreak),
        InlineNode::HardBreak => lemma_flat_balance(EventV::HardBreak),
        InlineNode::Emphasis(ns) => {
            lemma_inlines_balance(ns, 0);
            lemma_wrapped_balance(
                EventV::Start(TagV::Emphasis),
                inlines_events(ns, 0),
                EventV::End(TagV::Emphasis),
            );
        },
        InlineNode::Strong(ns) => {
            lemma_inlines_balance(ns, 0);
            lemma_wrapped_balance(
                EventV::Start(TagV::Strong),
                inlines_events(ns, 0),
                EventV::End(TagV::Strong),
            );
        },
        InlineNode::Strikethrough(ns) => {
            lemma_inlines_balance(ns, 0);
            lemma_wrapped_balance(
                EventV::Start(TagV::Strikethrough),
                inlines_events(ns, 0),
                EventV::End(TagV::Strikethrough),
            );
        },
        InlineNode::LinkNode(ty, target, title, ns) => {
            lemma_inlines_balance(ns, 0);
            lemma_wrapped_balance(
                EventV::Start(TagV::Link(ty, target, title)),
                inlines_events(ns, 0),
                EventV::End(TagV::Link(ty, target, title)),
            );
        },
        InlineNode::ImageNode(ty, target, title, ns) => {
            lemma_inlines_balance(ns, 0);
            lemma_wrapped_balance(
                EventV::Start(TagV::Image(ty, target, title)),
                inlines_events(ns, 0),
                EventV::End(TagV::Image(ty, target, title)),
            );
        },
    }
}

/// The events of a tail of inline nodes are balanced.
proof fn lemma_inlines_balance(ns: Seq<InlineNode>, i: int)
    ensures
        events_delta(inlines_events(ns, i)) == 0,
        prefixes_nonneg(inlines_events(ns, i)),
    decreases ns, ns.len() - i,
{
    if i < 0 || i >= ns.len() {
        lemma_empty_balance();
    } else {
        lemma_inline_balance(ns[i]);
        lemma_inlines_balance(ns, i + 1);
        lemma_content_concat(inline_events(ns[i]), inlines_events(ns, i + 1));
    }
}

/// The text events of a code block are balanced.
proof fn lemma_texts_balance(lines: Seq<Seq<char>>, i: int)
    ensures
        events_delta(text_events(lines, i)) == 0,
        prefixes_nonneg(text_events(lines, i)),
    decreases lines.len() - i,
{
    if i < 0 || i >= lines.len() {
        lemma_empty_balance();
    } else {
        lemma_flat_balance(EventV::Text(lines[i]));
        lemma_texts_balance(lines, i + 1);
        lemma_content_concat(seq![EventV::Text(lines[i])], text_events(lines, i + 1));
    }
}

/// Law, stream side: the events of one block are balanced: the block's
/// opening construct closes exactly at the end of its subtree, and every
/// construct opened inside closes before that.
pub proof fn lemma_block_balance(b: BlockNode)
    ensures
        events_delta(block_events(b)) == 0,
        prefixes_nonneg(block_events(b)),
        interior_prefixes_pos(block_events(b)),
    decreases b, 0int,
{
    match b {
        BlockNode::Paragraph(ns) => {
            lemma_inlines_balance(ns, 0);
            lemma_wrapped_balance(
                EventV::Start(TagV::Paragraph),
                inlines_events(ns, 0),
                EventV::End(TagV::Paragraph),
            );
        },
        BlockNode::Heading(level, ns) => {
            lemma_inlines_balance(ns, 0);
            lemma_wrapped_balance(
                EventV::Start(TagV::Heading(level)),
                inlines_events(ns, 0),
                EventV::End(TagV::Heading(level)),
            );
        },
        BlockNode::Quote(bs) => {
            lemma_blocks_balance(bs, 0);
            lemma_wrapped_balance(
                EventV::Start(TagV::BlockQuote),
                blocks_events(bs, 0),
                EventV::End(TagV::BlockQuote),
            );
        },
        BlockNode::CodeBlock(kind, lines) => {
            lemma_texts_balance(lines, 0);
            lemma_wrapped_balance(
                EventV::Start(TagV::CodeBlock(kind)),
                text_events(lines, 0),
                EventV::End(TagV::CodeBlock(kind)),
            );
        },
        BlockNode::ListBlock(start, items) => {
            lemma_items_balance(items, 0);
            lemma_wrapped_balance(
                EventV::Start(TagV::List(start)),
                items_events(items, 0),
                EventV::End(TagV::List(start)),
            );
        },
        BlockNode::RuleBlock => lemma_flat_balance(EventV::Rule),
        BlockNode::HtmlBlock(h) => lemma_flat_balance(EventV::Html(h)),
    }
}

/// The events of a tail of blocks are balanced.
proof fn lemma_blocks_balance(bs: Seq<BlockNode>, i: int)
    ensures
        events_delta(blocks_events(bs, i)) == 0,
        prefixes_nonneg(blocks_events(bs, i)),
    decreases bs, bs.len() - i,
{
    if i < 0 || i >= bs.len() {
        lemma_empty_balance();
    } else {
        lemma_block_balance(bs[i]);
        lemma_blocks_balance(bs, i + 1);
        lemma_content_concat(block_events(bs[i]), blocks_events(bs, i + 1));
    }
}

/// The events of one list item are balanced.
proof fn lemma_item_balance(it: ItemNode)
    ensures
        events_delta(item_events(it)) == 0,
        prefixes_nonneg(item_events(it)),
        interior_prefixes_pos(item_events(it)),
    decreases it, 0int,
{
    let marker: Seq<EventV> = match it.marker {
        Some(checked) => seq![EventV::TaskListMarker(checked)],
        None => Seq::empty(),
    };
    match it.marker {
        Some(checked) => lemma_flat_balance(EventV::TaskListMarker(checked)),
        None => lemma_empty_balance(),
    }
    lemma_inlines_balance(it.lead, 0);
    lemma_blocks_balance(it.blocks, 0);
    lemma_content_concat(marker, inlines_events(it.lead, 0));
    lemma_content_concat(marker + inlines_events(it.lead, 0), blocks_events(it.blocks, 0));
    let content = (marker + inlines_events(it.lead, 0)) + blocks_events(it.blocks, 0);
    lemma_wrapped_balance(EventV::Start(TagV::Item), content, EventV::End(TagV::Item));
    assert(item_events(it) =~= (seq![EventV::Start(TagV::Item)] + content) + seq![
        EventV::End(TagV::Item),
    ]);
    assert forall|k: int|
        0 < k < item_events(it).len() implies events_delta(
        #[trigger] item_events(it).take(k),
    ) > 0 by {
        assert(item_events(it).take(k) =~= ((seq![EventV::Start(TagV::Item)] + content) + seq![
            EventV::End(TagV::Item),
        ]).take(k));
    }
    assert forall|k: int|
        0 <= k <= item_events(it).len() implies events_delta(
        #[trigger] item_events(it).take(k),
    ) >= 0 by {
        assert(item_events(it).take(k) =~= ((seq![EventV::Start(TagV::Item)] + content) + seq![
            EventV::End(TagV::Item),
        ]).take(k));
    }
}

/// The events of a tail of list items are balanced.
proof fn lemma_items_balance(its: Seq<ItemNode>, i: int)
    ensures
        events_delta(items_events(its, i)) == 0,
        prefixes_nonneg(items_events(its, i)),
    decreases its, its.len() - i,
{
    if i < 0 || i >= its.len() {
        lemma_empty_balance();
    } else {
        lemma_item_balance(its[i]);
        lemma_items_balance(its, i + 1);
        lemma_content_concat(item_events(its[i]), items_events(its, i + 1));
    }
}

/// Law: for every `Start` there is a matching `End` before the engine
/// returns to the top level for that subtree.  While the machine is
/// strictly inside the events of one block it sits strictly deeper than
/// where the block began, and it returns to the entry depth exactly when
/// the block's last event — the matching `End` — has been taken.
pub proof fn lemma_subtree_stays_nested(
    b: BlockNode,
    k: int,
    s: StateV,
    d: StateDataV,
    caps: TerminalCapabilities,
    size: TerminalSize,
    base: Seq<char>,
    sm: StateV,
    dm: StateDataV,
)
    requires
        0 <= k <= block_events(b).len(),
        run_rel(s, d, block_events(b).take(k), caps, size, base, sm, dm),
    ensures
        0 < k < block_events(b).len() ==> sm.frames.len() > s.frames.len(),
        k == block_events(b).len() ==> sm.frames.len() == s.frames.len(),
{
    lemma_run_depth(s, d, block_events(b).take(k), caps, size, base, sm, dm);
    lemma_block_balance(b);
    if k == block_events(b).len() {
        assert(block_events(b).take(k) =~= block_events(b));
    }
}

/// A well-formed block runs from the top level back to the top level,
/// leaving behind the margin the block asks for.
#[verifier::rlimit(100)]
#[verifier::spinoff_prover]
proof fn lemma_block_run_top(
    b: BlockNode,
    m: MarginControl,
    d: StateDataV,
    caps: TerminalCapabilities,
    size: TerminalSize,
    base: Seq<char>,
)
    requires
        wf_block(b),
    ensures
        exists|d2: StateDataV|
            run_rel(
                StateV { top: TopLevelAttrs { margin_before: m }, frames: Seq::empty() },
                d,
                block_events(b),
                caps,
                size,
                base,
                StateV { top: TopLevelAttrs { margin_before: margin_after(b) }, frames: Seq::empty() },
                d2,
            ),
    decreases b, 0int,
{
    let s = StateV { top: TopLevelAttrs { margin_before: m }, frames: Seq::empty() };
    let tm = top_margin();
    match b {
        BlockNode::Paragraph(ns) => {
            let ev_s = EventV::Start(TagV::Paragraph);
            let ev_e = EventV::End(TagV::Paragraph);
            let ia = InlineAttrs { style: default_style(), indent: 0 };
            let s1 = pushed(tm, NestedStateV::Inline(InlineState::InlineText, ia));
            assert(step_rel(s, d, ev_s, caps, size, base, StepResultV::Stepped(s1, d, blank(m))));
            lemma_run_single(s, d, ev_s, caps, size, base, s1, d, blank(m));
            lemma_inlines_run(ns, 0, InlineState::InlineText, ia, s1, d, caps, size, base);
            let d1 = choose|d1: StateDataV|
                #[trigger] run_rel(s1, d, inlines_events(ns, 0), caps, size, base, s1, d1);
            lemma_run_compose(
                s, d, seq![ev_s], inlines_events(ns, 0), caps, size, base, s1, d, s1, d1,
            );
            proof_pop_to(s1, tm);
            assert(step_rel(s1, d1, ev_e, caps, size, base, StepResultV::Stepped(tm, d1, seq!['\n'])));
            lemma_run_single(s1, d1, ev_e, caps, size, base, tm, d1, seq!['\n']);
            lemma_run_compose(
                s, d, seq![ev_s] + inlines_events(ns, 0), seq![ev_e], caps, size, base, s1, d1, tm, d1,
            );
            assert(run_rel(s, d, block_events(b), caps, size, base, tm, d1));
            assert(exists|dw: StateDataV| run_rel(s, d, block_events(b), caps, size, base, tm, dw));
        },
        BlockNode::Heading(level, ns) => {
            let ev_s = EventV::Start(TagV::Heading(level));
            let ev_e = EventV::End(TagV::Heading(level));
            let ia = InlineAttrs { style: heading_style(), indent: 0 };
            let s1 = pushed(tm, NestedStateV::Inline(InlineState::InlineText, ia));
            let dm = StateDataV { links: Seq::empty(), next_index: d.next_index };
            let o1 = link_refs_out(caps.style, d.links) + blank(m) + mark_seq(caps.marks)
                + styled_seq(caps.style, heading_style(), heading_prefix(level));
            assert(step_rel(s, d, ev_s, caps, size, base, StepResultV::Stepped(s1, dm, o1)));
            lemma_run_single(s, d, ev_s, caps, size, base, s1, dm, o1);
            lemma_inlines_run(ns, 0, InlineState::InlineText, ia, s1, dm, caps, size, base);
            let d1 = choose|d1: StateDataV|
                #[trigger] run_rel(s1, dm, inlines_events(ns, 0), caps, size, base, s1, d1);
            lemma_run_compose(
                s, d, seq![ev_s], inlines_events(ns, 0), caps, size, base, s1, dm, s1, d1,
            );
            proof_pop_to(s1, tm);
            assert(step_rel(s1, d1, ev_e, caps, size, base, StepResultV::Stepped(tm, d1, seq!['\n'])));
            lemma_run_single(s1, d1, ev_e, caps, size, base, tm, d1, seq!['\n']);
            lemma_run_compose(
                s, d, seq![ev_s] + inlines_events(ns, 0), seq![ev_e], caps, size, base, s1, d1, tm, d1,
            );
            assert(run_rel(s, d, block_events(b), caps, size, base, tm, d1));
            assert(exists|dw: StateDataV| run_rel(s, d, block_events(b), caps, size, base, tm, dw));
        },
        BlockNode::Quote(bs) => {
            let ev_s = EventV::Start(TagV::BlockQuote);
            let ev_e = EventV::End(TagV::BlockQuote);
            let qa = StyledBlockAttrs {
                margin_before: MarginControl::NoMargin,
                indent: 4,
                style: quote_style(default_style()),
            };
            let s1 = pushed(tm, NestedStateV::StyledBlock(qa));
            assert(step_rel(s, d, ev_s, caps, size, base, StepResultV::Stepped(s1, d, blank(m))));
            lemma_run_single(s, d, ev_s, caps, size, base, s1, d, blank(m));
            lemma_blocks_run_sb(bs, 0, qa, s1, d, caps, size, base);
            let (d1, m1) = choose|d1: StateDataV, m1: MarginControl|
                #[trigger] run_rel(
                    s1, d, blocks_events(bs, 0), caps, size, base,
                    swapped(
                        s1,
                        NestedStateV::StyledBlock(
                            StyledBlockAttrs { margin_before: m1, indent: qa.indent, style: qa.style },
                        ),
                    ),
                    d1,
                );
            let se = swapped(
                s1,
                NestedStateV::StyledBlock(
                    StyledBlockAttrs { margin_before: m1, indent: qa.indent, style: qa.style },
                ),
            );
            lemma_run_compose(
                s, d, seq![ev_s], blocks_events(bs, 0), caps, size, base, s1, d, se, d1,
            );
            assert(popped(se).frames =~= tm.frames);
            assert(popped(se) == tm);
            assert(step_rel(se, d1, ev_e, caps, size, base, StepResultV::Stepped(tm, d1, Seq::empty())));
            lemma_run_single(se, d1, ev_e, caps, size, base, tm, d1, Seq::empty());
            lemma_run_compose(
                s, d, seq![ev_s] + blocks_events(bs, 0), seq![ev_e], caps, size, base, se, d1, tm, d1,
            );
            assert(run_rel(s, d, block_events(b), caps, size, base, tm, d1));
            assert(exists|dw: StateDataV| run_rel(s, d, block_events(b), caps, size, base, tm, dw));
        },
        BlockNode::CodeBlock(kind, lines) => {
            let ev_s = EventV::Start(TagV::CodeBlock(kind));
            let ev_e = EventV::End(TagV::CodeBlock(kind));
            let lit = NestedStateV::LiteralBlock(
                LiteralBlockAttrs {
                    indent: 0,
                    style: Style { fg: Some(Colour::Yellow), ..default_style() },
                },
            );
            let s1 = pushed(tm, lit);
            let o1 = blank(m) + code_block_start_out(caps.style, size, 0);
            assert(code_block_started(caps.style, kind, tm, 0, default_style(), s1));
            assert(step_rel(s, d, ev_s, caps, size, base, StepResultV::Stepped(s1, d, o1)));
            lemma_run_single(s, d, ev_s, caps, size, base, s1, d, o1);
            lemma_text_lines_run(lines, 0, s1, d, caps, size, base);
            lemma_run_compose(
                s, d, seq![ev_s], text_events(lines, 0), caps, size, base, s1, d, s1, d,
            );
            proof_pop_to(s1, tm);
            assert(step_rel(
                s1, d, ev_e, caps, size, base,
                StepResultV::Stepped(tm, d, border_seq(caps.style, size)),
            ));
            lemma_run_single(s1, d, ev_e, caps, size, base, tm, d, border_seq(caps.style, size));
            lemma_run_compose(
                s, d, seq![ev_s] + text_events(lines, 0), seq![ev_e], caps, size, base, s1, d, tm, d,
            );
            assert(run_rel(s, d, block_events(b), caps, size, base, tm, d));
            assert(exists|dw: StateDataV| run_rel(s, d, block_events(b), caps, size, base, tm, dw));
        },
        BlockNode::ListBlock(start, items) => {
            let ev_s = EventV::Start(TagV::List(start));
            let ev_e = EventV::End(TagV::List(start));
            let lb = ListBlockAttrs {
                item_type: item_type_of(start),
                indent: 0,
                style: default_style(),
            };
            let s1 = pushed(tm, NestedStateV::ListBlock(lb));
            assert(step_rel(s, d, ev_s, caps, size, base, StepResultV::Stepped(s1, d, seq!['\n'])));
            lemma_run_single(s, d, ev_s, caps, size, base, s1, d, seq!['\n']);
            lemma_items_run(items, 0, lb, s1, d, caps, size, base);
            let (d1, t1) = choose|d1: StateDataV, t1: ListItemType|
                #[trigger] run_rel(
                    s1, d, items_events(items, 0), caps, size, base,
                    swapped(
                        s1,
                        NestedStateV::ListBlock(
                            ListBlockAttrs { item_type: t1, indent: lb.indent, style: lb.style },
                        ),
                    ),
                    d1,
                );
            let se = swapped(
                s1,
                NestedStateV::ListBlock(
                    ListBlockAttrs { item_type: t1, indent: lb.indent, style: lb.style },
                ),
            );
            lemma_run_compose(
                s, d, seq![ev_s], items_events(items, 0), caps, size, base, s1, d, se, d1,
            );
            assert(popped(se).frames =~= tm.frames);
            assert(popped(se) == tm);
            assert(se.frames.len() == 1);
            assert(step_rel(se, d1, ev_e, caps, size, base, StepResultV::Stepped(tm, d1, seq!['\n'])));
            lemma_run_single(se, d1, ev_e, caps, size, base, tm, d1, seq!['\n']);
            lemma_run_compose(
                s, d, seq![ev_s] + items_events(items, 0), seq![ev_e], caps, size, base, se, d1, tm, d1,
            );
            assert(run_rel(s, d, block_events(b), caps, size, base, tm, d1));
            assert(exists|dw: StateDataV| run_rel(s, d, block_events(b), caps, size, base, tm, dw));
        },
        BlockNode::RuleBlock => {
            let o = blank(m) + rule_seq(caps.style, size.width as nat) + seq!['\n'];
            assert(step_rel(s, d, EventV::Rule, caps, size, base, StepResultV::Stepped(tm, d, o)));
            lemma_run_single(s, d, EventV::Rule, caps, size, base, tm, d, o);
            assert(run_rel(s, d, block_events(b), caps, size, base, tm, d));
            assert(exists|dw: StateDataV| run_rel(s, d, block_events(b), caps, size, base, tm, dw));
        },
        BlockNode::HtmlBlock(h) => {
            let sh = StateV {
                top: TopLevelAttrs { margin_before: MarginControl::NoMarginForHTMLOnly },
                frames: Seq::empty(),
            };
            let o = blank_html(m) + styled_seq(caps.style, green_fg(default_style()), h);
            assert(step_rel(s, d, EventV::Html(h), caps, size, base, StepResultV::Stepped(sh, d, o)));
            lemma_run_single(s, d, EventV::Html(h), caps, size, base, sh, d, o);
            assert(run_rel(s, d, block_events(b), caps, size, base, sh, d));
            assert(exists|dw: StateDataV| run_rel(s, d, block_events(b), caps, size, base, sh, dw));
        },
    }
}

/// A well-formed tail of blocks runs from the top level back to the top
/// level, leaving behind the margin of the last block processed.
proof fn lemma_blocks_run_top(
    bs: Seq<BlockNode>,
    i: int,
    m: MarginControl,
    d: StateDataV,
    caps: TerminalCapabilities,
    size: TerminalSize,
    base: Seq<char>,
)
    requires
        wf_blocks(bs),
        0 <= i,
    ensures
        exists|d2: StateDataV|
            run_rel(
                StateV { top: TopLevelAttrs { margin_before: m }, frames: Seq::empty() },
                d,
                blocks_events(bs, i),
                caps,
                size,
                base,
                StateV {
                    top: TopLevelAttrs { margin_before: seq_margin(bs, i, m) },
                    frames: Seq::empty(),
                },
                d2,
            ),
    decreases bs.len() - i,
{
    let s = StateV { top: TopLevelAttrs { margin_before: m }, frames: Seq::empty() };
    if i >= bs.len() {
        assert(run_rel(s, d, blocks_events(bs, i), caps, size, base, s, d));
    } else {
        assert(wf_block(bs[i]));
        lemma_block_run_top(bs[i], m, d, caps, size, base);
        let s1 = StateV {
            top: TopLevelAttrs { margin_before: margin_after(bs[i]) },
            frames: Seq::empty(),
        };
        let d1 = choose|d1: StateDataV|
            #[trigger] run_rel(s, d, block_events(bs[i]), caps, size, base, s1, d1);
        lemma_blocks_run_top(bs, i + 1, margin_after(bs[i]), d1, caps, size, base);
        let s2 = StateV {
            top: TopLevelAttrs { margin_before: seq_margin(bs, i + 1, margin_after(bs[i])) },
            frames: Seq::empty(),
        };
        let d2 = choose|d2: StateDataV|
            #[trigger] run_rel(s1, d1, blocks_events(bs, i + 1), caps, size, base, s2, d2);
        lemma_run_compose(
            s, d, block_events(bs[i]), blocks_events(bs, i + 1), caps, size, base, s1, d1, s2, d2,
        );
        assert(run_rel(s, d, blocks_events(bs, i), caps, size, base, s2, d2));
    }
}

/// The margin left by a nonempty tail of blocks is the margin of its
/// last block.
proof fn lemma_seq_margin_last(bs: Seq<BlockNode>, i: int, m: MarginControl)
    requires
        0 <= i < bs.len(),
    ensures
        seq_margin(bs, i, m) == margin_after(bs.last()),
    decreases bs.len() - i,
{
    if i == bs.len() - 1 {
    } else {
        lemma_seq_margin_last(bs, i + 1, margin_after(bs[i]));
    }
}

/// Law: for every well-formed input event stream — the flattening of a
/// well-formed document tree — the machine runs from the initial state to
/// the top level with `margin_before` set to `Margin`.  The one exception
/// is a document whose last block is raw HTML, which leaves the margin
/// suppressed for HTML events only.
pub proof fn lemma_document_run(
    blocks: Seq<BlockNode>,
    d: StateDataV,
    caps: TerminalCapabilities,
    size: TerminalSize,
    base: Seq<char>,
)
    requires
        wf_blocks(blocks),
        blocks.len() > 0,
        !(blocks.last() is HtmlBlock),
    ensures
        exists|d2: StateDataV|
            run_rel(
                initial_state(),
                d,
                blocks_events(blocks, 0),
                caps,
                size,
                base,
                StateV {
                    top: TopLevelAttrs { margin_before: MarginControl::Margin },
                    frames: Seq::empty(),
                },
                d2,
            ),
{
    lemma_blocks_run_top(blocks, 0, MarginControl::NoMargin, d, caps, size, base);
    lemma_seq_margin_last(blocks, 0, MarginControl::NoMargin);
    assert(initial_state() == StateV {
        top: TopLevelAttrs { margin_before: MarginControl::NoMargin },
        frames: Seq::empty(),
    });
}

/// Law: at the end of a well-formed stream the effective style is the
/// default again.  Styles live inside frames, so when the machine is back
/// at the top level every style pushed along the way has been popped.
pub proof fn lemma_run_resets_style(
    blocks: Seq<BlockNode>,
    d: StateDataV,
    caps: TerminalCapabilities,
    size: TerminalSize,
    base: Seq<char>,
)
    requires
        wf_blocks(blocks),
        blocks.len() > 0,
        !(blocks.last() is HtmlBlock),
    ensures
        exists|d2: StateDataV|
            run_rel(
                initial_state(),
                d,
                blocks_events(blocks, 0),
                caps,
                size,
                base,
                StateV {
                    top: TopLevelAttrs { margin_before: MarginControl::Margin },
                    frames: Seq::empty(),
                },
                d2,
            ),
        effective_style(
            StateV {
                top: TopLevelAttrs { margin_before: MarginControl::Margin },
                frames: Seq::empty(),
            },
        ) == default_style(),
{
    lemma_document_run(blocks, d, caps, size, base);
}

} // verus!
