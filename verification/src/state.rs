//! The renderer's state: an explicit stack of nested frames rooted at a
//! unique top level.

use vstd::prelude::*;
use crate::highlight::CodeHighlighter;
use crate::style::Style;

verus! {

/// Whether to write a blank line before the next block.
#[derive(Debug, PartialEq, Eq, Structural, Copy, Clone)]
pub enum MarginControl {
    /// Always add a margin.
    Margin,
    /// Always add no margin.
    NoMargin,
    /// Add margin unless the current event is an HTML event.
    NoMarginForHTMLOnly,
}

/// State attributes for inline text.
#[derive(Debug, Copy, Clone)]
pub struct InlineAttrs {
    /// The style to apply to this piece of inline text.
    pub style: Style,
    /// The indent to add after a line break in inline text.
    pub indent: u16,
}

/// The kinds of inline state.
#[derive(Debug, PartialEq, Eq, Structural, Copy, Clone)]
pub enum InlineState {
    /// Inline text.
    ///
    /// Regular inline text without any particular implications.
    InlineText,
    /// Inline link.
    ///
    /// This state suppresses link references being written when reading a
    /// link end event.
    InlineLink,
    /// A list item.
    ///
    /// Unlike other inline states this inline state permits immediate
    /// transition to block level when reading a block start event, which
    /// denotes a list item with block content.
    ListItemText,
}

/// State attributes for styled blocks.
#[derive(Debug, Copy, Clone)]
pub struct StyledBlockAttrs {
    /// Whether to write a margin before the beginning of a block inside
    /// this block.
    pub margin_before: MarginControl,
    /// The indent of this block.
    pub indent: u16,
    /// The general style to apply to children of this block, if possible.
    ///
    /// Not all nested blocks inherit this style; code blocks always use
    /// their own dedicated style.
    pub style: Style,
}

impl StyledBlockAttrs {
    /// These attributes with the margin turned back on.
    pub fn with_margin_before(self) -> (r: StyledBlockAttrs)
        ensures
            r == (StyledBlockAttrs { margin_before: MarginControl::Margin, ..self }),
    {
        StyledBlockAttrs { margin_before: MarginControl::Margin, ..self }
    }

    /// These attributes with the margin suppressed for HTML events only.
    pub fn without_margin_for_html_only(self) -> (r: StyledBlockAttrs)
        ensures
            r == (StyledBlockAttrs { margin_before: MarginControl::NoMarginForHTMLOnly, ..self }),
    {
        StyledBlockAttrs { margin_before: MarginControl::NoMarginForHTMLOnly, ..self }
    }
}

/// Attributes for highlighted code blocks.
#[derive(Debug)]
pub struct HighlightBlockAttrs {
    /// The per-line tokeniser for the block's language, bound to a theme.
    pub highlighter: CodeHighlighter,
    /// The indentation to apply to this code block.
    pub indent: u16,
}

/// Attributes for literal (unhighlighted) code blocks.
#[derive(Debug, Copy, Clone)]
pub struct LiteralBlockAttrs {
    /// The indent for this block.
    pub indent: u16,
    /// The outer style to include.
    pub style: Style,
}

/// The type of a list and, for ordered lists, the number of the next item.
#[derive(Debug, PartialEq, Eq, Structural, Copy, Clone)]
pub enum ListItemType {
    Unordered,
    Ordered(u64),
}

/// Attributes for list blocks.
#[derive(Debug, Copy, Clone)]
pub struct ListBlockAttrs {
    pub item_type: ListItemType,
    pub indent: u16,
    pub style: Style,
}

impl ListBlockAttrs {
    /// These attributes moved on to the next list item: an ordered list
    /// counts up (saturating at the largest number), an unordered list is
    /// unchanged.
    pub fn next_item(self) -> (r: ListBlockAttrs)
        ensures
            r.item_type == next_item_type(self.item_type),
            r.indent == self.indent,
            r.style == self.style,
    {
        let item_type = match self.item_type {
            ListItemType::Unordered => ListItemType::Unordered,
            ListItemType::Ordered(start) => {
                if start < u64::MAX {
                    ListItemType::Ordered(start + 1)
                } else {
                    ListItemType::Ordered(start)
                }
            },
        };
        ListBlockAttrs { item_type, ..self }
    }
}

/// The item type after one item of a list: ordered lists count up,
/// saturating; unordered lists stay as they are.
pub open spec fn next_item_type(t: ListItemType) -> ListItemType {
    match t {
        ListItemType::Unordered => ListItemType::Unordered,
        ListItemType::Ordered(start) => if start < u64::MAX {
            ListItemType::Ordered((start + 1) as u64)
        } else {
            ListItemType::Ordered(start)
        },
    }
}

/// State attributes for the top level.
#[derive(Debug, PartialEq, Eq, Structural, Copy, Clone)]
pub struct TopLevelAttrs {
    pub margin_before: MarginControl,
}

impl TopLevelAttrs {
    /// Top-level attributes asking for a margin before the next block.
    pub fn margin_before() -> (r: TopLevelAttrs)
        ensures
            r == (TopLevelAttrs { margin_before: MarginControl::Margin }),
    {
        TopLevelAttrs { margin_before: MarginControl::Margin }
    }

    /// Top-level attributes suppressing the margin for HTML events only.
    pub fn no_margin_for_html_only() -> (r: TopLevelAttrs)
        ensures
            r == (TopLevelAttrs { margin_before: MarginControl::NoMarginForHTMLOnly }),
    {
        TopLevelAttrs { margin_before: MarginControl::NoMarginForHTMLOnly }
    }
}

impl Default for TopLevelAttrs {
    /// The initial top-level attributes: no margin, so a document never
    /// begins with a blank line.
    fn default() -> (r: Self)
        ensures
            r == (TopLevelAttrs { margin_before: MarginControl::NoMargin }),
    {
        TopLevelAttrs { margin_before: MarginControl::NoMargin }
    }
}

/// A nested state, always owned by an enclosing [`State`].
#[derive(Debug)]
pub enum NestedState {
    /// A block with attached style.
    StyledBlock(StyledBlockAttrs),
    /// A highlighted block of code.
    HighlightBlock(HighlightBlockAttrs),
    /// A literal block without highlighting.
    LiteralBlock(LiteralBlockAttrs),
    /// A list.
    ListBlock(ListBlockAttrs),
    /// Some inline markup.
    Inline(InlineState, InlineAttrs),
    /// An image whose picture the driver has already rendered inline:
    /// the whole alt tree up to the matching image end produces no
    /// output.  Entered through [`crate::render::begin_inline_image`].
    SuppressedImage,
    /// A construct opened inside a suppressed image's alt tree; closed by
    /// any end event, still producing no output.
    SuppressedSpan,
}

/// The rendering state: either at the top level or nested inside a stack
/// of frames, each with a state to return to.
#[derive(Debug)]
pub enum State {
    /// At top level.
    TopLevel(TopLevelAttrs),
    /// A nested state, with a state to return to and the actual state.
    NestedState(Box<State>, NestedState),
}

impl Default for State {
    /// The initial state: top level, no margin.
    fn default() -> (r: Self)
        ensures
            r@ == initial_state(),
    {
        State::TopLevel(TopLevelAttrs { margin_before: MarginControl::NoMargin })
    }
}

/// Mathematical model of one nested frame.  A highlight block is abstracted
/// to its indent: the tokeniser's internal state lives outside the model.
pub enum NestedStateV {
    StyledBlock(StyledBlockAttrs),
    HighlightBlock(u16),
    LiteralBlock(LiteralBlockAttrs),
    ListBlock(ListBlockAttrs),
    Inline(InlineState, InlineAttrs),
    SuppressedImage,
    SuppressedSpan,
}

/// Mathematical model of the rendering state: the top-level attributes and
/// the stack of nested frames, outermost first.
pub struct StateV {
    pub top: TopLevelAttrs,
    pub frames: Seq<NestedStateV>,
}

impl View for NestedState {
    type V = NestedStateV;

    open spec fn view(&self) -> NestedStateV {
        match self {
            NestedState::StyledBlock(attrs) => NestedStateV::StyledBlock(*attrs),
            NestedState::HighlightBlock(attrs) => NestedStateV::HighlightBlock(attrs.indent),
            NestedState::LiteralBlock(attrs) => NestedStateV::LiteralBlock(*attrs),
            NestedState::ListBlock(attrs) => NestedStateV::ListBlock(*attrs),
            NestedState::Inline(state, attrs) => NestedStateV::Inline(*state, *attrs),
            NestedState::SuppressedImage => NestedStateV::SuppressedImage,
            NestedState::SuppressedSpan => NestedStateV::SuppressedSpan,
        }
    }
}

/// The model of a state: the top-level attributes and the stack of frame
/// models, outermost first.
pub open spec fn state_view(s: State) -> StateV
    decreases s,
{
    match s {
        State::TopLevel(attrs) => StateV { top: attrs, frames: Seq::empty() },
        State::NestedState(return_to, nested) => StateV {
            top: state_view(*return_to).top,
            frames: state_view(*return_to).frames.push(nested@),
        },
    }
}

impl View for State {
    type V = StateV;

    open spec fn view(&self) -> StateV {
        state_view(*self)
    }
}

/// The state every render starts in: top level, no margin.
pub open spec fn initial_state() -> StateV {
    StateV {
        top: TopLevelAttrs { margin_before: MarginControl::NoMargin },
        frames: Seq::empty(),
    }
}

/// The effective style at a state: the style of the innermost frame that
/// carries one, or the default style at top level.  On return to top level
/// the effective style is always the default again: styles unwind with the
/// frame stack.
pub open spec fn effective_style(s: StateV) -> Style
    decreases s.frames.len(),
{
    if s.frames.len() == 0 {
        crate::style::default_style()
    } else {
        match s.frames.last() {
            NestedStateV::StyledBlock(attrs) => attrs.style,
            NestedStateV::LiteralBlock(attrs) => attrs.style,
            NestedStateV::ListBlock(attrs) => attrs.style,
            NestedStateV::Inline(_, attrs) => attrs.style,
            _ => effective_style(StateV { top: s.top, frames: s.frames.drop_last() }),
        }
    }
}

} // verus!
