//! The highlight bridge: per-line syntax highlighting of fenced code
//! blocks through `syntect`, emitted as styled regions.

use vstd::prelude::*;
use crate::ansi::{styled_seq, write_styled};
use crate::strutil::append_str;
use crate::style::{Colour, Style};
use crate::terminal::{StyleCapability, TerminalCapabilities};

verus! {

#[verifier::external_type_specification]
#[verifier::external_body]
pub struct ExSyntaxSet(syntect::parsing::SyntaxSet);

#[verifier::external_type_specification]
#[verifier::external_body]
pub struct ExParseState(syntect::parsing::ParseState);

#[verifier::external_type_specification]
#[verifier::external_body]
pub struct ExTheme(syntect::highlighting::Theme);

#[verifier::external_type_specification]
#[verifier::external_body]
pub struct ExHighlightState(syntect::highlighting::HighlightState);

/// The per-line tokeniser of one fenced code block with a recognised
/// language: the parser state and the highlighter state, advanced line by
/// line as the block's text arrives, together with the syntax set the
/// parser state was built from.
///
/// The fields are private so that the parser state can never be paired
/// with a different syntax set: `syntect` requires `parse_line` to be
/// called with the set that contains the state's syntax, and may panic
/// otherwise.  Owning the set makes the pairing unbreakable.
#[derive(Debug)]
pub struct CodeHighlighter {
    syntax_set: syntect::parsing::SyntaxSet,
    parse_state: syntect::parsing::ParseState,
    highlight_state: syntect::highlighting::HighlightState,
}

/// Whether the syntax set resolves the language token, by extension or by
/// case-insensitive name.  The lookup is a function of the set and the
/// token alone.
pub uninterp spec fn token_resolves(
    syntax_set: syntect::parsing::SyntaxSet,
    token: Seq<char>,
) -> bool;

/// One highlighted span of a code line: a 24-bit foreground colour, the
/// font style bits as `syntect` defines them (1 bold, 2 underline, 4
/// italic), and the span's text.
#[derive(Debug, Clone)]
pub struct HighlightRegion {
    pub red: u8,
    pub green: u8,
    pub blue: u8,
    pub font_bits: u8,
    pub text: String,
}

/// The concatenated text of a sequence of highlighted regions.
pub open spec fn regions_text(rs: Seq<HighlightRegion>) -> Seq<char>
    decreases rs.len(),
{
    if rs.len() == 0 {
        Seq::empty()
    } else {
        rs.first().text@ + regions_text(rs.drop_first())
    }
}

/// The style a region is rendered in: its theme colour as a 24-bit
/// foreground, with the font attributes decoded from the style bits.
pub open spec fn region_style(r: HighlightRegion) -> Style {
    Style {
        fg: Some(Colour::Rgb(r.red, r.green, r.blue)),
        bold: r.font_bits & 1u8 == 1u8,
        italic: r.font_bits & 4u8 == 4u8,
        underline: r.font_bits & 2u8 == 2u8,
        strikethrough: false,
    }
}

impl HighlightRegion {
    /// The style this region is rendered in.
    pub fn style(&self) -> (r: Style)
        ensures
            r == region_style(*self),
    {
        Style {
            fg: Some(Colour::Rgb(self.red, self.green, self.blue)),
            bold: self.font_bits & 1u8 == 1u8,
            italic: self.font_bits & 4u8 == 4u8,
            underline: self.font_bits & 2u8 == 2u8,
            strikethrough: false,
        }
    }
}

/// Relies on `SyntaxSet::find_syntax_by_token`, `ParseState::new`,
/// `Highlighter::new` and `HighlightState::new`: looks the language token
/// up in the syntax set and, if it resolves, builds a fresh per-line
/// tokeniser bound to the theme, owning a copy of the set.  The lookup
/// searches extensions and then case-insensitive names, a function of
/// the set and the token alone, named by [`token_resolves`].
#[verifier::external_body]
pub fn new_highlighter(
    syntax_set: &syntect::parsing::SyntaxSet,
    theme: &syntect::highlighting::Theme,
    token: &str,
) -> (r: Option<CodeHighlighter>)
    ensures
        r is Some <==> token_resolves(*syntax_set, token@),
{
    let syntax = syntax_set.find_syntax_by_token(token)?;
    let parse_state = syntect::parsing::ParseState::new(syntax);
    let highlighter = syntect::highlighting::Highlighter::new(theme);
    let highlight_state = syntect::highlighting::HighlightState::new(
        &highlighter,
        syntect::parsing::ScopeStack::new(),
    );
    Some(CodeHighlighter { syntax_set: syntax_set.clone(), parse_state, highlight_state })
}

/// Relies on `ParseState::parse_line`, `Highlighter::new` and
/// `HighlightIterator`: the iterator yields styled spans of the line, in
/// order and without gaps, so their texts concatenate to a prefix of the
/// line — normally all of it, but the iterator stops early when applying
/// a scope operation fails, and a parse error makes the whole line one
/// unstyled span.  The parser state is always paired with the set it was
/// built from (owned by the highlighter), which is the precondition
/// `parse_line` documents against wrong results or panics.
#[verifier::external_body]
pub fn highlight_line(
    highlighter: &mut CodeHighlighter,
    theme: &syntect::highlighting::Theme,
    line: &str,
) -> (r: Vec<HighlightRegion>)
    ensures
        regions_text(r@).is_prefix_of(line@),
{
    let themed = syntect::highlighting::Highlighter::new(theme);
    let ops = highlighter
        .parse_state
        .parse_line(line, &highlighter.syntax_set)
        .unwrap_or_default();
    let regions = syntect::highlighting::HighlightIterator::new(
        &mut highlighter.highlight_state, &ops, line, &themed,
    );
    regions.map(|(style, text): (syntect::highlighting::Style, &str)| HighlightRegion {
        red: style.foreground.r, green: style.foreground.g, blue: style.foreground.b,
        font_bits: style.font_style.bits(), text: text.to_owned(),
    }).collect()
}

/// The output written for a sequence of highlighted regions: each region's
/// text, styled in the region's style.
pub open spec fn regions_out(cap: StyleCapability, rs: Seq<HighlightRegion>) -> Seq<char>
    decreases rs.len(),
{
    if rs.len() == 0 {
        Seq::empty()
    } else {
        styled_seq(cap, region_style(rs.first()), rs.first().text@) + regions_out(
            cap,
            rs.drop_first(),
        )
    }
}

proof fn lemma_regions_out_take(cap: StyleCapability, rs: Seq<HighlightRegion>, i: int)
    requires
        0 <= i < rs.len(),
    ensures
        regions_out(cap, rs.take(i + 1)) == regions_out(cap, rs.take(i)) + styled_seq(
            cap,
            region_style(rs[i]),
            rs[i].text@,
        ),
    decreases i,
{
    if i == 0 {
        assert(rs.take(1).drop_first() =~= rs.take(0));
        assert(rs.take(0).len() == 0);
        assert(regions_out(cap, rs.take(1)) =~= styled_seq(
            cap,
            region_style(rs[0]),
            rs[0].text@,
        ));
        assert(regions_out(cap, rs.take(0)) + styled_seq(cap, region_style(rs[0]), rs[0].text@)
            =~= styled_seq(cap, region_style(rs[0]), rs[0].text@));
    } else {
        lemma_regions_out_take(cap, rs.drop_first(), i - 1);
        assert(rs.take(i + 1).drop_first() =~= rs.drop_first().take(i));
        assert(rs.take(i).drop_first() =~= rs.drop_first().take(i - 1));
        assert(rs.take(i + 1).first() == rs.first());
        assert(rs.take(i).first() == rs.first());
        assert(rs.drop_first()[i - 1] == rs[i]);
    }
}

/// Write a line's highlighted regions to `out`, each styled in its own
/// region style.
pub fn write_regions(
    out: &mut Vec<char>,
    capabilities: &TerminalCapabilities,
    regions: &Vec<HighlightRegion>,
)
    ensures
        final(out)@ == old(out)@ + regions_out(capabilities.style, regions@),
{
    let mut i: usize = 0;
    proof {
        assert(regions@.take(0) =~= Seq::<HighlightRegion>::empty());
    }
    while i < regions.len()
        invariant
            i <= regions.len(),
            out@ == old(out)@ + regions_out(capabilities.style, regions@.take(i as int)),
        decreases regions.len() - i,
    {
        let style = regions[i].style();
        let mut text: Vec<char> = Vec::new();
        append_str(&mut text, regions[i].text.as_str());
        write_styled(out, capabilities, &style, &text);
        proof {
            lemma_regions_out_take(capabilities.style, regions@, i as int);
        }
        i = i + 1;
    }
    proof {
        assert(regions@.take(regions@.len() as int) =~= regions@);
    }
}

} // verus!
