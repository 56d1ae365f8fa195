//! Styled text output: raw when the terminal takes no styling, bracketed
//! in SGR escape sequences when it does.
//!
//! Every styled span the renderer emits passes through [`write_styled`],
//! which also guarantees the escape-stripping round trip span by span:
//! stripping SGR sequences from what was written yields the raw text
//! back, whatever the style capability.  The round trip is stated per
//! span because it is a fact about each `paint` call's result; the name
//! [`painted`] carries no free-standing axiom about its shape.

use vstd::prelude::*;
use crate::style::{default_style, Colour, Style};
use crate::strutil::append_chars;
use crate::terminal::{StyleCapability, TerminalCapabilities};

verus! {

/// What `ansi_term` emits for `text` under the given style attributes.
/// The result is a function of the attributes and the text alone.
pub uninterp spec fn painted(
    fg: Option<Colour>,
    bold: bool,
    italic: bool,
    underline: bool,
    strikethrough: bool,
    text: Seq<char>,
) -> Seq<char>;

/// Styled text as emitted to an ANSI-capable terminal: `ansi_term` brackets
/// the text in escape sequences, except that the default style produces no
/// sequences at all and leaves the text unchanged.
pub open spec fn ansi_styled_seq(st: Style, text: Seq<char>) -> Seq<char> {
    if st == default_style() {
        text
    } else {
        painted(st.fg, st.bold, st.italic, st.underline, st.strikethrough, text)
    }
}

/// Styled text as emitted under the given style capability: the bare text
/// for a terminal without styling, SGR-bracketed text otherwise.
pub open spec fn styled_seq(cap: StyleCapability, st: Style, text: Seq<char>) -> Seq<char> {
    match cap {
        StyleCapability::Plain => text,
        StyleCapability::Ansi => ansi_styled_seq(st, text),
    }
}

/// Whether `s` is empty or one complete SGR escape sequence: `ESC [`,
/// digits and semicolons, then `m`.
pub open spec fn is_sgr_chunk(s: Seq<char>) -> bool {
    s.len() == 0 || (s.len() >= 3 && s[0] == '\x1b' && s[1] == '[' && s.last() == 'm' && forall|
        i: int,
    |
        2 <= i < s.len() - 1 ==> (#[trigger] s[i] == ';' || ('0' <= s[i] && s[i] <= '9')))
}

/// Whether `s` contains no escape character at all.
pub open spec fn esc_free(s: Seq<char>) -> bool {
    forall|i: int| 0 <= i < s.len() ==> #[trigger] s[i] != '\x1b'
}

/// The position of the first `m` in `s`, or `s.len()` when there is none.
pub open spec fn first_m(s: Seq<char>) -> nat
    decreases s.len(),
{
    if s.len() == 0 {
        0
    } else if s.first() == 'm' {
        0
    } else {
        1 + first_m(s.drop_first())
    }
}

/// `s` with every SGR escape sequence removed: an escape character
/// swallows everything up to and including the next `m`.
pub open spec fn strip_sgr(s: Seq<char>) -> Seq<char>
    decreases s.len(),
{
    if s.len() == 0 {
        s
    } else if s.first() == '\x1b' {
        let k = first_m(s);
        if k >= s.len() {
            Seq::empty()
        } else {
            strip_sgr(s.skip(k as int + 1))
        }
    } else {
        seq![s.first()] + strip_sgr(s.drop_first())
    }
}

/// `first_m` is exactly the position of the first `m`.
proof fn lemma_first_m_at(s: Seq<char>, k: int)
    requires
        0 <= k <= s.len(),
        forall|i: int| 0 <= i < k ==> s[i] != 'm',
        k < s.len() ==> s[k] == 'm',
    ensures
        first_m(s) == k,
    decreases k,
{
    if k == 0 {
        if s.len() > 0 {
            assert(s.first() == 'm');
        }
    } else {
        assert(s[0] != 'm');
        assert(s.first() != 'm');
        assert forall|i: int| 0 <= i < k - 1 implies s.drop_first()[i] != 'm' by {
            assert(s.drop_first()[i] == s[i + 1]);
        }
        if k - 1 < s.drop_first().len() {
            assert(s.drop_first()[k - 1] == s[k]);
        }
        lemma_first_m_at(s.drop_first(), k - 1);
    }
}

/// Stripping passes escape-free text through unchanged.
proof fn lemma_strip_esc_free(t: Seq<char>, rest: Seq<char>)
    requires
        esc_free(t),
    ensures
        strip_sgr(t + rest) == t + strip_sgr(rest),
    decreases t.len(),
{
    if t.len() == 0 {
        assert(t + rest =~= rest);
        assert(t + strip_sgr(rest) =~= strip_sgr(rest));
    } else {
        let s = t + rest;
        assert(s.first() == t[0]);
        assert(t[0] != '\x1b');
        assert(s.drop_first() =~= t.drop_first() + rest);
        assert forall|i: int| 0 <= i < t.drop_first().len() implies #[trigger] t.drop_first()[i]
            != '\x1b' by {
            assert(t.drop_first()[i] == t[i + 1]);
        }
        lemma_strip_esc_free(t.drop_first(), rest);
        assert(seq![t[0]] + (t.drop_first() + strip_sgr(rest)) =~= t + strip_sgr(rest));
    }
}

/// Stripping swallows one complete SGR chunk at the front.
proof fn lemma_strip_sgr_chunk(c: Seq<char>, rest: Seq<char>)
    requires
        is_sgr_chunk(c),
    ensures
        strip_sgr(c + rest) == strip_sgr(rest),
    decreases c.len(),
{
    if c.len() == 0 {
        assert(c + rest =~= rest);
    } else {
        let s = c + rest;
        assert(s.first() == c[0]);
        assert(c[0] == '\x1b');
        assert(c[0] != 'm');
        assert(c[1] == '[');
        assert(c[1] != 'm');
        assert forall|i: int| 0 <= i < c.len() - 1 implies s[i] != 'm' by {
            assert(s[i] == c[i]);
            if 2 <= i {
                assert(c[i] == ';' || ('0' <= c[i] && c[i] <= '9'));
            }
        }
        assert(s[c.len() - 1] == c.last());
        assert(s[c.len() - 1] == 'm');
        lemma_first_m_at(s, c.len() - 1);
        assert(first_m(s) == c.len() - 1);
        assert(first_m(s) < s.len());
        assert(s.skip(c.len() as int) =~= rest);
        assert(strip_sgr(s) == strip_sgr(rest));
    }
}

/// The stripping round trip for one styled span: whatever SGR brackets
/// were put around escape-free text, stripping them yields the text back.
pub proof fn lemma_sgr_bracketing_strips(text: Seq<char>, s: Seq<char>)
    requires
        sgr_bracketing_of(text, s),
        esc_free(text),
    ensures
        strip_sgr(s) == text,
{
    let (pre, suf) = choose|pre: Seq<char>, suf: Seq<char>|
        #![trigger is_sgr_chunk(pre), is_sgr_chunk(suf)]
        s == pre + text + suf && is_sgr_chunk(pre) && is_sgr_chunk(suf);
    assert(s =~= pre + (text + suf));
    lemma_strip_sgr_chunk(pre, text + suf);
    lemma_strip_esc_free(text, suf);
    assert(suf =~= suf + Seq::<char>::empty());
    lemma_strip_sgr_chunk(suf, Seq::empty());
    assert(strip_sgr(Seq::<char>::empty()) =~= Seq::<char>::empty());
    assert(text + Seq::<char>::empty() =~= text);
}

/// Whether `s` is `text` bracketed by one (possibly empty) SGR sequence on
/// each side.  Stripping escape sequences from such an `s` yields `text`.
pub open spec fn sgr_bracketing_of(text: Seq<char>, s: Seq<char>) -> bool {
    exists|pre: Seq<char>, suf: Seq<char>|
        s == pre + text + suf && is_sgr_chunk(pre) && is_sgr_chunk(suf)
}

/// Relies on `ansi_term::Style::paint`: the painted string is the style's
/// SGR prefix, the text, then the reset suffix; for the default (plain)
/// style prefix and suffix are empty and the text passes through unchanged.
#[verifier::external_body]
fn paint_append(out: &mut Vec<char>, st: &Style, text: &Vec<char>)
    ensures
        final(out)@ == old(out)@ + ansi_styled_seq(*st, text@),
        final(out)@ == old(out)@ + (if *st == default_style() {
            text@
        } else {
            painted(st.fg, st.bold, st.italic, st.underline, st.strikethrough, text@)
        }),
        sgr_bracketing_of(text@, final(out)@.skip(old(out)@.len() as int)),
{
    let foreground = st.fg.map(|c| match c {
        Colour::Black => ansi_term::Colour::Black, Colour::Red => ansi_term::Colour::Red,
        Colour::Green => ansi_term::Colour::Green, Colour::Yellow => ansi_term::Colour::Yellow,
        Colour::Blue => ansi_term::Colour::Blue, Colour::Purple => ansi_term::Colour::Purple,
        Colour::Cyan => ansi_term::Colour::Cyan, Colour::White => ansi_term::Colour::White,
        Colour::Rgb(r, g, b) => ansi_term::Colour::RGB(r, g, b),
    });
    let style = ansi_term::Style {
        foreground, is_bold: st.bold, is_italic: st.italic, is_underline: st.underline,
        is_strikethrough: st.strikethrough, ..ansi_term::Style::default()
    };
    let text_string: String = text.iter().collect();
    out.extend(style.paint(text_string).to_string().chars());
}

/// Write `text` to `out` in the given `style`, respecting the terminal's
/// style capability.
///
/// Whatever the capability, stripping SGR escape sequences from the span
/// just written yields exactly the raw text again, provided the text
/// itself carries no escape character: the visible characters are the
/// same under every style capability.
pub fn write_styled(
    out: &mut Vec<char>,
    capabilities: &TerminalCapabilities,
    style: &Style,
    text: &Vec<char>,
)
    ensures
        final(out)@ == old(out)@ + styled_seq(capabilities.style, *style, text@),
        esc_free(text@) ==> strip_sgr(final(out)@.skip(old(out)@.len() as int)) == text@,
{
    let ghost pre = out@;
    match capabilities.style {
        StyleCapability::Plain => {
            append_chars(out, text);
            proof {
                assert(out@.skip(pre.len() as int) =~= text@);
                if esc_free(text@) {
                    lemma_strip_esc_free(text@, Seq::empty());
                    assert(text@ + Seq::<char>::empty() =~= text@);
                    assert(strip_sgr(Seq::<char>::empty()) =~= Seq::<char>::empty());
                    assert(text@ + strip_sgr(Seq::<char>::empty()) =~= text@);
                }
            }
        },
        StyleCapability::Ansi => {
            paint_append(out, style, text);
            proof {
                if esc_free(text@) {
                    lemma_sgr_bracketing_strips(text@, out@.skip(pre.len() as int));
                }
            }
        },
    }
}

} // verus!
