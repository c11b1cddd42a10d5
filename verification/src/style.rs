//! Terminal styling for the text target, done by the `colored` crate.
//!
//! `colored` decides at each call whether to style at all (from the environment,
//! from whether standard output is a terminal, or from an override set by the
//! program). So a styled piece comes back in one of two shapes: as it went in, or
//! between escape codes. [`Ink`] records which, piece by piece.

use colored::Colorize;
use vstd::prelude::*;

verus! {

/// Which styled pieces of one rendering came back between escape codes.
///
/// The shape follows the tree that is rendered: `on` is for the piece that a node
/// styles itself, `sub[i]` for what lies below it in position `i`.
pub struct Ink {
    pub on: bool,
    pub sub: Seq<Ink>,
}

/// The escape character that opens every terminal code.
pub open spec fn escape() -> char {
    '\u{1b}'
}

/// The code that ends all styling.
pub open spec fn reset_code() -> Seq<char> {
    seq![escape(), '[', '0', 'm']
}

/// The code that turns italics on.
pub open spec fn italic_code() -> Seq<char> {
    seq![escape(), '[', '3', 'm']
}

/// The code that turns italics and blue on.
pub open spec fn italic_blue_code() -> Seq<char> {
    seq![escape(), '[', '3', ';', '3', '4', 'm']
}

/// What `colored` writes for an italic `text` that itself holds escape characters,
/// when it styles: it re-opens its own code after each reset found inside `text`.
pub uninterp spec fn italic_escaped(text: Seq<char>) -> Seq<char>;

/// What `colored` writes for an italic blue `text` that itself holds escape
/// characters, when it styles.
pub uninterp spec fn italic_blue_escaped(text: Seq<char>) -> Seq<char>;

/// `text` in italics, as `colored` writes it when it styles.
pub open spec fn italic_form(text: Seq<char>) -> Seq<char> {
    if text.contains(escape()) {
        italic_escaped(text)
    } else {
        italic_code() + text + reset_code()
    }
}

/// `text` in blue italics, as `colored` writes it when it styles.
pub open spec fn italic_blue_form(text: Seq<char>) -> Seq<char> {
    if text.contains(escape()) {
        italic_blue_escaped(text)
    } else {
        italic_blue_code() + text + reset_code()
    }
}

/// `text` as it reads in the output: in italics where `on`, plain where not.
pub open spec fn italic_as(text: Seq<char>, on: bool) -> Seq<char> {
    if on {
        italic_form(text)
    } else {
        text
    }
}

/// `text` as it reads in the output: in blue italics where `on`, plain where not.
pub open spec fn italic_blue_as(text: Seq<char>, on: bool) -> Seq<char> {
    if on {
        italic_blue_form(text)
    } else {
        text
    }
}

/// `colored::Colorize::italic`, written out through `Display`.
///
/// The claim: the result is `text` unchanged (no styling), or `text` between the
/// italic code and the reset code; a `text` with escape characters of its own comes
/// back, when styled, as [`italic_escaped`] names it.
#[verifier::external_body]
pub(crate) fn italic(text: &str) -> (styled: String)
    ensures
        styled@ == text@ || styled@ == (if text@.contains(escape()) {
            italic_escaped(text@)
        } else {
            italic_code() + text@ + reset_code()
        }),
{
    format!("{}", text.italic())
}

/// `colored::Colorize::italic` and then `blue`, written out through `Display`.
///
/// The claim: the result is `text` unchanged (no styling), or `text` between the
/// code for blue italics and the reset code; a `text` with escape characters of its
/// own comes back, when styled, as [`italic_blue_escaped`] names it.
#[verifier::external_body]
pub(crate) fn italic_blue(text: &str) -> (styled: String)
    ensures
        styled@ == text@ || styled@ == (if text@.contains(escape()) {
            italic_blue_escaped(text@)
        } else {
            italic_blue_code() + text@ + reset_code()
        }),
{
    format!("{}", text.italic().blue())
}

/// Appends `text` in italics to `out`, styled or not as `colored` decides;
/// the result tells which.
pub(crate) fn push_italic(out: &mut String, text: &str) -> (on: Ghost<bool>)
    ensures
        final(out)@ == old(out)@ + italic_as(text@, on@),
{
    let styled = italic(text);
    out.append(styled.as_str());
    Ghost(styled@ != text@)
}

/// Appends `text` in blue italics to `out`, styled or not as `colored` decides;
/// the result tells which.
pub(crate) fn push_italic_blue(out: &mut String, text: &str) -> (on: Ghost<bool>)
    ensures
        final(out)@ == old(out)@ + italic_blue_as(text@, on@),
{
    let styled = italic_blue(text);
    out.append(styled.as_str());
    Ghost(styled@ != text@)
}

} // verus!
