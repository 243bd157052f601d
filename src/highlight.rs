//! Terminal highlighting of the terms being removed and added.

use crate::text::{replace_all, replace_term};
use ansi_term::Color;
use vstd::prelude::*;

verus! {

/// How a term is marked on the terminal.
#[derive(Clone, Copy, Debug, PartialEq, Eq, Structural)]
pub enum Highlight {
    /// The term that goes away: red.
    Removed,
    /// The term that comes in: green.
    Added,
}

/// The escape sequence that starts the colour of `kind`.
pub open spec fn color_prefix(kind: Highlight) -> Seq<char> {
    match kind {
        Highlight::Removed => seq!['\u{1b}', '[', '3', '1', 'm'],
        Highlight::Added => seq!['\u{1b}', '[', '3', '2', 'm'],
    }
}

/// The escape sequence that resets the terminal's style.
pub open spec fn color_reset() -> Seq<char> {
    seq!['\u{1b}', '[', '0', 'm']
}

/// `text` coloured as `kind` asks.
pub open spec fn painted(kind: Highlight, text: Seq<char>) -> Seq<char> {
    color_prefix(kind) + text + color_reset()
}

/// Relies on ansi_term's `Colour::paint` and the `Display` of the painted
/// string: a colour's normal style writes `ESC [ 3x m`, the text, then `ESC [ 0 m`.
#[verifier::external_body]
fn paint(kind: Highlight, text: &str) -> (r: String)
    ensures
        r@ == painted(kind, text@),
{
    let color = match kind {
        Highlight::Removed => Color::Red,
        Highlight::Added => Color::Green,
    };
    color.paint(text).to_string()
}

/// `line` with every occurrence of `old` replaced by `new` painted as `kind`.
pub fn replace_terms_and_highlight(line: &str, old: &str, new: &str, kind: Highlight) -> (r:
    String)
    ensures
        r@ == replace_all(line@, old@, painted(kind, new@)),
{
    let colored = paint(kind, new);
    replace_term(line, old, colored.as_str())
}

} // verus!
