use vstd::prelude::*;

verus! {

/// Why a parser did not match. Every failure is local: the caller is free to
/// try another alternative at the same position.
#[derive(Clone, Copy, Debug, PartialEq, Eq, Structural)]
pub enum ParseError {
    /// Nothing of the expected kind starts at this position.
    NoMatch,
    /// An emphasis or strikethrough span was opened and the line ended before
    /// a closing delimiter was found.
    Unterminated,
    /// A capture that must not be empty (a link label, a destination, a run
    /// of text) matched no character.
    EmptyMatch,
    /// The brackets or parentheses of a link or an image are missing or not
    /// well formed.
    MalformedLinkSyntax,
}

} // verus!
