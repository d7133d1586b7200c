//! Hyperlinks: `[label](destination)` and `[label](destination title)`.
use crate::error::ParseError;
use crate::markdown::{opt_view, Span, SpanView};
use crate::parse::scan::{run_len, tag, take_till1, Stop};
use crate::parse::span::emphasis::span_outcome;
use crate::parse::span::laws::lemma_link_conserves;
use vstd::prelude::*;

verus! {

/// A non-empty run between two fixed strings: `open`, then the longest run
/// up to a stop character, then `close`. The result is the input behind
/// `close` and the run. A missing `open` or `close` is malformed syntax, an
/// empty run an empty match.
pub open spec fn enclosed(s: Seq<char>, open: Seq<char>, stop: Stop, close: Seq<char>) -> Result<
    (Seq<char>, Seq<char>),
    ParseError,
> {
    if !open.is_prefix_of(s) {
        Err(ParseError::MalformedLinkSyntax)
    } else {
        let body = s.skip(open.len() as int);
        let n = run_len(body, stop) as int;
        if n == 0 {
            Err(ParseError::EmptyMatch)
        } else if !close.is_prefix_of(body.skip(n)) {
            Err(ParseError::MalformedLinkSyntax)
        } else {
            Ok((body.skip(n).skip(close.len() as int), body.take(n)))
        }
    }
}

/// The label of a link: `[`, a run without `]` or a line break, `]`.
pub open spec fn link_label(s: Seq<char>) -> Result<(Seq<char>, Seq<char>), ParseError> {
    enclosed(s, seq!['['], Stop::Bracket, seq![']'])
}

/// A destination with a title: `(`, a run without a space, a line break or
/// `)`, one space, a run without `)` or a line break, `)`.
pub open spec fn url_title(s: Seq<char>) -> Result<
    (Seq<char>, (Seq<char>, Option<Seq<char>>)),
    ParseError,
> {
    match enclosed(s, seq!['('], Stop::Destination, seq![' ']) {
        Err(e) => Err(e),
        Ok((rest, dest)) => {
            let m = run_len(rest, Stop::Title) as int;
            if m == 0 {
                Err(ParseError::EmptyMatch)
            } else if !seq![')'].is_prefix_of(rest.skip(m)) {
                Err(ParseError::MalformedLinkSyntax)
            } else {
                Ok((rest.skip(m).skip(1), (dest, Some(rest.take(m)))))
            }
        },
    }
}

/// A destination without a title: `(`, a run without a space, a line break
/// or `)`, `)`.
pub open spec fn url_not_title(s: Seq<char>) -> Result<
    (Seq<char>, (Seq<char>, Option<Seq<char>>)),
    ParseError,
> {
    match enclosed(s, seq!['('], Stop::Destination, seq![')']) {
        Err(e) => Err(e),
        Ok((rest, dest)) => Ok((rest, (dest, None))),
    }
}

/// The parenthesised part of a link or an image: with a title where that
/// form matches, else without one.
pub open spec fn link_url(s: Seq<char>) -> Result<
    (Seq<char>, (Seq<char>, Option<Seq<char>>)),
    ParseError,
> {
    if url_title(s) is Ok {
        url_title(s)
    } else {
        url_not_title(s)
    }
}

/// A link: its label, directly followed by its parenthesised part.
pub open spec fn link(s: Seq<char>) -> Result<(Seq<char>, SpanView), ParseError> {
    match link_label(s) {
        Err(e) => Err(e),
        Ok((rest, label)) => match link_url(rest) {
            Err(e) => Err(e),
            Ok((after, (dest, title))) => Ok((after, SpanView::Link(label, dest, title))),
        },
    }
}

/// What a parser of one string returns, as values.
pub open spec fn text_outcome(r: Result<(&str, String), ParseError>) -> Result<
    (Seq<char>, Seq<char>),
    ParseError,
> {
    match r {
        Ok((rest, text)) => Ok((rest@, text@)),
        Err(e) => Err(e),
    }
}

/// What a parser of a destination and its optional title returns, as
/// values.
pub open spec fn url_outcome(r: Result<(&str, (String, Option<String>)), ParseError>) -> Result<
    (Seq<char>, (Seq<char>, Option<Seq<char>>)),
    ParseError,
> {
    match r {
        Ok((rest, (dest, title))) => Ok((rest@, (dest@, opt_view(title)))),
        Err(e) => Err(e),
    }
}

/// Reads `open`, a non-empty run up to a stop character, and `close`.
pub fn parse_enclosed<'a>(i: &'a str, open: &str, stop: Stop, close: &str) -> (r: Result<
    (&'a str, String),
    ParseError,
>)
    ensures
        text_outcome(r) == enclosed(i@, open@, stop, close@),
{
    let body = match tag(open, i) {
        Ok((body, _)) => body,
        Err(_) => {
            return Err(ParseError::MalformedLinkSyntax);
        },
    };
    let (tail, run) = match take_till1(stop, body) {
        Ok(found) => found,
        Err(_) => {
            return Err(ParseError::EmptyMatch);
        },
    };
    match tag(close, tail) {
        Ok((rest, _)) => Ok((rest, run.to_owned())),
        Err(_) => Err(ParseError::MalformedLinkSyntax),
    }
}

/// Reads the label of a link.
pub fn parse_span_link_text(i: &str) -> (r: Result<(&str, String), ParseError>)
    ensures
        text_outcome(r) == link_label(i@),
{
    proof {
        reveal_strlit("[");
        reveal_strlit("]");
        assert("["@ =~= seq!['[']);
        assert("]"@ =~= seq![']']);
    }
    parse_enclosed(i, "[", Stop::Bracket, "]")
}

/// Reads a parenthesised destination with a title.
pub fn parse_span_url_title(i: &str) -> (r: Result<(&str, (String, Option<String>)), ParseError>)
    ensures
        url_outcome(r) == url_title(i@),
{
    proof {
        reveal_strlit("(");
        reveal_strlit(" ");
        reveal_strlit(")");
        assert("("@ =~= seq!['(']);
        assert(" "@ =~= seq![' ']);
        assert(")"@ =~= seq![')']);
    }
    let (rest, dest) = match parse_enclosed(i, "(", Stop::Destination, " ") {
        Ok(found) => found,
        Err(e) => {
            return Err(e);
        },
    };
    let (tail, title) = match take_till1(Stop::Title, rest) {
        Ok(found) => found,
        Err(_) => {
            return Err(ParseError::EmptyMatch);
        },
    };
    match tag(")", tail) {
        Ok((after, _)) => Ok((after, (dest, Some(title.to_owned())))),
        Err(_) => Err(ParseError::MalformedLinkSyntax),
    }
}

/// Reads a parenthesised destination without a title.
pub fn parse_span_url_not_title(i: &str) -> (r: Result<
    (&str, (String, Option<String>)),
    ParseError,
>)
    ensures
        url_outcome(r) == url_not_title(i@),
{
    proof {
        reveal_strlit("(");
        reveal_strlit(")");
        assert("("@ =~= seq!['(']);
        assert(")"@ =~= seq![')']);
    }
    match parse_enclosed(i, "(", Stop::Destination, ")") {
        Ok((rest, dest)) => Ok((rest, (dest, None))),
        Err(e) => Err(e),
    }
}

/// Reads the parenthesised part of a link or an image.
pub fn parse_span_link_url(i: &str) -> (r: Result<(&str, (String, Option<String>)), ParseError>)
    ensures
        url_outcome(r) == link_url(i@),
{
    if let Ok(found) = parse_span_url_title(i) {
        return Ok(found);
    }
    parse_span_url_not_title(i)
}

/// Reads a link.
pub fn parse_span_link(i: &str) -> (r: Result<(&str, Span), ParseError>)
    ensures
        span_outcome(r) == link(i@),
        r matches Ok((rest, span)) ==> i@ == span@.render() + rest@,
{
    proof {
        lemma_link_conserves(i@);
    }
    let (rest, label) = match parse_span_link_text(i) {
        Ok(found) => found,
        Err(e) => {
            return Err(e);
        },
    };
    match parse_span_link_url(rest) {
        Ok((after, (dest, title))) => Ok((after, Span::Link(label, dest, title))),
        Err(e) => Err(e),
    }
}

} // verus!
