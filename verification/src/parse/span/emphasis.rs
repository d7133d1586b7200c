//! The emphasis resolver: closes a span of a declared strength at the first
//! delimiter that can close it, and keeps as text every delimiter character
//! the span did not need.
use crate::error::ParseError;
use crate::markdown::{Span, SpanView};
use crate::parse::scan::single_line;
use crate::parse::span::laws::{lemma_emphasis_conserves, lemma_resolved_conserves};
use crate::parse::span::tokenspan::{
    lemma_next_token_total, lemma_token_consumes, next_token, parse_three, parse_token, parse_token_strikeout,
    star_token, strikeout_token, TokenSpan, TokenView,
};
use vstd::prelude::*;

verus! {

/// The kind of span the resolver is trying to close.
#[derive(Clone, Copy, Debug, PartialEq, Eq, Structural)]
pub enum Strength {
    /// One `*` on each side.
    Italic,
    /// Two `*` on each side.
    Bold,
    /// Three `*` on each side.
    BoldItalic,
    /// One `~` on each side.
    Strikeout,
}

impl Strength {
    /// The delimiter this strength takes from the run that opens the span
    /// and from the run that closes it.
    pub open spec fn marker(self) -> Seq<char> {
        match self {
            Strength::Italic => seq!['*'],
            Strength::Bold => seq!['*', '*'],
            Strength::BoldItalic => seq!['*', '*', '*'],
            Strength::Strikeout => seq!['~'],
        }
    }

    /// Whether `token` can open or close a span of this strength: a run of
    /// at least as many `*` as the strength takes, or `~` for a
    /// strikethrough.
    pub open spec fn accepts(self, token: TokenView) -> bool {
        match self {
            Strength::Italic => token.possible_italic(),
            Strength::Bold => token.possible_bold(),
            Strength::BoldItalic => token is BoldItalic,
            Strength::Strikeout => token is Strikeout,
        }
    }

    /// What `token` leaves as text inside a span of this strength. A token
    /// that opens or closes the span leaves the characters the span did not
    /// take; any other token is kept whole.
    pub open spec fn fold(self, token: TokenView) -> Seq<char> {
        match self {
            Strength::Italic => token.literal_italic(),
            Strength::Bold => token.literal_bold(),
            Strength::BoldItalic => if token is BoldItalic {
                Seq::empty()
            } else {
                token.literal()
            },
            Strength::Strikeout => if token is Strikeout {
                Seq::empty()
            } else {
                token.literal()
            },
        }
    }

    /// The span of this strength with the given content.
    pub open spec fn span(self, content: Seq<char>) -> SpanView {
        match self {
            Strength::Italic => SpanView::Italic(content),
            Strength::Bold => SpanView::Bold(content),
            Strength::BoldItalic => SpanView::BoldItalic(content),
            Strength::Strikeout => SpanView::Strikeout(content),
        }
    }

    /// Whether `token` can open or close a span of this strength.
    pub fn is_compatible(self, token: &TokenSpan) -> (b: bool)
        ensures
            b == self.accepts(token@),
    {
        match self {
            Strength::Italic => token.is_possible_italic(),
            Strength::Bold => token.is_possible_bold(),
            Strength::BoldItalic => match token {
                TokenSpan::BoldItalic => true,
                _ => false,
            },
            Strength::Strikeout => match token {
                TokenSpan::Strikeout => true,
                _ => false,
            },
        }
    }

    /// The text `token` leaves inside a span of this strength.
    pub fn display<'a>(self, token: &'a TokenSpan) -> (r: &'a str)
        ensures
            r@ == self.fold(token@),
    {
        proof {
            reveal_strlit("");
        }
        match self {
            Strength::Italic => token.display_italic(),
            Strength::Bold => token.display_bold(),
            Strength::BoldItalic => match token {
                TokenSpan::BoldItalic => {
                    assert(""@ =~= Seq::<char>::empty());
                    ""
                },
                _ => token.display(),
            },
            Strength::Strikeout => match token {
                TokenSpan::Strikeout => {
                    assert(""@ =~= Seq::<char>::empty());
                    ""
                },
                _ => token.display(),
            },
        }
    }

    /// Builds the span of this strength around `content`.
    pub fn wrap(self, content: String) -> (span: Span)
        ensures
            span@ == self.span(content@),
    {
        match self {
            Strength::Italic => Span::Italic(content),
            Strength::Bold => Span::Bold(content),
            Strength::BoldItalic => Span::BoldItalic(content),
            Strength::Strikeout => Span::Strikeout(content),
        }
    }
}

/// The values of a sequence of tokens, in order.
pub open spec fn token_views(tokens: Seq<TokenSpan>) -> Seq<TokenView> {
    tokens.map_values(|t: TokenSpan| t@)
}

/// The text a sequence of tokens leaves inside a span of the given
/// strength: what each token leaves, in order.
pub open spec fn fold_all(tokens: Seq<TokenView>, strength: Strength) -> Seq<char>
    decreases tokens.len(),
{
    if tokens.len() == 0 {
        Seq::empty()
    } else {
        fold_all(tokens.drop_last(), strength) + strength.fold(tokens.last())
    }
}

/// The tokens of `s` up to and including the first one that closes a span
/// of the given strength, with what follows that token. There is none when
/// the line or the input ends before such a token.
pub open spec fn closing_scan(s: Seq<char>, strength: Strength) -> Option<
    (Seq<char>, Seq<TokenView>),
>
    decreases s.len(),
{
    match next_token(s) {
        Err(_) => None,
        Ok((rest, token)) => if token is Finish {
            None
        } else if strength.accepts(token) {
            Some((rest, seq![token]))
        } else if rest.len() < s.len() {
            match closing_scan(rest, strength) {
                None => None,
                Some((after, tokens)) => Some((after, seq![token] + tokens)),
            }
        } else {
            None
        },
    }
}

/// What the resolver returns on `s`, the input behind an opening delimiter:
/// the folded text up to and including the closing token and the input
/// behind that token, or `Unterminated`.
pub open spec fn resolved(s: Seq<char>, strength: Strength) -> Result<
    (Seq<char>, Seq<char>),
    ParseError,
> {
    match closing_scan(s, strength) {
        None => Err(ParseError::Unterminated),
        Some((after, tokens)) => Ok((fold_all(tokens, strength), after)),
    }
}

/// What the resolver returns, as values.
pub open spec fn resolve_outcome(r: Result<(String, &str), ParseError>) -> Result<
    (Seq<char>, Seq<char>),
    ParseError,
> {
    match r {
        Ok((content, rest)) => Ok((content@, rest@)),
        Err(e) => Err(e),
    }
}

/// The token that may open a span of the given strength: `~` for a
/// strikethrough, a run of `*` for the others.
pub open spec fn opening_token(s: Seq<char>, strength: Strength) -> Result<
    (Seq<char>, TokenView),
    ParseError,
> {
    if strength is Strikeout {
        strikeout_token(s)
    } else {
        star_token(s)
    }
}

/// The span of the given strength at the start of `s`: an opening token the
/// strength accepts, then the tokens up to the first closing one. Its
/// content is what all of them, the opening and the closing one included,
/// leave as text.
pub open spec fn emphasis(s: Seq<char>, strength: Strength) -> Result<
    (Seq<char>, SpanView),
    ParseError,
> {
    match opening_token(s, strength) {
        Err(_) => Err(ParseError::NoMatch),
        Ok((rest, opener)) => if !strength.accepts(opener) {
            Err(ParseError::NoMatch)
        } else {
            match resolved(rest, strength) {
                Err(e) => Err(e),
                Ok((content, after)) => Ok((after, strength.span(strength.fold(opener) + content))),
            }
        },
    }
}

/// What a span parser returns, as values: the rest of the input and the
/// span, or the failure.
pub open spec fn span_outcome(r: Result<(&str, Span), ParseError>) -> Result<
    (Seq<char>, SpanView),
    ParseError,
> {
    match r {
        Ok((rest, span)) => Ok((rest@, span@)),
        Err(e) => Err(e),
    }
}

/// Folds accumulated tokens into the content of a span of the given
/// strength.
pub fn fold_tokens(tokens: &Vec<TokenSpan>, strength: Strength) -> (content: String)
    ensures
        content@ == fold_all(token_views(tokens@), strength),
{
    let mut content = String::new();
    let mut k: usize = 0;
    while k < tokens.len()
        invariant
            k <= tokens.len(),
            content@ == fold_all(token_views(tokens@).take(k as int), strength),
        decreases tokens.len() - k,
    {
        proof {
            let views = token_views(tokens@);
            assert(views.take(k + 1).drop_last() =~= views.take(k as int));
            assert(views.take(k + 1).last() == tokens@[k as int]@);
        }
        content.append(strength.display(&tokens[k]));
        k += 1;
    }
    proof {
        let views = token_views(tokens@);
        assert(views.take(k as int) =~= views);
    }
    content
}

/// Scans `i`, the input behind an opening delimiter, for the token that
/// closes a span of the given strength, and returns the text the scanned
/// tokens leave together with the input behind the closing token. Fails
/// with `Unterminated` where the line or the input ends first.
pub fn resolve_emphasis<'a>(i: &'a str, strength: Strength) -> (r: Result<
    (String, &'a str),
    ParseError,
>)
    ensures
        resolve_outcome(r) == resolved(i@, strength),
        r matches Ok((content, rest)) ==> i@ == content@ + strength.marker() + rest@ && single_line(
            content@,
        ),
{
    let mut tokens: Vec<TokenSpan> = Vec::new();
    let mut tmp = i;
    loop
        invariant
            match closing_scan(tmp@, strength) {
                None => closing_scan(i@, strength) is None,
                Some((after, more)) => closing_scan(i@, strength) == Some(
                    (after, token_views(tokens@) + more),
                ),
            },
        decreases tmp@.len(),
    {
        proof {
            lemma_next_token_total(tmp@);
        }
        match parse_token(tmp) {
            Err(_) => {
                return Err(ParseError::Unterminated);
            },
            Ok((rest, token)) => {
                if let TokenSpan::Finish = token {
                    return Err(ParseError::Unterminated);
                }
                proof {
                    lemma_token_consumes(tmp@);
                }
                let ghost before = token_views(tokens@);
                let closes = strength.is_compatible(&token);
                tokens.push(token);
                proof {
                    assert(token_views(tokens@) =~= before.push(token@));
                    if closes {
                        assert(before + seq![token@] =~= before.push(token@));
                    } else {
                        match closing_scan(rest@, strength) {
                            None => {},
                            Some((after, more)) => {
                                assert(before + (seq![token@] + more) =~= before.push(token@)
                                    + more);
                            },
                        }
                    }
                }
                if closes {
                    let content = fold_tokens(&tokens, strength);
                    proof {
                        lemma_resolved_conserves(i@, strength);
                    }
                    return Ok((content, rest));
                }
                tmp = rest;
            },
        }
    }
}

/// Reads the span of the given strength that starts at the beginning of
/// `i`.
pub fn parse_span_emphasis<'a>(i: &'a str, strength: Strength) -> (r: Result<
    (&'a str, Span),
    ParseError,
>)
    ensures
        span_outcome(r) == emphasis(i@, strength),
        r matches Ok((rest, span)) ==> i@ == span@.render() + rest@,
{
    proof {
        lemma_emphasis_conserves(i@, strength);
    }
    let opened = match strength {
        Strength::Strikeout => parse_token_strikeout(i),
        _ => parse_three(i),
    };
    match opened {
        Err(_) => Err(ParseError::NoMatch),
        Ok((rest, opener)) => {
            if !strength.is_compatible(&opener) {
                return Err(ParseError::NoMatch);
            }
            match resolve_emphasis(rest, strength) {
                Err(e) => Err(e),
                Ok((tail, after)) => {
                    let mut content = String::from_str(strength.display(&opener));
                    content.append(tail.as_str());
                    Ok((after, strength.wrap(content)))
                },
            }
        },
    }
}

/// Reads an italic span: a run of `*`, then everything up to the next run
/// of `*`.
pub fn parse_span_italic(i: &str) -> (r: Result<(&str, Span), ParseError>)
    ensures
        span_outcome(r) == emphasis(i@, Strength::Italic),
        r matches Ok((rest, span)) ==> i@ == span@.render() + rest@,
{
    parse_span_emphasis(i, Strength::Italic)
}

/// Reads a bold span: a run of at least two `*`, then everything up to the
/// next such run.
pub fn parse_span_bold(i: &str) -> (r: Result<(&str, Span), ParseError>)
    ensures
        span_outcome(r) == emphasis(i@, Strength::Bold),
        r matches Ok((rest, span)) ==> i@ == span@.render() + rest@,
{
    parse_span_emphasis(i, Strength::Bold)
}

/// Reads a bold-italic span: `***`, then everything up to the next `***`.
pub fn parse_span_bold_italic(i: &str) -> (r: Result<(&str, Span), ParseError>)
    ensures
        span_outcome(r) == emphasis(i@, Strength::BoldItalic),
        r matches Ok((rest, span)) ==> i@ == span@.render() + rest@,
{
    parse_span_emphasis(i, Strength::BoldItalic)
}

/// Reads a strikethrough span: `~`, then everything up to the next `~`.
pub fn parse_span_strikeout(i: &str) -> (r: Result<(&str, Span), ParseError>)
    ensures
        span_outcome(r) == emphasis(i@, Strength::Strikeout),
        r matches Ok((rest, span)) ==> i@ == span@.render() + rest@,
{
    parse_span_emphasis(i, Strength::Strikeout)
}

} // verus!
