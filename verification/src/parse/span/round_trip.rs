//! Spans are read line by line: what follows a line has no part in how the
//! line is read. With character conservation this makes rendering and
//! reading again stable.
use crate::error::ParseError;
use crate::markdown::render_all;
use crate::parse::block::at_line_end;
use crate::parse::scan::{first_line, lemma_run_len, run_len, single_line, Stop};
use crate::parse::span::emphasis::{closing_scan, emphasis, opening_token, Strength};
use crate::parse::span::laws::{lemma_span_conserves, lemma_spans_conserve};
use crate::parse::span::link::{enclosed, link, link_label, link_url, url_not_title, url_title};
use crate::parse::span::tokenspan::{
    fixed_token, lemma_next_token_total, lemma_token_consumes, next_token, star_token, TokenView,
};
use crate::parse::span::{span_at, spans_of, text_span};
use vstd::prelude::*;

verus! {

/// The result of a parser on an input, seen from a longer input: the same
/// value or failure, with `b` behind what was left over.
pub open spec fn followed_by<T>(r: Result<(Seq<char>, T), ParseError>, b: Seq<char>) -> Result<
    (Seq<char>, T),
    ParseError,
> {
    match r {
        Ok((rest, value)) => Ok((rest + b, value)),
        Err(e) => Err(e),
    }
}

/// A run that ends at a line break at the latest is the same whatever
/// follows the line.
pub proof fn lemma_run_local(a: Seq<char>, b: Seq<char>, stop: Stop)
    requires
        at_line_end(b),
        stop.holds('\n'),
    ensures
        run_len(a + b, stop) == run_len(a, stop),
    decreases a.len(),
{
    if a.len() == 0 {
        assert(a + b =~= b);
    } else {
        assert((a + b)[0] == a[0]);
        if !stop.holds(a[0]) {
            assert((a + b).skip(1) =~= a.skip(1) + b);
            lemma_run_local(a.skip(1), b, stop);
        }
    }
}

/// Whether a tag without a line break matches is the same whatever follows
/// the line.
pub proof fn lemma_tag_local(a: Seq<char>, b: Seq<char>, t: Seq<char>)
    requires
        at_line_end(b),
        single_line(t),
    ensures
        t.is_prefix_of(a + b) <==> t.is_prefix_of(a),
        t.is_prefix_of(a) ==> (a + b).skip(t.len() as int) == a.skip(t.len() as int) + b,
{
    if t.is_prefix_of(a) {
        assert((a + b).subrange(0, t.len() as int) =~= a.subrange(0, t.len() as int));
        assert((a + b).skip(t.len() as int) =~= a.skip(t.len() as int) + b);
    }
    if t.is_prefix_of(a + b) {
        if t.len() > a.len() {
            assert((a + b).subrange(0, t.len() as int)[a.len() as int] == b[0]);
            assert(t[a.len() as int] != '\n');
        } else {
            assert((a + b).subrange(0, t.len() as int) =~= a.subrange(0, t.len() as int));
        }
    }
}

/// A fixed token is read the same whatever follows the line.
pub proof fn lemma_fixed_token_local(a: Seq<char>, b: Seq<char>, t: Seq<char>, token: TokenView)
    requires
        at_line_end(b),
        single_line(t),
    ensures
        fixed_token(a + b, t, token) == followed_by(fixed_token(a, t, token), b),
{
    lemma_tag_local(a, b, t);
}

/// A run of `*` is read the same whatever follows the line.
pub proof fn lemma_star_token_local(a: Seq<char>, b: Seq<char>)
    requires
        at_line_end(b),
    ensures
        star_token(a + b) == followed_by(star_token(a), b),
{
    lemma_fixed_token_local(a, b, seq!['*', '*', '*'], TokenView::BoldItalic);
    lemma_fixed_token_local(a, b, seq!['*', '*'], TokenView::Bold);
    lemma_fixed_token_local(a, b, seq!['*'], TokenView::Italic);
}

/// The next token of a line that is not used up is the same whatever
/// follows the line; where the line is used up, there is no token or the
/// end of the line.
pub proof fn lemma_token_local(a: Seq<char>, b: Seq<char>)
    requires
        at_line_end(b),
    ensures
        a.len() > 0 ==> next_token(a + b) == followed_by(next_token(a), b),
        a.len() == 0 ==> next_token(a + b) is Err || next_token(a + b)->Ok_0.1 is Finish,
{
    lemma_next_token_total(a);
    lemma_next_token_total(a + b);
    if a.len() == 0 {
        assert(a + b =~= b);
    } else {
        assert((a + b)[0] == a[0]);
        lemma_fixed_token_local(a, b, seq!['~'], TokenView::Strikeout);
        lemma_star_token_local(a, b);
        lemma_run_local(a, b, Stop::Delimiter);
        lemma_run_len(a, Stop::Delimiter);
        let n = run_len(a, Stop::Delimiter) as int;
        assert((a + b).skip(n) =~= a.skip(n) + b);
        assert((a + b).take(n) =~= a.take(n));
        if a[0] == '\n' {
            assert(next_token(a) == Ok::<(Seq<char>, TokenView), ParseError>(
                (a, TokenView::Finish),
            ));
        }
    }
}

/// The scan for a closing token gives the same tokens whatever follows the
/// line.
pub proof fn lemma_scan_local(a: Seq<char>, b: Seq<char>, strength: Strength)
    requires
        at_line_end(b),
    ensures
        closing_scan(a + b, strength) == (match closing_scan(a, strength) {
            Some((after, tokens)) => Some((after + b, tokens)),
            None => None,
        }),
    decreases a.len(),
{
    lemma_token_local(a, b);
    lemma_token_consumes(a);
    lemma_token_consumes(a + b);
    if a.len() > 0 {
        if let Ok((rest, token)) = next_token(a) {
            if !(token is Finish) && !strength.accepts(token) {
                lemma_scan_local(rest, b, strength);
            }
        }
    }
}

/// An emphasis span is read the same whatever follows the line.
pub proof fn lemma_emphasis_local(a: Seq<char>, b: Seq<char>, strength: Strength)
    requires
        at_line_end(b),
    ensures
        emphasis(a + b, strength) == followed_by(emphasis(a, strength), b),
{
    lemma_fixed_token_local(a, b, seq!['~'], TokenView::Strikeout);
    lemma_star_token_local(a, b);
    assert(opening_token(a + b, strength) == followed_by(opening_token(a, strength), b));
    if let Ok((rest, opener)) = opening_token(a, strength) {
        lemma_scan_local(rest, b, strength);
    }
}

/// An enclosed run whose tags hold no line break, and which ends at a line
/// break at the latest, is read the same whatever follows the line.
pub proof fn lemma_enclosed_local(
    a: Seq<char>,
    b: Seq<char>,
    open: Seq<char>,
    stop: Stop,
    close: Seq<char>,
)
    requires
        at_line_end(b),
        single_line(open),
        single_line(close),
        stop.holds('\n'),
    ensures
        enclosed(a + b, open, stop, close) == followed_by(enclosed(a, open, stop, close), b),
{
    lemma_tag_local(a, b, open);
    if open.is_prefix_of(a) {
        let body = a.skip(open.len() as int);
        lemma_run_local(body, b, stop);
        lemma_run_len(body, stop);
        let n = run_len(body, stop) as int;
        assert((body + b).skip(n) =~= body.skip(n) + b);
        assert((body + b).take(n) =~= body.take(n));
        lemma_tag_local(body.skip(n), b, close);
    }
}

/// The parenthesised part of a link is read the same whatever follows the
/// line.
pub proof fn lemma_link_url_local(a: Seq<char>, b: Seq<char>)
    requires
        at_line_end(b),
    ensures
        url_title(a + b) == followed_by(url_title(a), b),
        url_not_title(a + b) == followed_by(url_not_title(a), b),
        link_url(a + b) == followed_by(link_url(a), b),
{
    lemma_enclosed_local(a, b, seq!['('], Stop::Destination, seq![' ']);
    lemma_enclosed_local(a, b, seq!['('], Stop::Destination, seq![')']);
    if let Ok((rest, dest)) = enclosed(a, seq!['('], Stop::Destination, seq![' ']) {
        lemma_run_local(rest, b, Stop::Title);
        lemma_run_len(rest, Stop::Title);
        let m = run_len(rest, Stop::Title) as int;
        assert((rest + b).skip(m) =~= rest.skip(m) + b);
        assert((rest + b).take(m) =~= rest.take(m));
        lemma_tag_local(rest.skip(m), b, seq![')']);
    }
}

/// A link is read the same whatever follows the line.
pub proof fn lemma_link_local(a: Seq<char>, b: Seq<char>)
    requires
        at_line_end(b),
    ensures
        link(a + b) == followed_by(link(a), b),
{
    lemma_enclosed_local(a, b, seq!['['], Stop::Bracket, seq![']']);
    if let Ok((rest, label)) = link_label(a) {
        lemma_link_url_local(rest, b);
    }
}

/// Plain text is read the same whatever follows the line.
pub proof fn lemma_text_local(a: Seq<char>, b: Seq<char>)
    requires
        at_line_end(b),
    ensures
        text_span(a + b) == followed_by(text_span(a), b),
{
    lemma_run_local(a, b, Stop::LineBreak);
    lemma_run_len(a, Stop::LineBreak);
    let n = run_len(a, Stop::LineBreak) as int;
    assert((a + b).skip(n) =~= a.skip(n) + b);
    assert((a + b).take(n) =~= a.take(n));
}

/// A span is read the same whatever follows the line.
pub proof fn lemma_span_local(a: Seq<char>, b: Seq<char>)
    requires
        at_line_end(b),
    ensures
        span_at(a + b) == followed_by(span_at(a), b),
{
    lemma_link_local(a, b);
    lemma_emphasis_local(a, b, Strength::Strikeout);
    lemma_emphasis_local(a, b, Strength::BoldItalic);
    lemma_emphasis_local(a, b, Strength::Bold);
    lemma_emphasis_local(a, b, Strength::Italic);
    lemma_text_local(a, b);
}

/// The spans of a line are the same whatever follows the line.
pub proof fn lemma_spans_local(a: Seq<char>, b: Seq<char>)
    requires
        at_line_end(b),
    ensures
        spans_of(a + b) == (spans_of(a).0 + b, spans_of(a).1),
    decreases a.len(),
{
    lemma_span_local(a, b);
    lemma_span_conserves(a);
    lemma_span_conserves(a + b);
    match span_at(a) {
        Err(_) => {},
        Ok((rest, span)) => {
            lemma_spans_local(rest, b);
        },
    }
}

/// Re-rendering is stable under one round trip: the spans read from a line,
/// written back as markup and read again, are the same spans.
pub proof fn lemma_round_trip(s: Seq<char>)
    ensures
        spans_of(render_all(spans_of(s).1)).1 == spans_of(s).1,
{
    lemma_spans_conserve(s);
    lemma_run_len(s, Stop::LineBreak);
    let line = first_line(s);
    let rest = s.skip(run_len(s, Stop::LineBreak) as int);
    assert(s =~= line + rest);
    lemma_spans_local(line, rest);
}

} // verus!
