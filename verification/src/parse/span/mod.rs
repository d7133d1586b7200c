//! The span assembler: at each position the alternatives are tried in a
//! fixed order (link, strikethrough, bold-italic, bold, italic, plain text)
//! and the first that matches is taken.
pub mod emphasis;
pub mod laws;
pub mod link;
pub mod round_trip;
pub mod tokenspan;

pub use emphasis::{
    parse_span_bold, parse_span_bold_italic, parse_span_italic, parse_span_strikeout,
    resolve_emphasis, Strength,
};
pub use link::{
    parse_span_link, parse_span_link_text, parse_span_link_url, parse_span_url_not_title,
    parse_span_url_title,
};
pub use tokenspan::{parse_three, parse_token, parse_token_strikeout, parse_token_text, TokenSpan};

use crate::error::ParseError;
use crate::markdown::{render_all, span_views, Span, SpanView};
use crate::parse::scan::{first_line, lemma_run_len_is, run_len, Stop};
use emphasis::{emphasis, span_outcome};
use laws::{
    lemma_span_conserves, lemma_span_total, lemma_spans_conserve, lemma_spans_empty,
    lemma_text_conserves,
};
use link::link;
use tokenspan::{lemma_next_token_total, lemma_token_consumes, lemma_token_split};
use vstd::prelude::*;

verus! {

/// Plain text: everything up to the end of the line, with every delimiter
/// in it kept as a character. It must not be empty.
pub open spec fn text_span(s: Seq<char>) -> Result<(Seq<char>, SpanView), ParseError> {
    let n = run_len(s, Stop::LineBreak) as int;
    if n > 0 {
        Ok((s.skip(n), SpanView::Text(s.take(n))))
    } else {
        Err(ParseError::EmptyMatch)
    }
}

/// The alternatives for a span, by priority: 0 is the link, 1 the
/// strikethrough, 2 bold-italic, 3 bold, 4 italic, and 5 plain text.
pub open spec fn alternative(k: int, s: Seq<char>) -> Result<(Seq<char>, SpanView), ParseError> {
    if k == 0 {
        link(s)
    } else if k == 1 {
        emphasis(s, Strength::Strikeout)
    } else if k == 2 {
        emphasis(s, Strength::BoldItalic)
    } else if k == 3 {
        emphasis(s, Strength::Bold)
    } else if k == 4 {
        emphasis(s, Strength::Italic)
    } else {
        text_span(s)
    }
}

/// The span at the start of `s`: that of the first alternative that
/// matches. Where none matches, the failure is that of plain text.
pub open spec fn span_at(s: Seq<char>) -> Result<(Seq<char>, SpanView), ParseError> {
    if alternative(0, s) is Ok {
        alternative(0, s)
    } else if alternative(1, s) is Ok {
        alternative(1, s)
    } else if alternative(2, s) is Ok {
        alternative(2, s)
    } else if alternative(3, s) is Ok {
        alternative(3, s)
    } else if alternative(4, s) is Ok {
        alternative(4, s)
    } else {
        alternative(5, s)
    }
}

/// The spans of the first line of `s`, read one after the other, with what
/// is left of `s` behind them.
pub open spec fn spans_of(s: Seq<char>) -> (Seq<char>, Seq<SpanView>)
    decreases s.len(),
{
    match span_at(s) {
        Err(_) => (s, Seq::empty()),
        Ok((rest, span)) => if rest.len() < s.len() {
            let tail = spans_of(rest);
            (tail.0, seq![span] + tail.1)
        } else {
            (rest, seq![span])
        },
    }
}

/// Reads plain text: the tokens up to the end of the line, each as the
/// characters it was read from.
pub fn parse_span_text(i: &str) -> (r: Result<(&str, Span), ParseError>)
    ensures
        span_outcome(r) == text_span(i@),
        r matches Ok((rest, span)) ==> i@ == span@.render() + rest@,
{
    proof {
        lemma_text_conserves(i@);
    }
    let mut content = String::new();
    let mut tmp = i;
    let mut done = false;
    while !done
        invariant
            content@ + tmp@ == i@,
            forall|k: int| 0 <= k < content@.len() ==> content@[k] != '\n',
            done ==> tmp@.len() == 0 || tmp@[0] == '\n',
        decreases
                (if done {
                    0
                } else {
                    tmp@.len() + 1
                }),
    {
        proof {
            lemma_next_token_total(tmp@);
            lemma_token_consumes(tmp@);
            lemma_token_split(tmp@);
        }
        match parse_token(tmp) {
            Err(_) => {
                done = true;
            },
            Ok((rest, token)) => {
                if let TokenSpan::Finish = token {
                    done = true;
                } else {
                    let ghost before = content@;
                    content.append(token.display());
                    proof {
                        assert(content@ + rest@ =~= before + tmp@);
                    }
                    tmp = rest;
                }
            },
        }
    }
    proof {
        assert forall|k: int| 0 <= k < content@.len() implies !Stop::LineBreak.holds(
            #[trigger] i@[k],
        ) by {
            assert(i@[k] == content@[k]);
        }
        if tmp@.len() > 0 {
            assert(i@[content@.len() as int] == tmp@[0]);
        }
        lemma_run_len_is(i@, Stop::LineBreak, content@.len());
        assert(i@.take(content@.len() as int) =~= content@);
        assert(i@.skip(content@.len() as int) =~= tmp@);
    }
    if content.as_str().is_empty() {
        Err(ParseError::EmptyMatch)
    } else {
        Ok((tmp, Span::Text(content)))
    }
}

/// Reads the span at the start of `i`.
pub fn parse_span(i: &str) -> (r: Result<(&str, Span), ParseError>)
    ensures
        span_outcome(r) == span_at(i@),
        r is Err <==> first_line(i@).len() == 0,
        r matches Ok((rest, span)) ==> i@ == span@.render() + rest@ && rest@.len() < i@.len(),
{
    proof {
        lemma_span_conserves(i@);
        lemma_span_total(i@);
    }
    if let Ok(found) = parse_span_link(i) {
        return Ok(found);
    }
    if let Ok(found) = parse_span_strikeout(i) {
        return Ok(found);
    }
    if let Ok(found) = parse_span_bold_italic(i) {
        return Ok(found);
    }
    if let Ok(found) = parse_span_bold(i) {
        return Ok(found);
    }
    if let Ok(found) = parse_span_italic(i) {
        return Ok(found);
    }
    parse_span_text(i)
}

/// Reads the spans of the first line of `i` and returns them with what is
/// left of `i`: nothing, or the input from its first line break on.
pub fn parse_spans(i: &str) -> (r: (&str, Vec<Span>))
    ensures
        (r.0@, span_views(r.1@)) == spans_of(i@),
        render_all(span_views(r.1@)) == first_line(i@),
        r.0@ == i@.skip(run_len(i@, Stop::LineBreak) as int),
        r.1@.len() == 0 <==> first_line(i@).len() == 0,
{
    let mut spans: Vec<Span> = Vec::new();
    let mut tmp = i;
    let mut done = false;
    while !done
        invariant
            spans_of(i@) == (spans_of(tmp@).0, span_views(spans@) + spans_of(tmp@).1),
            done ==> span_at(tmp@) is Err,
        decreases
                (if done {
                    0
                } else {
                    tmp@.len() + 1
                }),
    {
        proof {
            lemma_span_conserves(tmp@);
        }
        match parse_span(tmp) {
            Err(_) => {
                done = true;
            },
            Ok((rest, span)) => {
                let ghost before = span_views(spans@);
                spans.push(span);
                proof {
                    assert(span_views(spans@) =~= before.push(span@));
                    assert(before + (seq![span@] + spans_of(rest@).1) =~= before.push(span@)
                        + spans_of(rest@).1);
                }
                tmp = rest;
            },
        }
    }
    proof {
        assert(span_views(spans@) + Seq::<SpanView>::empty() =~= span_views(spans@));
        lemma_spans_conserve(i@);
        lemma_spans_empty(i@);
    }
    (tmp, spans)
}

/// Reads the spans of the first line of `i`. This never fails: what no
/// other alternative reads is plain text, and an empty line has no span.
pub fn assemble_spans(i: &str) -> (spans: Vec<Span>)
    ensures
        span_views(spans@) == spans_of(i@).1,
        render_all(span_views(spans@)) == first_line(i@),
        spans@.len() == 0 <==> first_line(i@).len() == 0,
        i@.len() == 0 ==> spans@.len() == 0,
{
    let (_, spans) = parse_spans(i);
    spans
}

} // verus!
