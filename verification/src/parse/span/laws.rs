//! What holds of every parse: no character is lost, duplicated or
//! invented.
use crate::error::ParseError;
use crate::markdown::{render_all, SpanView};
use crate::parse::scan::{
    first_line, lemma_prefix_one, lemma_prefix_three, lemma_prefix_two, lemma_run_len,
    lemma_run_len_is, run_len, single_line, Stop,
};
use crate::parse::span::emphasis::{
    closing_scan, emphasis, fold_all, opening_token, resolved, Strength,
};
use crate::parse::span::link::{enclosed, link, link_label, url_title};
use crate::parse::span::tokenspan::{
    lemma_token_consumes, lemma_token_split, next_token, TokenView,
};
use crate::parse::span::{alternative, span_at, spans_of, text_span};
use vstd::prelude::*;

verus! {

/// Folding a sequence of tokens is folding its first token, then the
/// others.
pub proof fn lemma_fold_all_front(token: TokenView, tokens: Seq<TokenView>, strength: Strength)
    ensures
        fold_all(seq![token] + tokens, strength) == strength.fold(token) + fold_all(
            tokens,
            strength,
        ),
    decreases tokens.len(),
{
    let all = seq![token] + tokens;
    if tokens.len() == 0 {
        assert(all.drop_last() =~= Seq::<TokenView>::empty());
        assert(fold_all(all.drop_last(), strength) =~= Seq::<char>::empty());
        assert(fold_all(all, strength) =~= strength.fold(token) + fold_all(tokens, strength));
    } else {
        assert(all.drop_last() =~= seq![token] + tokens.drop_last());
        assert(all.last() == tokens.last());
        lemma_fold_all_front(token, tokens.drop_last(), strength);
        assert(fold_all(all, strength) =~= strength.fold(token) + fold_all(tokens, strength));
    }
}

/// A token that opens or closes a span gives up the span's delimiter and
/// leaves the rest of its characters; a token that does neither is kept
/// whole.
pub proof fn lemma_fold_token(token: TokenView, strength: Strength)
    requires
        !(token is Finish),
    ensures
        strength.accepts(token) ==> token.literal() == strength.marker() + strength.fold(token),
        strength.accepts(token) ==> token.literal() == strength.fold(token) + strength.marker(),
        !strength.accepts(token) ==> token.literal() == strength.fold(token),
{
    if strength.accepts(token) {
        assert(token.literal() =~= strength.marker() + strength.fold(token));
        assert(token.literal() =~= strength.fold(token) + strength.marker());
    } else {
        assert(token.literal() =~= strength.fold(token));
    }
}

/// Appending text without a line break to such text gives such text.
pub proof fn lemma_single_line_concat(a: Seq<char>, b: Seq<char>)
    requires
        single_line(a),
        single_line(b),
    ensures
        single_line(a + b),
{
    assert forall|k: int| 0 <= k < (a + b).len() implies (a + b)[k] != '\n' by {
        if k < a.len() {
            assert((a + b)[k] == a[k]);
        } else {
            assert((a + b)[k] == b[k - a.len()]);
        }
    }
}

/// What a token leaves inside a span holds no line break.
pub proof fn lemma_fold_single_line(token: TokenView, strength: Strength)
    requires
        single_line(token.literal()),
    ensures
        single_line(strength.fold(token)),
{
    let kept = strength.fold(token);
    assert forall|k: int| 0 <= k < kept.len() implies kept[k] != '\n' by {
        if token is Text {
            assert(kept == token.literal());
            assert(token.literal()[k] != '\n');
        }
    }
}

/// The resolver loses nothing: the scanned input is the content it
/// returns, the closing delimiter, and the rest. The content holds no line
/// break.
pub proof fn lemma_resolved_conserves(s: Seq<char>, strength: Strength)
    ensures
        resolved(s, strength) matches Ok((content, after)) ==> s == content + strength.marker()
            + after && single_line(content),
    decreases s.len(),
{
    if let Ok((content, after)) = resolved(s, strength) {
        lemma_token_split(s);
        lemma_token_consumes(s);
        let (rest, token) = next_token(s)->Ok_0;
        assert(s == token.literal() + rest);
        assert(single_line(token.literal()));
        lemma_fold_token(token, strength);
        lemma_fold_single_line(token, strength);
        let kept = strength.fold(token);
        if strength.accepts(token) {
            assert(content == fold_all(seq![token], strength));
            assert(after == rest);
            lemma_fold_all_front(token, Seq::empty(), strength);
            assert(seq![token] + Seq::<TokenView>::empty() =~= seq![token]);
            assert(fold_all(Seq::<TokenView>::empty(), strength) =~= Seq::<char>::empty());
            assert(content =~= kept);
            assert(kept + strength.marker() + rest =~= (kept + strength.marker()) + rest);
        } else {
            lemma_resolved_conserves(rest, strength);
            let (inner_after, more) = closing_scan(rest, strength)->Some_0;
            let tail = fold_all(more, strength);
            assert(after == inner_after);
            assert(content == fold_all(seq![token] + more, strength));
            lemma_fold_all_front(token, more, strength);
            assert(content == kept + tail);
            assert(rest == tail + strength.marker() + after);
            assert(kept == token.literal());
            assert(kept + (tail + strength.marker() + after) =~= (kept + tail) + strength.marker()
                + after);
            lemma_single_line_concat(kept, tail);
        }
    }
}

/// No token holds a line break.
pub proof fn lemma_token_literal_single_line(token: TokenView)
    requires
        token is Bold || token is Italic || token is BoldItalic || token is Strikeout,
    ensures
        single_line(token.literal()),
{
}

/// The input is the characters of the token that opens a span, followed by
/// the rest.
pub proof fn lemma_opening_split(s: Seq<char>, strength: Strength)
    ensures
        opening_token(s, strength) matches Ok((behind, opener)) ==> s == opener.literal() + behind
            && !(opener is Finish),
{
    lemma_prefix_one(s, '~');
    lemma_prefix_one(s, '*');
    lemma_prefix_two(s, '*', '*');
    lemma_prefix_three(s, '*', '*', '*');
    if let Ok((behind, opener)) = opening_token(s, strength) {
        assert(s =~= opener.literal() + behind);
    }
}

/// An emphasis span loses nothing: the input is the span's markup followed
/// by the rest.
pub proof fn lemma_emphasis_conserves(s: Seq<char>, strength: Strength)
    ensures
        emphasis(s, strength) matches Ok((rest, span)) ==> s == span.render() + rest && rest.len()
            < s.len() && single_line(span.render()),
{
    if let Ok((rest, span)) = emphasis(s, strength) {
        lemma_opening_split(s, strength);
        let (behind, opener) = opening_token(s, strength)->Ok_0;
        lemma_fold_token(opener, strength);
        lemma_resolved_conserves(behind, strength);
        let (content, after) = resolved(behind, strength)->Ok_0;
        let inner = strength.fold(opener) + content;
        let marker = strength.marker();
        assert(rest == after);
        assert(span == strength.span(inner));
        assert(span.render() =~= marker + inner + marker);
        assert(marker.len() > 0);
        assert(opener.literal() + behind =~= marker + inner + marker + after) by {
            assert(opener.literal() == marker + strength.fold(opener));
            assert(behind == content + marker + after);
        }
        lemma_token_literal_single_line(opener);
        assert(single_line(span.render())) by {
            let whole = marker + inner + marker;
            assert forall|k: int| 0 <= k < whole.len() implies whole[k] != '\n' by {
                if k < opener.literal().len() {
                    assert(whole[k] == opener.literal()[k]);
                } else if k < marker.len() + inner.len() {
                    assert(whole[k] == content[k - opener.literal().len()]);
                } else {
                    assert(whole[k] == marker[k - marker.len() - inner.len()]);
                }
            }
        }
    }
}

/// An enclosed run loses nothing: the input is the opening string, the run,
/// the closing string and the rest.
pub proof fn lemma_enclosed_conserves(s: Seq<char>, open: Seq<char>, stop: Stop, close: Seq<char>)
    ensures
        enclosed(s, open, stop, close) matches Ok((rest, run)) ==> s == open + run + close + rest
            && run.len() > 0 && forall|k: int| 0 <= k < run.len() ==> !stop.holds(#[trigger] run[k]),
{
    if let Ok((rest, run)) = enclosed(s, open, stop, close) {
        let body = s.skip(open.len() as int);
        lemma_run_len(body, stop);
        assert(s =~= open + run + close + rest);
    }
}

/// A link loses nothing: the input is the link's markup followed by the
/// rest.
pub proof fn lemma_link_conserves(s: Seq<char>)
    ensures
        link(s) matches Ok((rest, span)) ==> s == span.render() + rest && rest.len() < s.len()
            && single_line(span.render()),
{
    if let Ok((after, span)) = link(s) {
        let (rest, label) = link_label(s)->Ok_0;
        lemma_enclosed_conserves(s, seq!['['], Stop::Bracket, seq![']']);
        if url_title(rest) is Ok {
            lemma_enclosed_conserves(rest, seq!['('], Stop::Destination, seq![' ']);
            let (tail, dest) = enclosed(rest, seq!['('], Stop::Destination, seq![' '])->Ok_0;
            lemma_run_len(tail, Stop::Title);
            let m = run_len(tail, Stop::Title) as int;
            let title = tail.take(m);
            assert(tail =~= title + seq![')'] + after);
            assert(s =~= seq!['['] + label + seq![']', '('] + dest + seq![' '] + title + seq![')']
                + after);
            assert(single_line(span.render()));
        } else {
            lemma_enclosed_conserves(rest, seq!['('], Stop::Destination, seq![')']);
            let (tail, dest) = enclosed(rest, seq!['('], Stop::Destination, seq![')'])->Ok_0;
            assert(s =~= seq!['['] + label + seq![']', '('] + dest + seq![')'] + after);
            assert(single_line(span.render()));
        }
    }
}

/// Plain text loses nothing.
pub proof fn lemma_text_conserves(s: Seq<char>)
    ensures
        text_span(s) matches Ok((rest, span)) ==> s == span.render() + rest && rest.len() < s.len()
            && single_line(span.render()),
{
    lemma_run_len(s, Stop::LineBreak);
    if let Ok((rest, span)) = text_span(s) {
        assert(s =~= span.render() + rest);
    }
}

/// Character conservation, for one span: whatever alternative matched, the
/// input is the markup of the span followed by the rest of the input. The
/// content of the span is therefore the consumed characters without the
/// delimiters of its kind, and a span always consumes something.
pub proof fn lemma_span_conserves(s: Seq<char>)
    ensures
        span_at(s) matches Ok((rest, span)) ==> s == span.render() + rest && rest.len() < s.len()
            && single_line(span.render()),
{
    lemma_link_conserves(s);
    lemma_emphasis_conserves(s, Strength::Strikeout);
    lemma_emphasis_conserves(s, Strength::BoldItalic);
    lemma_emphasis_conserves(s, Strength::Bold);
    lemma_emphasis_conserves(s, Strength::Italic);
    lemma_text_conserves(s);
}

/// A span can be read wherever the line is not used up: what no other
/// alternative reads is plain text.
pub proof fn lemma_span_total(s: Seq<char>)
    ensures
        span_at(s) is Err <==> first_line(s).len() == 0,
        span_at(s) is Err ==> span_at(s) == Err::<(Seq<char>, SpanView), ParseError>(
            ParseError::EmptyMatch,
        ),
{
    lemma_run_len(s, Stop::LineBreak);
    lemma_link_conserves(s);
    lemma_emphasis_conserves(s, Strength::Strikeout);
    lemma_emphasis_conserves(s, Strength::BoldItalic);
    lemma_emphasis_conserves(s, Strength::Bold);
    lemma_emphasis_conserves(s, Strength::Italic);
    if first_line(s).len() == 0 && span_at(s) is Ok {
        let (rest, span) = span_at(s)->Ok_0;
        assert(span.render().len() > 0);
        assert(s[0] == span.render()[0]);
        assert(s[0] != '\n');
    }
}

/// Priority: where an alternative matches and none before it does, the span
/// is the one that alternative reads, whatever the later ones would read.
pub proof fn lemma_priority(s: Seq<char>, k: int)
    requires
        0 <= k <= 5,
        alternative(k, s) is Ok,
        forall|j: int| 0 <= j < k ==> alternative(j, s) is Err,
    ensures
        span_at(s) == alternative(k, s),
{
    assert(forall|j: int| 0 <= j < k ==> !(#[trigger] alternative(j, s) is Ok));
    if k > 0 {
        assert(alternative(0, s) is Err);
    }
    if k > 1 {
        assert(alternative(1, s) is Err);
    }
    if k > 2 {
        assert(alternative(2, s) is Err);
    }
    if k > 3 {
        assert(alternative(3, s) is Err);
    }
    if k > 4 {
        assert(alternative(4, s) is Err);
    }
}

/// The markup of a sequence of spans is the markup of its first span, then
/// that of the others.
pub proof fn lemma_render_all_front(span: SpanView, spans: Seq<SpanView>)
    ensures
        render_all(seq![span] + spans) == span.render() + render_all(spans),
    decreases spans.len(),
{
    let all = seq![span] + spans;
    if spans.len() == 0 {
        assert(all.drop_last() =~= Seq::<SpanView>::empty());
        assert(render_all(all.drop_last()) =~= Seq::<char>::empty());
        assert(render_all(all) =~= span.render() + render_all(spans));
    } else {
        assert(all.drop_last() =~= seq![span] + spans.drop_last());
        assert(all.last() == spans.last());
        lemma_render_all_front(span, spans.drop_last());
        assert(render_all(all) =~= span.render() + render_all(spans));
    }
}

/// Character conservation, for a line: the markup of the spans read from
/// `s`, one after the other, is the first line of `s`, and what is left is
/// the input from its first line break on. Every character of the line is
/// thus in a span, as content or as a delimiter of the span's kind, once and
/// in its place.
pub proof fn lemma_spans_conserve(s: Seq<char>)
    ensures
        render_all(spans_of(s).1) == first_line(s),
        spans_of(s).0 == s.skip(run_len(s, Stop::LineBreak) as int),
        s == render_all(spans_of(s).1) + spans_of(s).0,
    decreases s.len(),
{
    lemma_span_conserves(s);
    lemma_run_len(s, Stop::LineBreak);
    match span_at(s) {
        Err(_) => {
            assert(text_span(s) is Err);
            assert(render_all(spans_of(s).1) =~= first_line(s));
            assert(spans_of(s).0 =~= s.skip(run_len(s, Stop::LineBreak) as int));
        },
        Ok((rest, span)) => {
            lemma_spans_conserve(rest);
            lemma_run_len(rest, Stop::LineBreak);
            let tail = spans_of(rest);
            lemma_render_all_front(span, tail.1);
            let head = span.render();
            let n = head.len() + run_len(rest, Stop::LineBreak);
            assert forall|k: int| 0 <= k < n implies !Stop::LineBreak.holds(#[trigger] s[k]) by {
                if k < head.len() {
                    assert(s[k] == head[k]);
                } else {
                    assert(s[k] == rest[k - head.len()]);
                }
            }
            if n < s.len() {
                assert(s[n as int] == rest[n - head.len()]);
            }
            lemma_run_len_is(s, Stop::LineBreak, n);
            assert(render_all(spans_of(s).1) =~= first_line(s));
            assert(spans_of(s).0 =~= s.skip(run_len(s, Stop::LineBreak) as int));
        },
    }
    assert(s =~= first_line(s) + s.skip(run_len(s, Stop::LineBreak) as int));
}

/// A line has no span exactly when it is empty.
pub proof fn lemma_spans_empty(s: Seq<char>)
    ensures
        spans_of(s).1.len() == 0 <==> first_line(s).len() == 0,
{
    lemma_span_conserves(s);
    lemma_run_len(s, Stop::LineBreak);
    if span_at(s) is Err {
        assert(text_span(s) is Err);
    } else {
        lemma_spans_conserve(s);
        let (rest, span) = span_at(s)->Ok_0;
        lemma_render_all_front(span, spans_of(rest).1);
    }
}

} // verus!
