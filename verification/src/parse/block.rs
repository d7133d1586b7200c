//! The block layer: decides what kind of block a line is, strips the
//! block's prefix and hands the rest of the line to the span assembler.
use crate::error::ParseError;
use crate::markdown::{block_views, span_views, Block, BlockView, Span, SpanView};
use crate::parse::scan::{
    first_line, lemma_prefix_one, lemma_run_len, run_len, tag, take_till1, Stop,
};
use crate::parse::span::link::{
    enclosed, link_url, parse_enclosed, parse_span_link_url, text_outcome,
};
use crate::parse::span::{parse_spans, spans_of};
use vstd::prelude::*;

verus! {

/// What a line holds once its block prefix is gone.
pub enum TokenBlock {
    /// The spans of the line.
    Line(Vec<Span>),
    /// Nothing: the line is a horizontal rule.
    Hr,
}

/// Whether a line ends at the start of `s`: `s` is empty or begins with a
/// line break.
pub open spec fn at_line_end(s: Seq<char>) -> bool {
    s.len() == 0 || s[0] == '\n'
}

/// The alternative text of an image: `![`, a run without `]` or a line
/// break, `]`.
pub open spec fn image_alt(s: Seq<char>) -> Result<(Seq<char>, Seq<char>), ParseError> {
    enclosed(s, seq!['!', '['], Stop::Bracket, seq![']'])
}

/// An image: its alternative text, its parenthesised destination with an
/// optional title, and then the end of the line.
pub open spec fn image(s: Seq<char>) -> Result<(Seq<char>, BlockView), ParseError> {
    match image_alt(s) {
        Err(e) => Err(e),
        Ok((rest, alt)) => match link_url(rest) {
            Err(e) => Err(e),
            Ok((after, (dest, title))) => if at_line_end(after) {
                Ok((after, BlockView::Image(alt, dest, title)))
            } else {
                Err(ParseError::NoMatch)
            },
        },
    }
}

/// A horizontal rule: a line break comes next. Nothing is consumed.
pub open spec fn hr(s: Seq<char>) -> Result<(Seq<char>, BlockView), ParseError> {
    if s.len() > 0 && s[0] == '\n' {
        Ok((s, BlockView::Hr))
    } else {
        Err(ParseError::NoMatch)
    }
}

/// The content of a header: the spans of the line, of which there must be
/// at least one.
pub open spec fn header_spans(s: Seq<char>) -> Result<(Seq<char>, Seq<SpanView>), ParseError> {
    if first_line(s).len() == 0 {
        Err(ParseError::EmptyMatch)
    } else {
        Ok(spans_of(s))
    }
}

/// A paragraph: the spans of the line, whatever the line holds. An empty
/// line is a paragraph without spans, and nothing of it is consumed.
pub open spec fn paragraph(s: Seq<char>) -> Result<(Seq<char>, BlockView), ParseError> {
    Ok((spans_of(s).0, BlockView::Paragraph(spans_of(s).1)))
}

/// The marker of a header: a run of `#`, whose length is the level, and one
/// space.
pub open spec fn header_level(s: Seq<char>) -> Result<(Seq<char>, nat), ParseError> {
    let n = run_len(s, Stop::NotHash);
    if n == 0 || !seq![' '].is_prefix_of(s.skip(n as int)) {
        Err(ParseError::NoMatch)
    } else {
        Ok((s.skip(n as int).skip(1), n))
    }
}

/// A header: its marker, then a line that is not empty.
pub open spec fn header(s: Seq<char>) -> Result<(Seq<char>, BlockView), ParseError> {
    match header_level(s) {
        Err(e) => Err(e),
        Ok((rest, level)) => match header_spans(rest) {
            Err(e) => Err(e),
            Ok((after, spans)) => Ok((after, BlockView::Header(level, spans))),
        },
    }
}

/// A quote: `> `, then the block that the rest of the line is.
pub open spec fn quote(s: Seq<char>) -> Result<(Seq<char>, BlockView), ParseError>
    decreases s.len(), 0int,
{
    if !seq!['>', ' '].is_prefix_of(s) {
        Err(ParseError::NoMatch)
    } else {
        match block_at(s.skip(2)) {
            Err(e) => Err(e),
            Ok((rest, inner)) => Ok((rest, BlockView::Quote(seq![inner]))),
        }
    }
}

/// The block at the start of `s`: an image, else a header, else a
/// horizontal rule, else a quote, else a paragraph. There always is one:
/// what is nothing else is a paragraph.
pub open spec fn block_at(s: Seq<char>) -> Result<(Seq<char>, BlockView), ParseError>
    decreases s.len(), 1int,
{
    if image(s) is Ok {
        image(s)
    } else if header(s) is Ok {
        header(s)
    } else if hr(s) is Ok {
        hr(s)
    } else if quote(s) is Ok {
        quote(s)
    } else {
        paragraph(s)
    }
}

/// What a block parser returns, as values: the rest of the input and the
/// block, or the failure.
pub open spec fn block_outcome(r: Result<(&str, Block), ParseError>) -> Result<
    (Seq<char>, BlockView),
    ParseError,
> {
    match r {
        Ok((rest, block)) => Ok((rest@, block@)),
        Err(e) => Err(e),
    }
}

/// What a parser of a line's spans returns, as values.
pub open spec fn spans_outcome(r: Result<(&str, Vec<Span>), ParseError>) -> Result<
    (Seq<char>, Seq<SpanView>),
    ParseError,
> {
    match r {
        Ok((rest, spans)) => Ok((rest@, span_views(spans@))),
        Err(e) => Err(e),
    }
}

/// Reads a quote.
pub fn parse_block_quote(i: &str) -> (r: Result<(&str, Block), ParseError>)
    ensures
        block_outcome(r) == quote(i@),
        r is Ok <==> seq!['>', ' '].is_prefix_of(i@),
    decreases i@.len(), 0int,
{
    proof {
        reveal_strlit("> ");
        assert("> "@ =~= seq!['>', ' ']);
    }
    match tag("> ", i) {
        Err(_) => Err(ParseError::NoMatch),
        Ok((rest, _)) => match parse_block_quote_context(rest) {
            Err(e) => Err(e),
            Ok((after, blocks)) => {
                proof {
                    assert(block_views(blocks@) =~= seq![block_views(blocks@)[0]]);
                }
                Ok((after, Block::Quote(blocks)))
            },
        },
    }
}

/// Reads what a quote holds: the block that the quoted text is. This never
/// fails.
pub fn parse_block_quote_context(i: &str) -> (r: Result<(&str, Vec<Block>), ParseError>)
    ensures
        r matches Ok((rest, blocks)) && blocks@.len() == 1 && block_at(i@) == Ok::<
            (Seq<char>, BlockView),
            ParseError,
        >((rest@, block_views(blocks@)[0])),
    decreases i@.len(), 2int,
{
    match parse_block(i) {
        Err(e) => Err(e),
        Ok((rest, block)) => {
            let mut blocks: Vec<Block> = Vec::new();
            blocks.push(block);
            Ok((rest, blocks))
        },
    }
}

/// Reads the block at the start of `i`. This never fails: what is nothing
/// else is a paragraph.
pub fn parse_block(i: &str) -> (r: Result<(&str, Block), ParseError>)
    ensures
        block_outcome(r) == block_at(i@),
        r is Ok,
    decreases i@.len(), 1int,
{
    if let Ok(found) = parse_block_image(i) {
        return Ok(found);
    }
    if let Ok(found) = parse_block_header(i) {
        return Ok(found);
    }
    if let Ok(found) = parse_block_hr(i) {
        return Ok(found);
    }
    if let Ok(found) = parse_block_quote(i) {
        return Ok(found);
    }
    pares_block_paragraph(i)
}

/// Reads an image.
pub fn parse_block_image(i: &str) -> (r: Result<(&str, Block), ParseError>)
    ensures
        block_outcome(r) == image(i@),
{
    let (rest, alt) = match parse_block_image_alt(i) {
        Ok(found) => found,
        Err(e) => {
            return Err(e);
        },
    };
    let (after, (dest, title)) = match parse_span_link_url(rest) {
        Ok(found) => found,
        Err(e) => {
            return Err(e);
        },
    };
    match parse_block_finish(after) {
        Ok(_) => Ok((after, Block::Image(alt, dest, title))),
        Err(e) => Err(e),
    }
}

/// Reads the alternative text of an image.
pub fn parse_block_image_alt(i: &str) -> (r: Result<(&str, String), ParseError>)
    ensures
        text_outcome(r) == image_alt(i@),
{
    proof {
        reveal_strlit("![");
        reveal_strlit("]");
        assert("!["@ =~= seq!['!', '[']);
        assert("]"@ =~= seq![']']);
    }
    parse_enclosed(i, "![", Stop::Bracket, "]")
}

/// Reads a horizontal rule.
pub fn parse_block_hr(i: &str) -> (r: Result<(&str, Block), ParseError>)
    ensures
        block_outcome(r) == hr(i@),
{
    proof {
        reveal_strlit("\n");
        assert("\n"@ =~= seq!['\n']);
        lemma_prefix_one(i@, '\n');
    }
    match tag("\n", i) {
        Ok(_) => Ok((i, Block::Hr)),
        Err(_) => Err(ParseError::NoMatch),
    }
}

/// Reads a paragraph: the spans of the line. This never fails; an empty
/// line gives a paragraph without spans.
pub fn pares_block_paragraph(i: &str) -> (r: Result<(&str, Block), ParseError>)
    ensures
        block_outcome(r) == paragraph(i@),
        r matches Ok((rest, block)) && rest@ == i@.skip(run_len(i@, Stop::LineBreak) as int)
            && at_line_end(rest@),
        i@.len() == 0 ==> block_outcome(r) == Ok::<(Seq<char>, BlockView), ParseError>(
            (Seq::empty(), BlockView::Paragraph(Seq::empty())),
        ),
{
    let (rest, spans) = parse_spans(i);
    proof {
        lemma_run_len(i@, Stop::LineBreak);
        if i@.len() == 0 {
            assert(rest@ =~= Seq::<char>::empty());
            assert(span_views(spans@) =~= Seq::<SpanView>::empty());
        }
    }
    match parse_block_finish(rest) {
        Ok(_) => Ok((rest, Block::Paragraph(spans))),
        Err(e) => Err(e),
    }
}

/// Reads a header.
pub fn parse_block_header(i: &str) -> (r: Result<(&str, Block), ParseError>)
    ensures
        block_outcome(r) == header(i@),
{
    let (rest, level) = match parse_block_header_level(i) {
        Ok(found) => found,
        Err(e) => {
            return Err(e);
        },
    };
    match parse_block_header_span(rest) {
        Ok((after, spans)) => Ok((after, Block::Header(level, spans))),
        Err(e) => Err(e),
    }
}

/// Reads the content of a header: the spans of a line that must not be
/// empty.
pub fn parse_block_header_span(i: &str) -> (r: Result<(&str, Vec<Span>), ParseError>)
    ensures
        spans_outcome(r) == header_spans(i@),
{
    let (rest, spans) = parse_spans(i);
    if spans.len() == 0 {
        return Err(ParseError::EmptyMatch);
    }
    proof {
        lemma_run_len(i@, Stop::LineBreak);
    }
    match parse_block_finish(rest) {
        Ok(_) => Ok((rest, spans)),
        Err(e) => Err(e),
    }
}

/// Reads the marker of a header and returns its level.
pub fn parse_block_header_level(i: &str) -> (r: Result<(&str, usize), ParseError>)
    ensures
        match r {
            Ok((rest, level)) => header_level(i@) == Ok::<(Seq<char>, nat), ParseError>(
                (rest@, level as nat),
            ),
            Err(e) => header_level(i@) == Err::<(Seq<char>, nat), ParseError>(e),
        },
{
    proof {
        reveal_strlit(" ");
        assert(" "@ =~= seq![' ']);
        lemma_run_len(i@, Stop::NotHash);
    }
    let (tail, marker) = match take_till1(Stop::NotHash, i) {
        Ok(found) => found,
        Err(_) => {
            return Err(ParseError::NoMatch);
        },
    };
    match tag(" ", tail) {
        Ok((rest, _)) => Ok((rest, marker.unicode_len())),
        Err(_) => Err(ParseError::NoMatch),
    }
}

/// Checks that a line ends here: the input is used up or a line break
/// comes next. Nothing is consumed.
pub fn parse_block_finish(i: &str) -> (r: Result<(&str, ()), ParseError>)
    ensures
        r is Ok <==> at_line_end(i@),
        r matches Ok((rest, _)) ==> rest@ == i@,
        r matches Err(e) ==> e == ParseError::NoMatch,
{
    proof {
        reveal_strlit("\n");
        assert("\n"@ =~= seq!['\n']);
        lemma_prefix_one(i@, '\n');
    }
    if i.is_empty() {
        return Ok((i, ()));
    }
    match tag("\n", i) {
        Ok(_) => Ok((i, ())),
        Err(_) => Err(ParseError::NoMatch),
    }
}

} // verus!
