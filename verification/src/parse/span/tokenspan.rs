//! The primitive lexer: one token at a time, in a single pass, without
//! backtracking.
use crate::error::ParseError;
use crate::parse::scan::{
    lemma_prefix_one, lemma_prefix_three, lemma_prefix_two, lemma_run_len, run_len, single_line,
    tag, take_till1, Stop,
};
use vstd::prelude::*;

verus! {

/// A primitive token of a line.
#[derive(Debug, PartialEq, Clone)]
pub enum TokenSpan {
    /// `**`
    Bold,
    /// `*`
    Italic,
    /// `***`
    BoldItalic,
    /// `~`
    Strikeout,
    /// The line ends here. Nothing is consumed for this token.
    Finish,
    /// A run of literal text.
    Text(String),
}

/// The mathematical value of a [`TokenSpan`].
pub enum TokenView {
    Bold,
    Italic,
    BoldItalic,
    Strikeout,
    Finish,
    Text(Seq<char>),
}

impl View for TokenSpan {
    type V = TokenView;

    open spec fn view(&self) -> TokenView {
        match *self {
            TokenSpan::Bold => TokenView::Bold,
            TokenSpan::Italic => TokenView::Italic,
            TokenSpan::BoldItalic => TokenView::BoldItalic,
            TokenSpan::Strikeout => TokenView::Strikeout,
            TokenSpan::Finish => TokenView::Finish,
            TokenSpan::Text(s) => TokenView::Text(s@),
        }
    }
}

impl TokenView {
    /// The characters the token was read from.
    pub open spec fn literal(self) -> Seq<char> {
        match self {
            TokenView::Bold => seq!['*', '*'],
            TokenView::Italic => seq!['*'],
            TokenView::BoldItalic => seq!['*', '*', '*'],
            TokenView::Strikeout => seq!['~'],
            TokenView::Text(s) => s,
            TokenView::Finish => Seq::empty(),
        }
    }

    /// What is left of the token as text once a bold span has taken two `*`
    /// from it.
    pub open spec fn literal_bold(self) -> Seq<char> {
        match self {
            TokenView::Italic => seq!['*'],
            TokenView::BoldItalic => seq!['*'],
            TokenView::Strikeout => seq!['~'],
            TokenView::Text(s) => s,
            _ => Seq::empty(),
        }
    }

    /// What is left of the token as text once an italic span has taken one
    /// `*` from it.
    pub open spec fn literal_italic(self) -> Seq<char> {
        match self {
            TokenView::BoldItalic => seq!['*', '*'],
            TokenView::Bold => seq!['*'],
            TokenView::Strikeout => seq!['~'],
            TokenView::Text(s) => s,
            _ => Seq::empty(),
        }
    }

    /// Whether the token can open or close a bold span.
    pub open spec fn possible_bold(self) -> bool {
        self is Bold || self is BoldItalic
    }

    /// Whether the token can open or close an italic span.
    pub open spec fn possible_italic(self) -> bool {
        self is Bold || self is Italic || self is BoldItalic
    }
}

impl TokenSpan {
    /// The token as the text it was read from.
    pub fn display(&self) -> (r: &str)
        ensures
            r@ == self@.literal(),
    {
        proof {
            reveal_strlit("**");
            reveal_strlit("*");
            reveal_strlit("***");
            reveal_strlit("~");
            reveal_strlit("");
        }
        let r = match self {
            TokenSpan::Bold => "**",
            TokenSpan::Italic => "*",
            TokenSpan::BoldItalic => "***",
            TokenSpan::Strikeout => "~",
            TokenSpan::Text(s) => s.as_str(),
            _ => "",
        };
        assert(r@ =~= self@.literal());
        r
    }

    /// Whether the token can open or close a bold span: `**` and `***` can.
    pub fn is_possible_bold(&self) -> (b: bool)
        ensures
            b == self@.possible_bold(),
    {
        match self {
            TokenSpan::Bold => true,
            TokenSpan::BoldItalic => true,
            _ => false,
        }
    }

    /// Whether the token can open or close an italic span: every run of `*`
    /// can.
    pub fn is_possible_italic(&self) -> (b: bool)
        ensures
            b == self@.possible_italic(),
    {
        match self {
            TokenSpan::Bold => true,
            TokenSpan::Italic => true,
            TokenSpan::BoldItalic => true,
            _ => false,
        }
    }

    /// The token as text inside a bold span.
    pub fn display_bold(&self) -> (r: &str)
        ensures
            r@ == self@.literal_bold(),
    {
        proof {
            reveal_strlit("*");
            reveal_strlit("~");
            reveal_strlit("");
        }
        let r = match self {
            TokenSpan::Italic => "*",
            TokenSpan::BoldItalic => "*",
            TokenSpan::Strikeout => "~",
            TokenSpan::Text(s) => s.as_str(),
            _ => "",
        };
        assert(r@ =~= self@.literal_bold());
        r
    }

    /// The token as text inside an italic span.
    pub fn display_italic(&self) -> (r: &str)
        ensures
            r@ == self@.literal_italic(),
    {
        proof {
            reveal_strlit("**");
            reveal_strlit("*");
            reveal_strlit("~");
            reveal_strlit("");
        }
        let r = match self {
            TokenSpan::BoldItalic => "**",
            TokenSpan::Bold => "*",
            TokenSpan::Strikeout => "~",
            TokenSpan::Text(s) => s.as_str(),
            _ => "",
        };
        assert(r@ =~= self@.literal_italic());
        r
    }
}

/// What a token parser returns, as values: the rest of the input and the
/// token, or the failure.
pub open spec fn token_outcome(r: Result<(&str, TokenSpan), ParseError>) -> Result<
    (Seq<char>, TokenView),
    ParseError,
> {
    match r {
        Ok((rest, token)) => Ok((rest@, token@)),
        Err(e) => Err(e),
    }
}

/// A token that is a fixed string `t`: matches where the input begins with
/// `t`, and leaves what follows.
pub open spec fn fixed_token(s: Seq<char>, t: Seq<char>, token: TokenView) -> Result<
    (Seq<char>, TokenView),
    ParseError,
> {
    if t.is_prefix_of(s) {
        Ok((s.skip(t.len() as int), token))
    } else {
        Err(ParseError::NoMatch)
    }
}

/// `~` at the start of the input.
pub open spec fn strikeout_token(s: Seq<char>) -> Result<(Seq<char>, TokenView), ParseError> {
    fixed_token(s, seq!['~'], TokenView::Strikeout)
}

/// `***` at the start of the input.
pub open spec fn bold_italic_token(s: Seq<char>) -> Result<(Seq<char>, TokenView), ParseError> {
    fixed_token(s, seq!['*', '*', '*'], TokenView::BoldItalic)
}

/// `**` at the start of the input.
pub open spec fn bold_token(s: Seq<char>) -> Result<(Seq<char>, TokenView), ParseError> {
    fixed_token(s, seq!['*', '*'], TokenView::Bold)
}

/// `*` at the start of the input.
pub open spec fn italic_token(s: Seq<char>) -> Result<(Seq<char>, TokenView), ParseError> {
    fixed_token(s, seq!['*'], TokenView::Italic)
}

/// A run of `*` at the start of the input, the longest of `***`, `**` and
/// `*` that matches.
pub open spec fn star_token(s: Seq<char>) -> Result<(Seq<char>, TokenView), ParseError> {
    if bold_italic_token(s) is Ok {
        bold_italic_token(s)
    } else if bold_token(s) is Ok {
        bold_token(s)
    } else {
        italic_token(s)
    }
}

/// The longest run of characters without a line break, `*` or `~`; it must
/// not be empty.
pub open spec fn text_token(s: Seq<char>) -> Result<(Seq<char>, TokenView), ParseError> {
    let n = run_len(s, Stop::Delimiter) as int;
    if n > 0 {
        Ok((s.skip(n), TokenView::Text(s.take(n))))
    } else {
        Err(ParseError::EmptyMatch)
    }
}

/// The end of the line: a line break comes next. It is looked at, not
/// consumed.
pub open spec fn finish_token(s: Seq<char>) -> Result<(Seq<char>, TokenView), ParseError> {
    if s.len() > 0 && s[0] == '\n' {
        Ok((s, TokenView::Finish))
    } else {
        Err(ParseError::NoMatch)
    }
}

/// The next token of `s`: the end of the line, else `~`, else a run of `*`,
/// else a run of text. Only the empty input has none.
pub open spec fn next_token(s: Seq<char>) -> Result<(Seq<char>, TokenView), ParseError> {
    if finish_token(s) is Ok {
        finish_token(s)
    } else if strikeout_token(s) is Ok {
        strikeout_token(s)
    } else if star_token(s) is Ok {
        star_token(s)
    } else if text_token(s) is Ok {
        text_token(s)
    } else {
        Err(ParseError::NoMatch)
    }
}

/// Reads the next token.
pub fn parse_token(i: &str) -> (r: Result<(&str, TokenSpan), ParseError>)
    ensures
        token_outcome(r) == next_token(i@),
        r is Err <==> i@.len() == 0,
{
    proof {
        lemma_next_token_total(i@);
    }
    if let Ok(found) = parse_token_finish(i) {
        return Ok(found);
    }
    if let Ok(found) = parse_token_strikeout(i) {
        return Ok(found);
    }
    if let Ok(found) = parse_three(i) {
        return Ok(found);
    }
    if let Ok(found) = parse_token_text(i) {
        return Ok(found);
    }
    Err(ParseError::NoMatch)
}

/// Reads a run of `*`: `***`, else `**`, else `*`.
pub fn parse_three(i: &str) -> (r: Result<(&str, TokenSpan), ParseError>)
    ensures
        token_outcome(r) == star_token(i@),
        r is Ok <==> i@.len() > 0 && i@[0] == '*',
{
    proof {
        lemma_prefix_one(i@, '*');
        lemma_prefix_two(i@, '*', '*');
        lemma_prefix_three(i@, '*', '*', '*');
    }
    if let Ok(found) = parse_token_bold_italic(i) {
        return Ok(found);
    }
    if let Ok(found) = parse_token_bold(i) {
        return Ok(found);
    }
    parse_token_italic(i)
}

/// Reads a run of literal text.
pub fn parse_token_text(i: &str) -> (r: Result<(&str, TokenSpan), ParseError>)
    ensures
        token_outcome(r) == text_token(i@),
{
    match take_till1(Stop::Delimiter, i) {
        Ok((rest, run)) => Ok((rest, TokenSpan::Text(run.to_owned()))),
        Err(_) => Err(ParseError::EmptyMatch),
    }
}

/// Looks for the end of the line.
pub fn parse_token_finish(i: &str) -> (r: Result<(&str, TokenSpan), ParseError>)
    ensures
        token_outcome(r) == finish_token(i@),
{
    proof {
        reveal_strlit("\n");
        lemma_prefix_one(i@, '\n');
        assert("\n"@ =~= seq!['\n']);
    }
    match tag("\n", i) {
        Ok(_) => Ok((i, TokenSpan::Finish)),
        Err(_) => Err(ParseError::NoMatch),
    }
}

/// Reads `~`.
pub fn parse_token_strikeout(i: &str) -> (r: Result<(&str, TokenSpan), ParseError>)
    ensures
        token_outcome(r) == strikeout_token(i@),
{
    proof {
        reveal_strlit("~");
        assert("~"@ =~= seq!['~']);
    }
    match tag("~", i) {
        Ok((rest, _)) => Ok((rest, TokenSpan::Strikeout)),
        Err(_) => Err(ParseError::NoMatch),
    }
}

/// Reads `***`.
pub fn parse_token_bold_italic(i: &str) -> (r: Result<(&str, TokenSpan), ParseError>)
    ensures
        token_outcome(r) == bold_italic_token(i@),
{
    proof {
        reveal_strlit("***");
        assert("***"@ =~= seq!['*', '*', '*']);
    }
    match tag("***", i) {
        Ok((rest, _)) => Ok((rest, TokenSpan::BoldItalic)),
        Err(_) => Err(ParseError::NoMatch),
    }
}

/// Reads `*`.
pub fn parse_token_italic(i: &str) -> (r: Result<(&str, TokenSpan), ParseError>)
    ensures
        token_outcome(r) == italic_token(i@),
{
    proof {
        reveal_strlit("*");
        assert("*"@ =~= seq!['*']);
    }
    match tag("*", i) {
        Ok((rest, _)) => Ok((rest, TokenSpan::Italic)),
        Err(_) => Err(ParseError::NoMatch),
    }
}

/// Reads `**`.
pub fn parse_token_bold(i: &str) -> (r: Result<(&str, TokenSpan), ParseError>)
    ensures
        token_outcome(r) == bold_token(i@),
{
    proof {
        reveal_strlit("**");
        assert("**"@ =~= seq!['*', '*']);
    }
    match tag("**", i) {
        Ok((rest, _)) => Ok((rest, TokenSpan::Bold)),
        Err(_) => Err(ParseError::NoMatch),
    }
}

/// Every input but the empty one has a next token, and the token tells how
/// the input begins.
pub proof fn lemma_next_token_total(s: Seq<char>)
    ensures
        next_token(s) is Err <==> s.len() == 0,
        next_token(s) is Err ==> next_token(s) == Err::<(Seq<char>, TokenView), ParseError>(
            ParseError::NoMatch,
        ),
        s.len() > 0 ==> (next_token(s)->Ok_0.1 is Finish <==> s[0] == '\n'),
        s.len() > 0 ==> (next_token(s)->Ok_0.1 is Strikeout <==> s[0] == '~'),
        s.len() > 0 ==> (next_token(s)->Ok_0.1.possible_italic() <==> s[0] == '*'),
        s.len() > 0 ==> (next_token(s)->Ok_0.1 is Text <==> !Stop::Delimiter.holds(s[0])),
{
    lemma_prefix_one(s, '~');
    lemma_prefix_one(s, '*');
    lemma_prefix_two(s, '*', '*');
    lemma_prefix_three(s, '*', '*', '*');
    if s.len() > 0 && !Stop::Delimiter.holds(s[0]) {
        assert(run_len(s, Stop::Delimiter) > 0);
    }
}

/// A token other than the end of the line takes at least one character
/// from the input.
pub proof fn lemma_token_consumes(s: Seq<char>)
    ensures
        next_token(s) matches Ok((rest, token)) ==> (rest.len() <= s.len() && (rest.len() < s.len()
            <==> !(token is Finish))),
{
    lemma_next_token_total(s);
    lemma_run_len(s, Stop::Delimiter);
    lemma_prefix_one(s, '~');
    lemma_prefix_one(s, '*');
    lemma_prefix_two(s, '*', '*');
    lemma_prefix_three(s, '*', '*', '*');
}

/// The input is the characters of its next token followed by the rest, and
/// no token holds a line break.
pub proof fn lemma_token_split(s: Seq<char>)
    ensures
        next_token(s) matches Ok((rest, token)) ==> s == token.literal() + rest && single_line(
            token.literal(),
        ),
{
    lemma_next_token_total(s);
    lemma_run_len(s, Stop::Delimiter);
    lemma_prefix_one(s, '~');
    lemma_prefix_one(s, '*');
    lemma_prefix_two(s, '*', '*');
    lemma_prefix_three(s, '*', '*', '*');
    if let Ok((rest, token)) = next_token(s) {
        assert(s =~= token.literal() + rest);
    }
}

} // verus!
