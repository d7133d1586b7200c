use markdown_parse::error::ParseError;
use markdown_parse::markdown::Span;
use markdown_parse::parse::scan::Stop;
use markdown_parse::parse::span::emphasis::{fold_tokens, parse_span_emphasis};
use markdown_parse::parse::span::link::parse_enclosed;
use markdown_parse::parse::span::{
    assemble_spans, parse_span, parse_span_bold, parse_span_bold_italic, parse_span_italic,
    parse_span_link, parse_span_link_text, parse_span_link_url, parse_span_strikeout,
    parse_span_text, parse_span_url_not_title, parse_span_url_title, parse_spans,
    resolve_emphasis, Strength, TokenSpan,
};

fn text(s: &str) -> Span {
    Span::Text(s.to_string())
}

fn link(label: &str, dest: &str, title: Option<&str>) -> Span {
    Span::Link(
        label.to_string(),
        dest.to_string(),
        title.map(|t| t.to_string()),
    )
}

#[test]
pub fn parse_span_link_test() {
    let i = "[123](http://baidu.com 111)";
    let (i, o) = parse_span_link(i).unwrap();
    assert_eq!("", i);
    assert_eq!(
        Span::Link(
            "123".to_string(),
            "http://baidu.com".to_string(),
            Some("111".to_string())
        ),
        o
    );
}

#[test]
pub fn parse_span_test() {
    let i = "[123](http://baidu.com 111)\n";
    let (i, o) = parse_span(i).unwrap();
    assert_eq!("\n", i);
    assert_eq!(
        Span::Link(
            "123".to_string(),
            "http://baidu.com".to_string(),
            Some("111".to_string())
        ),
        o
    );
}

#[test]
pub fn parse_span_text_test() {
    let i = "11\n";
    let (i, o) = parse_span_text(i).unwrap();
    assert_eq!("\n", i);
    assert_eq!(Span::Text("11".to_string()), o);
}

#[test]
pub fn parse_span_italic_test() {
    let i = "***11*";
    let (i, o) = parse_span_italic(i).unwrap();
    assert_eq!("", i);
    assert_eq!(Span::Italic("**11".to_string()), o);
}

#[test]
pub fn parse_span_bold_test() {
    let i = "**11**";
    let (i, o) = parse_span_bold(i).unwrap();
    assert_eq!("", i);
    assert_eq!(Span::Bold("11".to_string()), o);
}

#[test]
pub fn parse_span_bold_italic_test() {
    let i = "***11***";
    let (i, o) = parse_span_bold_italic(i).unwrap();
    assert_eq!("", i);
    assert_eq!(Span::BoldItalic("11".to_string()), o);
}

#[test]
pub fn parse_span_strikeout_test() {
    let i = "~11~";
    let (i, o) = parse_span_strikeout(i).unwrap();
    assert_eq!(Span::Strikeout("11".to_string()), o);
    assert_eq!("", i);
}

#[test]
fn italic_keeps_the_stars_it_did_not_take() {
    assert_eq!(
        parse_span_italic("**11**"),
        Ok(("", Span::Italic("*11*".to_string())))
    );
    assert_eq!(
        parse_span_italic("*11**"),
        Ok(("", Span::Italic("11*".to_string())))
    );
    assert_eq!(
        parse_span_italic("**11*"),
        Ok(("", Span::Italic("*11".to_string())))
    );
    assert_eq!(
        parse_span_italic("*11*"),
        Ok(("", Span::Italic("11".to_string())))
    );
    assert_eq!(
        parse_span_italic("*11***"),
        Ok(("", Span::Italic("11**".to_string())))
    );
    assert_eq!(
        parse_span_italic("*a~b* c"),
        Ok((" c", Span::Italic("a~b".to_string())))
    );
}

#[test]
fn bold_keeps_the_stars_it_did_not_take() {
    assert_eq!(
        parse_span_bold("***11***"),
        Ok(("", Span::Bold("*11*".to_string())))
    );
    assert_eq!(
        parse_span_bold("***11**"),
        Ok(("", Span::Bold("*11".to_string())))
    );
    assert_eq!(
        parse_span_bold("**11***"),
        Ok(("", Span::Bold("11*".to_string())))
    );
    assert_eq!(
        parse_span_bold("**a*b~c**d"),
        Ok(("d", Span::Bold("a*b~c".to_string())))
    );
}

#[test]
fn bold_italic_and_strikeout_keep_other_delimiters_whole() {
    assert_eq!(
        parse_span_bold_italic("***a*b**c~d***e"),
        Ok(("e", Span::BoldItalic("a*b**c~d".to_string())))
    );
    assert_eq!(
        parse_span_strikeout("~a*b**c***d~e"),
        Ok(("e", Span::Strikeout("a*b**c***d".to_string())))
    );
}

#[test]
fn emphasis_does_not_cross_a_line_break() {
    assert_eq!(parse_span_bold("**11\n**"), Err(ParseError::Unterminated));
    assert_eq!(parse_span_italic("*11\n*"), Err(ParseError::Unterminated));
    assert_eq!(
        parse_span_bold_italic("***11\n***"),
        Err(ParseError::Unterminated)
    );
    assert_eq!(parse_span_strikeout("~11\n~"), Err(ParseError::Unterminated));
}

#[test]
fn emphasis_without_a_closing_delimiter_is_unterminated() {
    assert_eq!(parse_span_italic("*11"), Err(ParseError::Unterminated));
    assert_eq!(parse_span_bold("**11*"), Err(ParseError::Unterminated));
    assert_eq!(
        parse_span_bold_italic("***11**"),
        Err(ParseError::Unterminated)
    );
    assert_eq!(parse_span_strikeout("~11"), Err(ParseError::Unterminated));
    assert_eq!(parse_span_strikeout("~"), Err(ParseError::Unterminated));
}

#[test]
fn emphasis_needs_an_opening_delimiter_of_its_strength() {
    assert_eq!(parse_span_italic("11*"), Err(ParseError::NoMatch));
    assert_eq!(parse_span_italic(""), Err(ParseError::NoMatch));
    assert_eq!(parse_span_bold("*11**"), Err(ParseError::NoMatch));
    assert_eq!(parse_span_bold_italic("**11***"), Err(ParseError::NoMatch));
    assert_eq!(parse_span_strikeout("*11~"), Err(ParseError::NoMatch));
}

#[test]
fn parse_span_emphasis_agrees_with_the_named_parsers() {
    assert_eq!(
        parse_span_emphasis("***11*", Strength::Italic),
        parse_span_italic("***11*")
    );
    assert_eq!(
        parse_span_emphasis("**11**", Strength::Bold),
        parse_span_bold("**11**")
    );
    assert_eq!(
        parse_span_emphasis("***11***", Strength::BoldItalic),
        parse_span_bold_italic("***11***")
    );
    assert_eq!(
        parse_span_emphasis("~11~", Strength::Strikeout),
        parse_span_strikeout("~11~")
    );
}

#[test]
fn resolve_emphasis_returns_content_and_rest() {
    assert_eq!(
        resolve_emphasis("hello** world", Strength::Bold),
        Ok(("hello".to_string(), " world"))
    );
    assert_eq!(
        resolve_emphasis("a*b***c", Strength::Bold),
        Ok(("a*b*".to_string(), "c"))
    );
    assert_eq!(
        resolve_emphasis("hi***", Strength::Italic),
        Ok(("hi**".to_string(), ""))
    );
    assert_eq!(
        resolve_emphasis("a**b***", Strength::BoldItalic),
        Ok(("a**b".to_string(), ""))
    );
    assert_eq!(
        resolve_emphasis("a***b~c", Strength::Strikeout),
        Ok(("a***b".to_string(), "c"))
    );
    assert_eq!(
        resolve_emphasis("**", Strength::Bold),
        Ok(("".to_string(), ""))
    );
}

#[test]
fn resolve_emphasis_fails_at_the_end_of_the_line() {
    assert_eq!(
        resolve_emphasis("hello\n**", Strength::Bold),
        Err(ParseError::Unterminated)
    );
    assert_eq!(
        resolve_emphasis("hello", Strength::Italic),
        Err(ParseError::Unterminated)
    );
    assert_eq!(
        resolve_emphasis("", Strength::Strikeout),
        Err(ParseError::Unterminated)
    );
    assert_eq!(
        resolve_emphasis("a*b", Strength::Bold),
        Err(ParseError::Unterminated)
    );
}

#[test]
fn fold_tokens_keeps_what_each_strength_leaves() {
    let tokens = vec![
        TokenSpan::Italic,
        TokenSpan::Bold,
        TokenSpan::BoldItalic,
        TokenSpan::Strikeout,
        TokenSpan::Text("x".to_string()),
    ];
    assert_eq!(fold_tokens(&tokens, Strength::Italic), "***~x");
    assert_eq!(fold_tokens(&tokens, Strength::Bold), "**~x");
    assert_eq!(fold_tokens(&tokens, Strength::BoldItalic), "***~x");
    assert_eq!(fold_tokens(&tokens, Strength::Strikeout), "******x");
    assert_eq!(fold_tokens(&Vec::new(), Strength::Bold), "");
}

#[test]
fn strength_compatibility() {
    assert!(Strength::Italic.is_compatible(&TokenSpan::Italic));
    assert!(Strength::Italic.is_compatible(&TokenSpan::Bold));
    assert!(Strength::Italic.is_compatible(&TokenSpan::BoldItalic));
    assert!(!Strength::Italic.is_compatible(&TokenSpan::Strikeout));
    assert!(!Strength::Bold.is_compatible(&TokenSpan::Italic));
    assert!(Strength::Bold.is_compatible(&TokenSpan::Bold));
    assert!(Strength::Bold.is_compatible(&TokenSpan::BoldItalic));
    assert!(!Strength::BoldItalic.is_compatible(&TokenSpan::Bold));
    assert!(Strength::BoldItalic.is_compatible(&TokenSpan::BoldItalic));
    assert!(!Strength::BoldItalic.is_compatible(&TokenSpan::Strikeout));
    assert!(Strength::Strikeout.is_compatible(&TokenSpan::Strikeout));
    assert!(!Strength::Strikeout.is_compatible(&TokenSpan::BoldItalic));
    assert!(!Strength::Strikeout.is_compatible(&TokenSpan::Finish));
    assert!(!Strength::Strikeout.is_compatible(&TokenSpan::Text("~".to_string())));
}

#[test]
fn strength_display_and_wrap() {
    assert_eq!(Strength::BoldItalic.display(&TokenSpan::BoldItalic), "");
    assert_eq!(Strength::BoldItalic.display(&TokenSpan::Bold), "**");
    assert_eq!(Strength::Strikeout.display(&TokenSpan::Strikeout), "");
    assert_eq!(Strength::Strikeout.display(&TokenSpan::BoldItalic), "***");
    assert_eq!(Strength::Italic.display(&TokenSpan::BoldItalic), "**");
    assert_eq!(Strength::Bold.display(&TokenSpan::BoldItalic), "*");
    assert_eq!(
        Strength::Italic.wrap("a".to_string()),
        Span::Italic("a".to_string())
    );
    assert_eq!(
        Strength::Bold.wrap("a".to_string()),
        Span::Bold("a".to_string())
    );
    assert_eq!(
        Strength::BoldItalic.wrap("a".to_string()),
        Span::BoldItalic("a".to_string())
    );
    assert_eq!(
        Strength::Strikeout.wrap("a".to_string()),
        Span::Strikeout("a".to_string())
    );
}

#[test]
fn link_without_a_title() {
    assert_eq!(
        parse_span_link("[123](http://jianshu.com)"),
        Ok(("", link("123", "http://jianshu.com", None)))
    );
    assert_eq!(
        parse_span_link("[a](b) tail"),
        Ok((" tail", link("a", "b", None)))
    );
}

#[test]
fn link_title_runs_to_the_closing_parenthesis() {
    assert_eq!(
        parse_span_link("[a](b c d e)f"),
        Ok(("f", link("a", "b", Some("c d e"))))
    );
}

#[test]
fn link_failures() {
    assert_eq!(
        parse_span_link("123](u)"),
        Err(ParseError::MalformedLinkSyntax)
    );
    assert_eq!(parse_span_link(""), Err(ParseError::MalformedLinkSyntax));
    assert_eq!(parse_span_link("[](u)"), Err(ParseError::EmptyMatch));
    assert_eq!(
        parse_span_link("[ab\n](u)"),
        Err(ParseError::MalformedLinkSyntax)
    );
    assert_eq!(parse_span_link("[ab"), Err(ParseError::MalformedLinkSyntax));
    assert_eq!(parse_span_link("[a]"), Err(ParseError::MalformedLinkSyntax));
    assert_eq!(
        parse_span_link("[a] (u)"),
        Err(ParseError::MalformedLinkSyntax)
    );
    assert_eq!(parse_span_link("[a]()"), Err(ParseError::EmptyMatch));
    assert_eq!(parse_span_link("[a](u"), Err(ParseError::MalformedLinkSyntax));
    assert_eq!(
        parse_span_link("[a](u t"),
        Err(ParseError::MalformedLinkSyntax)
    );
    assert_eq!(
        parse_span_link("[a](u )"),
        Err(ParseError::MalformedLinkSyntax)
    );
    assert_eq!(
        parse_span_link("[a](u\nv)"),
        Err(ParseError::MalformedLinkSyntax)
    );
    assert_eq!(
        parse_span_link("[a](u t\nv)"),
        Err(ParseError::MalformedLinkSyntax)
    );
}

#[test]
fn link_parts() {
    assert_eq!(
        parse_span_link_text("[ab]c"),
        Ok(("c", "ab".to_string()))
    );
    assert_eq!(parse_span_link_text("[]c"), Err(ParseError::EmptyMatch));
    assert_eq!(
        parse_span_link_url("(u t)x"),
        Ok(("x", ("u".to_string(), Some("t".to_string()))))
    );
    assert_eq!(
        parse_span_link_url("(u)x"),
        Ok(("x", ("u".to_string(), None)))
    );
    assert_eq!(
        parse_span_url_title("(u t)x"),
        Ok(("x", ("u".to_string(), Some("t".to_string()))))
    );
    assert_eq!(
        parse_span_url_title("(u)x"),
        Err(ParseError::MalformedLinkSyntax)
    );
    assert_eq!(parse_span_url_title("(u )x"), Err(ParseError::EmptyMatch));
    assert_eq!(
        parse_span_url_title("u t)"),
        Err(ParseError::MalformedLinkSyntax)
    );
    assert_eq!(
        parse_span_url_not_title("(u)x"),
        Ok(("x", ("u".to_string(), None)))
    );
    assert_eq!(
        parse_span_url_not_title("(u t)x"),
        Err(ParseError::MalformedLinkSyntax)
    );
    assert_eq!(parse_span_url_not_title("()"), Err(ParseError::EmptyMatch));
}

#[test]
fn enclosed_run_between_two_tags() {
    assert_eq!(
        parse_enclosed("<<ab)>c", "<<", Stop::Title, ")>"),
        Ok(("c", "ab".to_string()))
    );
    assert_eq!(
        parse_enclosed("<<a\nb)>c", "<<", Stop::Title, ")>"),
        Err(ParseError::MalformedLinkSyntax)
    );
    assert_eq!(
        parse_enclosed("<<)>c", "<<", Stop::Title, ")>"),
        Err(ParseError::EmptyMatch)
    );
    assert_eq!(
        parse_enclosed("###x", "", Stop::NotHash, "x"),
        Ok(("", "###".to_string()))
    );
    assert_eq!(
        parse_enclosed("a\nb", "", Stop::LineBreak, "\n"),
        Ok(("b", "a".to_string()))
    );
}

#[test]
fn stop_characters() {
    assert!(Stop::Bracket.test(']'));
    assert!(Stop::Bracket.test('\n'));
    assert!(!Stop::Bracket.test(')'));
    assert!(Stop::Destination.test(' '));
    assert!(Stop::Destination.test('\n'));
    assert!(Stop::Destination.test(')'));
    assert!(!Stop::Destination.test(']'));
    assert!(Stop::Title.test(')'));
    assert!(Stop::Title.test('\n'));
    assert!(!Stop::Title.test(' '));
    assert!(Stop::Delimiter.test('\n'));
    assert!(Stop::Delimiter.test('*'));
    assert!(Stop::Delimiter.test('~'));
    assert!(!Stop::Delimiter.test('a'));
    assert!(Stop::NotHash.test('a'));
    assert!(!Stop::NotHash.test('#'));
    assert!(Stop::LineBreak.test('\n'));
    assert!(!Stop::LineBreak.test(' '));
}

#[test]
fn text_runs_to_the_end_of_the_line() {
    assert_eq!(parse_span_text("a*b~c**d\ne"), Ok(("\ne", text("a*b~c**d"))));
    assert_eq!(parse_span_text("*a"), Ok(("", text("*a"))));
    assert_eq!(parse_span_text("héllo ***"), Ok(("", text("héllo ***"))));
}

#[test]
fn text_must_not_be_empty() {
    assert_eq!(parse_span_text(""), Err(ParseError::EmptyMatch));
    assert_eq!(parse_span_text("\nabc"), Err(ParseError::EmptyMatch));
}

#[test]
fn parse_span_fails_only_at_the_end_of_a_line() {
    assert_eq!(parse_span(""), Err(ParseError::EmptyMatch));
    assert_eq!(parse_span("\nabc"), Err(ParseError::EmptyMatch));
    assert_eq!(parse_span("~"), Ok(("", text("~"))));
    assert_eq!(parse_span("["), Ok(("", text("["))));
}

#[test]
fn parse_span_takes_each_alternative() {
    assert_eq!(parse_span("11\n"), Ok(("\n", text("11"))));
    assert_eq!(
        parse_span("~11~\n"),
        Ok(("\n", Span::Strikeout("11".to_string())))
    );
    assert_eq!(
        parse_span("***11***\n"),
        Ok(("\n", Span::BoldItalic("11".to_string())))
    );
    assert_eq!(
        parse_span("***11**\n"),
        Ok(("\n", Span::Bold("*11".to_string())))
    );
    assert_eq!(
        parse_span("***11*\n"),
        Ok(("\n", Span::Italic("**11".to_string())))
    );
    assert_eq!(
        parse_span("**11*\n"),
        Ok(("\n", Span::Italic("*11".to_string())))
    );
    assert_eq!(parse_span("11*\n"), Ok(("\n", text("11*"))));
}

#[test]
fn earlier_alternative_wins() {
    // Bold-italic, bold and italic all match; bold-italic comes first.
    assert_eq!(
        parse_span("***a***"),
        Ok(("", Span::BoldItalic("a".to_string())))
    );
    assert_eq!(
        parse_span_bold("***a***"),
        Ok(("", Span::Bold("*a*".to_string())))
    );
    assert_eq!(
        parse_span_italic("***a***"),
        Ok(("", Span::Italic("**a**".to_string())))
    );
    // Bold and italic both match; bold comes first.
    assert_eq!(parse_span("**a**"), Ok(("", Span::Bold("a".to_string()))));
    // A link and plain text both match; the link comes first.
    assert_eq!(parse_span("[a](b)"), Ok(("", link("a", "b", None))));
    assert_eq!(parse_span_text("[a](b)"), Ok(("", text("[a](b)"))));
    // A strikethrough and plain text both match.
    assert_eq!(
        parse_span("~a~b"),
        Ok(("b", Span::Strikeout("a".to_string())))
    );
}

#[test]
fn line_with_a_bold_span() {
    assert_eq!(
        assemble_spans("**hello**"),
        vec![Span::Bold("hello".to_string())]
    );
}

#[test]
fn line_with_an_italic_span_keeps_two_stars() {
    assert_eq!(
        assemble_spans("***hi*"),
        vec![Span::Italic("**hi".to_string())]
    );
}

#[test]
fn line_with_a_titled_link() {
    assert_eq!(
        assemble_spans("[go](http://example.com go-title)"),
        vec![link("go", "http://example.com", Some("go-title"))]
    );
}

#[test]
fn line_with_a_strikeout_span() {
    assert_eq!(
        assemble_spans("~strike~"),
        vec![Span::Strikeout("strike".to_string())]
    );
}

#[test]
fn unterminated_emphasis_is_text() {
    assert_eq!(
        assemble_spans("plain *unterminated"),
        vec![text("plain *unterminated")]
    );
}

#[test]
fn empty_line_has_no_span() {
    assert_eq!(assemble_spans(""), Vec::<Span>::new());
    assert_eq!(assemble_spans("\n**a**"), Vec::<Span>::new());
}

#[test]
fn assemble_reads_spans_one_after_the_other() {
    assert_eq!(
        assemble_spans("**a**~b~[c](d)*e* tail\nnext"),
        vec![
            Span::Bold("a".to_string()),
            Span::Strikeout("b".to_string()),
            link("c", "d", None),
            Span::Italic("e".to_string()),
            text(" tail"),
        ]
    );
}

#[test]
fn parse_spans_leaves_the_input_from_the_line_break_on() {
    assert_eq!(
        parse_spans("*a*b\nc"),
        ("\nc", vec![Span::Italic("a".to_string()), text("b")])
    );
    assert_eq!(parse_spans(""), ("", Vec::new()));
    assert_eq!(parse_spans("\n"), ("\n", Vec::new()));
}

fn render(span: &Span) -> String {
    match span {
        Span::Bold(s) => format!("**{}**", s),
        Span::Italic(s) => format!("*{}*", s),
        Span::BoldItalic(s) => format!("***{}***", s),
        Span::Strikeout(s) => format!("~{}~", s),
        Span::Text(s) => s.clone(),
        Span::Link(l, d, Some(t)) => format!("[{}]({} {})", l, d, t),
        Span::Link(l, d, None) => format!("[{}]({})", l, d),
    }
}

fn render_all(spans: &[Span]) -> String {
    let mut out = String::new();
    for span in spans {
        out.push_str(&render(span));
    }
    out
}

const LINES: [&str; 14] = [
    "",
    "plain",
    "**hello**",
    "***hi*",
    "***a** b*",
    "*a***b**",
    "~a*b~*c*",
    "[go](http://example.com go-title) and more",
    "[go](broken *x* ~y~",
    "**a*b**c***d",
    "~~~",
    "****",
    "*a* **b** ***c*** ~d~",
    "**unterminated",
];

#[test]
fn characters_are_conserved() {
    for line in LINES {
        let spans = assemble_spans(line);
        assert_eq!(render_all(&spans), line);
        let with_next = format!("{}\nnext *line*", line);
        let (rest, spans) = parse_spans(&with_next);
        assert_eq!(render_all(&spans), line);
        assert_eq!(rest, "\nnext *line*");
    }
}

#[test]
fn one_round_trip_is_stable() {
    for line in LINES {
        let spans = assemble_spans(line);
        let again = assemble_spans(&render_all(&spans));
        assert_eq!(again, spans);
        let with_next = format!("{}\nnext", line);
        assert_eq!(assemble_spans(&with_next), spans);
    }
}
