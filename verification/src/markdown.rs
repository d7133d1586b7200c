//! The document tree: blocks, and the inline spans they hold.
use vstd::prelude::*;

verus! {

/// A whole document: its blocks in order.
pub struct Markdown(pub Vec<Block>);

/// One block of a document.
#[derive(Debug, PartialEq)]
pub enum Block {
    /// A header: its level (the number of `#`) and its content.
    Header(usize, Vec<Span>),
    /// A paragraph.
    Paragraph(Vec<Span>),
    /// A horizontal rule.
    Hr,
    /// An image: alternative text, destination, optional title.
    Image(String, String, Option<String>),
    /// A quote and the blocks inside it.
    Quote(Vec<Block>),
}

/// One inline span. Every content field is literal text: delimiter
/// characters that were read as structure are gone, those left over from a
/// longer run are kept as characters.
#[derive(Debug, PartialEq)]
pub enum Span {
    Bold(String),
    Italic(String),
    BoldItalic(String),
    Strikeout(String),
    Text(String),
    /// A hyperlink: label, destination, optional title.
    Link(String, String, Option<String>),
}

/// The mathematical value of a [`Span`].
pub enum SpanView {
    Bold(Seq<char>),
    Italic(Seq<char>),
    BoldItalic(Seq<char>),
    Strikeout(Seq<char>),
    Text(Seq<char>),
    Link(Seq<char>, Seq<char>, Option<Seq<char>>),
}

/// The mathematical value of a [`Block`].
pub enum BlockView {
    Header(nat, Seq<SpanView>),
    Paragraph(Seq<SpanView>),
    Hr,
    Image(Seq<char>, Seq<char>, Option<Seq<char>>),
    Quote(Seq<BlockView>),
}

/// The value of an optional string.
pub open spec fn opt_view(o: Option<String>) -> Option<Seq<char>> {
    match o {
        Some(s) => Some(s@),
        None => None,
    }
}

impl View for Span {
    type V = SpanView;

    open spec fn view(&self) -> SpanView {
        match *self {
            Span::Bold(s) => SpanView::Bold(s@),
            Span::Italic(s) => SpanView::Italic(s@),
            Span::BoldItalic(s) => SpanView::BoldItalic(s@),
            Span::Strikeout(s) => SpanView::Strikeout(s@),
            Span::Text(s) => SpanView::Text(s@),
            Span::Link(label, dest, title) => SpanView::Link(label@, dest@, opt_view(title)),
        }
    }
}

/// The values of a sequence of spans, in order.
pub open spec fn span_views(spans: Seq<Span>) -> Seq<SpanView> {
    spans.map_values(|s: Span| s@)
}

/// The values of a sequence of blocks, in order.
pub open spec fn block_views(blocks: Seq<Block>) -> Seq<BlockView>
    decreases blocks,
{
    Seq::new(blocks.len(), |k: int| if 0 <= k < blocks.len() { block_view(blocks[k]) } else { BlockView::Hr })
}

/// The value of one block.
pub open spec fn block_view(block: Block) -> BlockView
    decreases block,
{
    match block {
        Block::Header(level, spans) => BlockView::Header(level as nat, span_views(spans@)),
        Block::Paragraph(spans) => BlockView::Paragraph(span_views(spans@)),
        Block::Hr => BlockView::Hr,
        Block::Image(alt, dest, title) => BlockView::Image(alt@, dest@, opt_view(title)),
        Block::Quote(inner) => BlockView::Quote(block_views(inner@)),
    }
}

impl View for Block {
    type V = BlockView;

    open spec fn view(&self) -> BlockView {
        block_view(*self)
    }
}

impl View for Markdown {
    type V = Seq<BlockView>;

    open spec fn view(&self) -> Seq<BlockView> {
        block_views(self.0@)
    }
}

impl SpanView {
    /// The markup that stands for this span: its content between the
    /// delimiters of its kind.
    pub open spec fn render(self) -> Seq<char> {
        match self {
            SpanView::Bold(s) => seq!['*', '*'] + s + seq!['*', '*'],
            SpanView::Italic(s) => seq!['*'] + s + seq!['*'],
            SpanView::BoldItalic(s) => seq!['*', '*', '*'] + s + seq!['*', '*', '*'],
            SpanView::Strikeout(s) => seq!['~'] + s + seq!['~'],
            SpanView::Text(s) => s,
            SpanView::Link(label, dest, title) => match title {
                Some(t) => seq!['['] + label + seq![']', '('] + dest + seq![' '] + t + seq![')'],
                None => seq!['['] + label + seq![']', '('] + dest + seq![')'],
            },
        }
    }
}

/// The markup of a sequence of spans, one after the other.
pub open spec fn render_all(spans: Seq<SpanView>) -> Seq<char>
    decreases spans.len(),
{
    if spans.len() == 0 {
        Seq::empty()
    } else {
        render_all(spans.drop_last()) + spans.last().render()
    }
}

} // verus!
