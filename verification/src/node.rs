//! The input document tree, as handed over by the parsing component, and
//! the options that steer encoding. The tree is read-only for the encoder:
//! literals are UTF-8 byte strings, children are owned vectors, and the
//! structural constraints (items under lists, cells under rows) are part of
//! the types, so a style exit without a matching entry cannot be expressed.

use vstd::prelude::*;

verus! {

/// Options that steer encoding.
pub struct Options {
    /// Neutralize blacklisted raw-HTML tags.
    pub ext_tagfilter: bool,
    /// Turn soft breaks into hard break markers instead of newlines.
    pub hardbreaks: bool,
}

/// Whether a list is bulleted or numbered.
#[derive(Clone, Copy, PartialEq, Eq, Structural, Debug)]
pub enum ListType {
    Bullet,
    Ordered,
}

/// Horizontal alignment of one table column.
#[derive(Clone, Copy, PartialEq, Eq, Structural, Debug)]
pub enum TableAlignment {
    NoAlignment,
    Left,
    Center,
    Right,
}

/// One inline node: a piece of a text run.
pub enum InlineNode {
    /// Literal text.
    Text(Vec<u8>),
    /// A hard line break.
    LineBreak,
    /// A soft line break (a newline in the source).
    SoftBreak,
    /// Inline code; its literal is never re-interpreted as markup.
    Code(Vec<u8>),
    /// A raw inline HTML fragment, passed through, subject only to tag filtering.
    HtmlInline(Vec<u8>),
    /// Bold.
    Strong(Vec<InlineNode>),
    /// Italic.
    Emph(Vec<InlineNode>),
    /// Struck-through.
    Strikethrough(Vec<InlineNode>),
    /// Superscript.
    Superscript(Vec<InlineNode>),
    /// A link; its children are the anchor text.
    Link { url: Vec<u8>, title: Vec<u8>, children: Vec<InlineNode> },
    /// An image; its children are the alt text.
    Image { url: Vec<u8>, title: Vec<u8>, children: Vec<InlineNode> },
}

/// One block node.
pub enum BlockNode {
    /// The document root.
    Document(Vec<BlockNode>),
    /// A block quote.
    BlockQuote(Vec<BlockNode>),
    /// A list; a tight list renders its items' paragraphs without wrappers.
    List { list_type: ListType, tight: bool, items: Vec<ListItem> },
    /// A heading with its level.
    Heading { level: u8, content: Vec<InlineNode> },
    /// A fenced or indented code block with its info string.
    CodeBlock { info: Vec<u8>, literal: Vec<u8> },
    /// A raw HTML block.
    HtmlBlock { literal: Vec<u8> },
    /// A thematic break.
    ThematicBreak,
    /// A paragraph of inline content.
    Paragraph(Vec<InlineNode>),
    /// A table with one alignment per column.
    Table { alignments: Vec<TableAlignment>, rows: Vec<TableRow> },
}

/// One item of a list.
pub struct ListItem {
    pub blocks: Vec<BlockNode>,
}

/// One row of a table.
pub struct TableRow {
    pub header: bool,
    pub cells: Vec<TableCell>,
}

/// One cell of a table row; its content is an independent text scope.
pub struct TableCell {
    pub content: Vec<InlineNode>,
}

} // verus!
