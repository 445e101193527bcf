//! The encoder's output: flat text with formatting spans per scope, typed
//! inline events anchored at text offsets, and structural block nodes.
//! Each type comes with a ghost model over `Seq` and `int` that the
//! encoder's contracts are stated against.

use vstd::prelude::*;
use crate::node::TableAlignment;

verus! {

/// Style bit for bold text.
pub const STYLE_BOLD: u32 = 1;

/// Style bit for italic text.
pub const STYLE_ITALIC: u32 = 2;

/// Style bit for struck-through text.
pub const STYLE_STRIKETHROUGH: u32 = 8;

/// Style bit for superscript text.
pub const STYLE_SUPERSCRIPT: u32 = 32;

/// Style bit for inline code.
pub const STYLE_CODE: u32 = 64;

/// One finished formatting annotation: the combined style mask active over
/// `length` bytes of the scope's text starting at byte `start`.
#[derive(Clone, Copy, PartialEq, Eq, Structural, Debug)]
pub struct FormatSpan {
    pub mask: u32,
    pub start: usize,
    pub length: usize,
}

/// Ghost mirror of a `FormatSpan`, with unbounded offsets.
pub struct SpanModel {
    pub mask: u32,
    pub start: int,
    pub length: int,
}

/// A typed event recorded in a scope at a text offset: a line break, a
/// link with its independently encoded anchor text, or an image.
pub enum InlineEvent {
    /// A hard break between the bytes at offsets `at - 1` and `at`.
    Break { at: usize },
    /// A link; its anchor text and spans live in their own offset scope.
    Link { at: usize, url: Vec<u8>, content: InlineOutput },
    /// An image with its encoded source, flattened alt text, the break
    /// markers inside that alt text, and the escaped title.
    Image { at: usize, url: Vec<u8>, alt: Vec<u8>, alt_breaks: Vec<usize>, title: Vec<u8> },
}

/// The finished output of one text scope: the flattened escaped text, the
/// formatting spans over it (in closing order), and the events anchored in
/// it (in source order).
pub struct InlineOutput {
    pub text: Vec<u8>,
    pub formatting: Vec<FormatSpan>,
    pub events: Vec<InlineEvent>,
}

/// Ghost mirror of an `InlineEvent`.
pub enum EventModel {
    Break { at: int },
    Link { at: int, url: Seq<u8>, text: Seq<u8>, formatting: Seq<SpanModel>, events: Seq<EventModel> },
    Image { at: int, url: Seq<u8>, alt: Seq<u8>, alt_breaks: Seq<int>, title: Seq<u8> },
}

/// The ghost model of one span.
pub open spec fn span_model(s: FormatSpan) -> SpanModel {
    SpanModel { mask: s.mask, start: s.start as int, length: s.length as int }
}

/// The ghost model of a span list.
pub open spec fn spans_view(ss: Seq<FormatSpan>) -> Seq<SpanModel> {
    ss.map_values(|s: FormatSpan| span_model(s))
}

/// The ghost model of a list of break offsets.
pub open spec fn breaks_view(bs: Seq<usize>) -> Seq<int> {
    bs.map_values(|b: usize| b as int)
}

/// The ghost model of one event; a link's anchor output is modelled whole.
pub open spec fn event_model(e: InlineEvent) -> EventModel
    decreases e,
{
    match e {
        InlineEvent::Break { at } => EventModel::Break { at: at as int },
        InlineEvent::Link { at, url, content } => EventModel::Link {
            at: at as int,
            url: url@,
            text: content.text@,
            formatting: spans_view(content.formatting@),
            events: events_view(content.events@),
        },
        InlineEvent::Image { at, url, alt, alt_breaks, title } => EventModel::Image {
            at: at as int,
            url: url@,
            alt: alt@,
            alt_breaks: breaks_view(alt_breaks@),
            title: title@,
        },
    }
}

/// The ghost model of an event list.
pub open spec fn events_view(es: Seq<InlineEvent>) -> Seq<EventModel>
    decreases es,
{
    if es.len() == 0 {
        Seq::empty()
    } else {
        events_view(es.drop_last()).push(event_model(es.last()))
    }
}

/// Appending a span commutes with taking the ghost model.
pub proof fn lemma_spans_view_push(ss: Seq<FormatSpan>, s: FormatSpan)
    ensures
        spans_view(ss.push(s)) == spans_view(ss).push(span_model(s)),
{
    assert(spans_view(ss.push(s)) =~= spans_view(ss).push(span_model(s)));
}

/// Appending an event commutes with taking the ghost model.
pub proof fn lemma_events_view_push(es: Seq<InlineEvent>, e: InlineEvent)
    ensures
        events_view(es.push(e)) == events_view(es).push(event_model(e)),
{
    assert(es.push(e).drop_last() =~= es);
    assert(es.push(e).last() == e);
}

/// One encoded block node.
pub enum OutputNode {
    /// The document root.
    Document { children: Vec<OutputNode> },
    /// A block quote.
    BlockQuote { children: Vec<OutputNode> },
    /// A list; `ordered` tells a numbered list from a bulleted one.
    List { ordered: bool, children: Vec<OutputNode> },
    /// One item of a list.
    Item { children: Vec<OutputNode> },
    /// A heading with its level and encoded inline content.
    Heading { level: u8, content: InlineOutput },
    /// A code block: the escaped language tag, if the info string gave
    /// one, and one escaped raw line per newline-delimited source line.
    CodeBlock { lang: Option<Vec<u8>>, lines: Vec<Vec<u8>> },
    /// A raw HTML block, tag-filtered when that option is on.
    HtmlBlock { literal: Vec<u8> },
    /// A thematic break.
    ThematicBreak,
    /// A paragraph of encoded inline content.
    Paragraph { content: InlineOutput },
    /// Inline content standing bare: a paragraph whose wrapper a tight
    /// list suppressed.
    TextRun { content: InlineOutput },
    /// A table.
    Table { rows: Vec<OutputRow> },
}

/// One encoded table row.
pub struct OutputRow {
    pub header: bool,
    pub cells: Vec<OutputCell>,
}

/// One encoded table cell; header cells carry their column's alignment.
pub struct OutputCell {
    pub alignment: TableAlignment,
    pub content: InlineOutput,
}

} // verus!
