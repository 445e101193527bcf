//! The ghost model of inline encoding: for a sequence of inline siblings
//! encoded into one text scope, these functions give the exact flattened
//! text, the exact formatting spans (in closing order: children before
//! their parent, siblings left to right), and the exact events, all as
//! functions of the input tree and the options.
//!
//! Offsets are relative to the scope: a span opened at position `pos`
//! covers the escaped text of the style node's subtree, and a nested style
//! combines with its ancestors by bitwise OR.

use vstd::prelude::*;
use crate::escape::{NEWLINE, href_escaped, text_escaped};
use crate::node::{InlineNode, Options};
use crate::output::{
    EventModel, SpanModel, STYLE_BOLD, STYLE_CODE, STYLE_ITALIC, STYLE_STRIKETHROUGH,
    STYLE_SUPERSCRIPT,
};
use crate::tagfilter::is_banned_tag;

verus! {

/// Whether this node opens a style that wraps child inlines.
pub open spec fn is_style_node(n: InlineNode) -> bool {
    n is Strong || n is Emph || n is Strikethrough || n is Superscript
}

/// The style bit a node contributes; zero for unstyled nodes.
pub open spec fn style_value(n: InlineNode) -> u32 {
    match n {
        InlineNode::Strong(_) => STYLE_BOLD,
        InlineNode::Emph(_) => STYLE_ITALIC,
        InlineNode::Strikethrough(_) => STYLE_STRIKETHROUGH,
        InlineNode::Superscript(_) => STYLE_SUPERSCRIPT,
        InlineNode::Code(_) => STYLE_CODE,
        _ => 0,
    }
}

/// The children of a style node.
pub open spec fn style_children(n: InlineNode) -> Seq<InlineNode> {
    match n {
        InlineNode::Strong(cs) => cs@,
        InlineNode::Emph(cs) => cs@,
        InlineNode::Strikethrough(cs) => cs@,
        InlineNode::Superscript(cs) => cs@,
        _ => Seq::empty(),
    }
}

/// The bytes one inline node adds to its scope's text.
pub open spec fn text_of(n: InlineNode, o: Options) -> Seq<u8>
    decreases n,
{
    match n {
        InlineNode::Text(lit) => text_escaped(lit@),
        InlineNode::LineBreak => Seq::empty(),
        InlineNode::SoftBreak => if o.hardbreaks {
            Seq::empty()
        } else {
            seq![NEWLINE]
        },
        InlineNode::Code(lit) => text_escaped(lit@),
        InlineNode::HtmlInline(lit) => if o.ext_tagfilter && is_banned_tag(lit@) {
            seq![38u8, 108u8, 116u8, 59u8] + lit@.skip(1)  // &lt; then the rest
        } else {
            lit@
        },
        InlineNode::Strong(cs) => texts_of(cs@, o),
        InlineNode::Emph(cs) => texts_of(cs@, o),
        InlineNode::Strikethrough(cs) => texts_of(cs@, o),
        InlineNode::Superscript(cs) => texts_of(cs@, o),
        InlineNode::Link { .. } => Seq::empty(),
        InlineNode::Image { .. } => Seq::empty(),
    }
}

/// The bytes a run of inline siblings adds to its scope's text.
pub open spec fn texts_of(ns: Seq<InlineNode>, o: Options) -> Seq<u8>
    decreases ns,
{
    if ns.len() == 0 {
        Seq::empty()
    } else {
        texts_of(ns.drop_last(), o) + text_of(ns.last(), o)
    }
}

/// The spans one inline node adds to its scope, given the offset `pos` at
/// which the node starts and the OR of all styles already open around it.
pub open spec fn spans_of(n: InlineNode, pos: int, inh: u32, o: Options) -> Seq<SpanModel>
    decreases n,
{
    match n {
        InlineNode::Code(lit) => seq![
            SpanModel {
                mask: STYLE_CODE | inh,
                start: pos,
                length: text_escaped(lit@).len() as int,
            },
        ],
        InlineNode::Strong(cs) => spans_list(cs@, pos, STYLE_BOLD | inh, o).push(
            SpanModel {
                mask: STYLE_BOLD | inh,
                start: pos,
                length: texts_of(cs@, o).len() as int,
            },
        ),
        InlineNode::Emph(cs) => spans_list(cs@, pos, STYLE_ITALIC | inh, o).push(
            SpanModel {
                mask: STYLE_ITALIC | inh,
                start: pos,
                length: texts_of(cs@, o).len() as int,
            },
        ),
        InlineNode::Strikethrough(cs) => spans_list(cs@, pos, STYLE_STRIKETHROUGH | inh, o).push(
            SpanModel {
                mask: STYLE_STRIKETHROUGH | inh,
                start: pos,
                length: texts_of(cs@, o).len() as int,
            },
        ),
        InlineNode::Superscript(cs) => spans_list(cs@, pos, STYLE_SUPERSCRIPT | inh, o).push(
            SpanModel {
                mask: STYLE_SUPERSCRIPT | inh,
                start: pos,
                length: texts_of(cs@, o).len() as int,
            },
        ),
        _ => Seq::empty(),
    }
}

/// The spans a run of inline siblings adds to its scope, in closing order.
pub open spec fn spans_list(ns: Seq<InlineNode>, pos: int, inh: u32, o: Options) -> Seq<SpanModel>
    decreases ns,
{
    if ns.len() == 0 {
        Seq::empty()
    } else {
        spans_list(ns.drop_last(), pos, inh, o) + spans_of(
            ns.last(),
            pos + texts_of(ns.drop_last(), o).len(),
            inh,
            o,
        )
    }
}

/// The events one inline node records in its scope at offset `pos`.
pub open spec fn ev_of(n: InlineNode, pos: int, o: Options) -> Seq<EventModel>
    decreases n,
{
    match n {
        InlineNode::LineBreak => seq![EventModel::Break { at: pos }],
        InlineNode::SoftBreak => if o.hardbreaks {
            seq![EventModel::Break { at: pos }]
        } else {
            Seq::empty()
        },
        InlineNode::Strong(cs) => events_list(cs@, pos, o),
        InlineNode::Emph(cs) => events_list(cs@, pos, o),
        InlineNode::Strikethrough(cs) => events_list(cs@, pos, o),
        InlineNode::Superscript(cs) => events_list(cs@, pos, o),
        InlineNode::Link { url, title, children } => seq![
            EventModel::Link {
                at: pos,
                url: href_escaped(url@),
                text: texts_of(children@, o),
                formatting: spans_list(children@, 0, 0, o),
                events: events_list(children@, 0, o),
            },
        ],
        InlineNode::Image { url, title, children } => seq![
            EventModel::Image {
                at: pos,
                url: href_escaped(url@),
                alt: plains_of(children@),
                alt_breaks: plain_breaks_list(children@, 0),
                title: text_escaped(title@),
            },
        ],
        _ => Seq::empty(),
    }
}

/// The events a run of inline siblings records in its scope.
pub open spec fn events_list(ns: Seq<InlineNode>, pos: int, o: Options) -> Seq<EventModel>
    decreases ns,
{
    if ns.len() == 0 {
        Seq::empty()
    } else {
        events_list(ns.drop_last(), pos, o) + ev_of(
            ns.last(),
            pos + texts_of(ns.drop_last(), o).len(),
            o,
        )
    }
}

/// The flattened plain text of one inline node: escaped literals, no
/// styling, and nothing for breaks — a break leaves only a typed marker
/// (see `plain_breaks_of`), so it stays distinguishable from printable
/// text. Used for image alt text.
pub open spec fn plain_of(n: InlineNode) -> Seq<u8>
    decreases n,
{
    match n {
        InlineNode::Text(lit) => text_escaped(lit@),
        InlineNode::LineBreak => Seq::empty(),
        InlineNode::SoftBreak => Seq::empty(),
        InlineNode::Code(lit) => text_escaped(lit@),
        InlineNode::HtmlInline(lit) => text_escaped(lit@),
        InlineNode::Strong(cs) => plains_of(cs@),
        InlineNode::Emph(cs) => plains_of(cs@),
        InlineNode::Strikethrough(cs) => plains_of(cs@),
        InlineNode::Superscript(cs) => plains_of(cs@),
        InlineNode::Link { children, .. } => plains_of(children@),
        InlineNode::Image { children, .. } => plains_of(children@),
    }
}

/// The flattened plain text of a run of inline siblings.
pub open spec fn plains_of(ns: Seq<InlineNode>) -> Seq<u8>
    decreases ns,
{
    if ns.len() == 0 {
        Seq::empty()
    } else {
        plains_of(ns.drop_last()) + plain_of(ns.last())
    }
}

/// The break markers one inline node leaves in plain text, as offsets
/// into the flattened text; the node itself starts at offset `pos`.
pub open spec fn plain_breaks_of(n: InlineNode, pos: int) -> Seq<int>
    decreases n,
{
    match n {
        InlineNode::LineBreak => seq![pos],
        InlineNode::SoftBreak => seq![pos],
        InlineNode::Strong(cs) => plain_breaks_list(cs@, pos),
        InlineNode::Emph(cs) => plain_breaks_list(cs@, pos),
        InlineNode::Strikethrough(cs) => plain_breaks_list(cs@, pos),
        InlineNode::Superscript(cs) => plain_breaks_list(cs@, pos),
        InlineNode::Link { children, .. } => plain_breaks_list(children@, pos),
        InlineNode::Image { children, .. } => plain_breaks_list(children@, pos),
        _ => Seq::empty(),
    }
}

/// The break markers a run of inline siblings leaves in plain text.
pub open spec fn plain_breaks_list(ns: Seq<InlineNode>, pos: int) -> Seq<int>
    decreases ns,
{
    if ns.len() == 0 {
        Seq::empty()
    } else {
        plain_breaks_list(ns.drop_last(), pos) + plain_breaks_of(
            ns.last(),
            pos + plains_of(ns.drop_last()).len(),
        )
    }
}

} // verus!
