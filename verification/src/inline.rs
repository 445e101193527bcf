//! The inline encoder: a depth-first walk over an inline subtree that
//! escapes and flattens its text into the current scope, tracks style
//! nesting through the scope's marker stack, and redirects a link's anchor
//! text into a fresh scope of its own. The contracts tie every step to the
//! ghost model in `model`.

use vstd::prelude::*;
use crate::escape::{NEWLINE, escape_href, escape_text, escape_text_into, text_escaped};
use crate::model::{
    ev_of, events_list, plain_breaks_list, plain_breaks_of, plain_of, plains_of, spans_list,
    spans_of, text_of, texts_of,
};
use crate::node::{InlineNode, Options};
use crate::output::{
    FormatSpan, InlineEvent, InlineOutput, STYLE_BOLD, STYLE_CODE, STYLE_ITALIC,
    STYLE_STRIKETHROUGH, STYLE_SUPERSCRIPT, breaks_view, events_view, lemma_events_view_push,
    lemma_spans_view_push, spans_view,
};
use crate::scope::{OpenMarker, TextScope, or_masks};
use crate::tagfilter::tagfilter;

verus! {

/// What it means for `out` to be the correct encoding of the inline run
/// `ns` as one scope: the text, the spans and the events all equal the
/// ghost model's, with offsets relative to the scope's own start.
pub open spec fn inline_run_ok(ns: Seq<InlineNode>, out: InlineOutput, o: Options) -> bool {
    &&& out.text@ == texts_of(ns, o)
    &&& spans_view(out.formatting@) == spans_list(ns, 0, 0, o)
    &&& events_view(out.events@) == events_list(ns, 0, o)
}

/// ORing an already-present mask in again changes nothing.
proof fn lemma_or_absorb(a: u32, v: u32)
    ensures
        a | (v | a) == v | a,
{
    assert(a | (v | a) == v | a) by (bit_vector);
}

/// Encodes one run of inline siblings into a fresh scope of its own and
/// returns the finished output.
pub fn encode_inlines(ns: &Vec<InlineNode>, o: &Options) -> (out: InlineOutput)
    ensures
        inline_run_ok(ns@, out, *o),
    decreases ns@, 1int,
{
    let mut scope = TextScope::new();
    encode_list_into(&mut scope, ns, o);
    InlineOutput { text: scope.buffer, formatting: scope.spans, events: scope.events }
}

/// Encodes a run of inline siblings into the current scope, left to right.
fn encode_list_into(scope: &mut TextScope, ns: &Vec<InlineNode>, o: &Options)
    requires
        old(scope).wf(),
    ensures
        final(scope).wf(),
        final(scope).markers@ == old(scope).markers@,
        final(scope).buffer@ == old(scope).buffer@ + texts_of(ns@, *o),
        spans_view(final(scope).spans@) == spans_view(old(scope).spans@) + spans_list(
            ns@,
            old(scope).buffer@.len() as int,
            or_masks(old(scope).markers@),
            *o,
        ),
        events_view(final(scope).events@) == events_view(old(scope).events@) + events_list(
            ns@,
            old(scope).buffer@.len() as int,
            *o,
        ),
    decreases ns@, 0int,
{
    let ghost b0 = scope.buffer@;
    let ghost m0 = scope.markers@;
    let ghost s0 = spans_view(scope.spans@);
    let ghost e0 = events_view(scope.events@);
    let mut i: usize = 0;
    while i < ns.len()
        invariant
            i <= ns.len(),
            scope.wf(),
            scope.markers@ == m0,
            scope.buffer@ == b0 + texts_of(ns@.take(i as int), *o),
            spans_view(scope.spans@) == s0 + spans_list(
                ns@.take(i as int),
                b0.len() as int,
                or_masks(m0),
                *o,
            ),
            events_view(scope.events@) == e0 + events_list(
                ns@.take(i as int),
                b0.len() as int,
                *o,
            ),
        decreases ns.len() - i,
    {
        encode_node(scope, &ns[i], o);
        proof {
            let p = ns@.take(i + 1);
            assert(p.drop_last() =~= ns@.take(i as int));
            assert(p.last() == ns@[i as int]);
            assert(scope.buffer@ =~= b0 + texts_of(p, *o));
            assert(spans_view(scope.spans@) =~= s0 + spans_list(
                p,
                b0.len() as int,
                or_masks(m0),
                *o,
            ));
            assert(events_view(scope.events@) =~= e0 + events_list(p, b0.len() as int, *o));
        }
        i = i + 1;
    }
    proof {
        assert(ns@.take(ns@.len() as int) =~= ns@);
    }
}

/// Encodes one inline node into the current scope.
fn encode_node(scope: &mut TextScope, n: &InlineNode, o: &Options)
    requires
        old(scope).wf(),
    ensures
        final(scope).wf(),
        final(scope).markers@ == old(scope).markers@,
        final(scope).buffer@ == old(scope).buffer@ + text_of(*n, *o),
        spans_view(final(scope).spans@) == spans_view(old(scope).spans@) + spans_of(
            *n,
            old(scope).buffer@.len() as int,
            or_masks(old(scope).markers@),
            *o,
        ),
        events_view(final(scope).events@) == events_view(old(scope).events@) + ev_of(
            *n,
            old(scope).buffer@.len() as int,
            *o,
        ),
    decreases *n, 0int,
{
    let ghost b0 = scope.buffer@;
    let ghost m0 = scope.markers@;
    let ghost s0 = spans_view(scope.spans@);
    let ghost e0 = events_view(scope.events@);
    proof {
        assert(b0.len() == scope.buffer.len());
    }
    match n {
        InlineNode::Text(lit) => {
            scope.write(lit);
            proof {
                assert(spans_view(scope.spans@) =~= s0 + spans_of(*n, b0.len() as int, or_masks(m0), *o));
                assert(events_view(scope.events@) =~= e0 + ev_of(*n, b0.len() as int, *o));
            }
        },
        InlineNode::LineBreak => {
            scope.record_break();
            proof {
                lemma_events_view_push(old(scope).events@, InlineEvent::Break { at: b0.len() as usize });
                assert(scope.buffer@ =~= b0 + text_of(*n, *o));
                assert(spans_view(scope.spans@) =~= s0 + spans_of(*n, b0.len() as int, or_masks(m0), *o));
                assert(events_view(scope.events@) =~= e0 + ev_of(*n, b0.len() as int, *o));
            }
        },
        InlineNode::SoftBreak => {
            if o.hardbreaks {
                scope.record_break();
                proof {
                    lemma_events_view_push(
                        old(scope).events@,
                        InlineEvent::Break { at: b0.len() as usize },
                    );
                    assert(scope.buffer@ =~= b0 + text_of(*n, *o));
                    assert(spans_view(scope.spans@) =~= s0 + spans_of(*n, b0.len() as int, or_masks(m0), *o));
                    assert(events_view(scope.events@) =~= e0 + ev_of(*n, b0.len() as int, *o));
                }
            } else {
                scope.write_byte(NEWLINE);
                proof {
                    assert(scope.buffer@ =~= b0 + text_of(*n, *o));
                    assert(spans_view(scope.spans@) =~= s0 + spans_of(*n, b0.len() as int, or_masks(m0), *o));
                    assert(events_view(scope.events@) =~= e0 + ev_of(*n, b0.len() as int, *o));
                }
            }
        },
        InlineNode::Code(lit) => {
            scope.open_style(STYLE_CODE);
            scope.write(lit);
            let ghost s1 = scope.spans@;
            scope.close_style();
            proof {
                let inh: u32 = or_masks(m0);
                assert(scope.buffer@.len() == scope.buffer.len());
                let marker = OpenMarker { mask: STYLE_CODE | inh, start: b0.len() as usize };
                assert(m0.push(marker).drop_last() =~= m0);
                lemma_spans_view_push(
                    s1,
                    FormatSpan {
                        mask: STYLE_CODE | inh,
                        start: b0.len() as usize,
                        length: text_escaped(lit@).len() as usize,
                    },
                );
                assert(spans_view(scope.spans@) =~= s0 + spans_of(*n, b0.len() as int, inh, *o));
                assert(events_view(scope.events@) =~= e0 + ev_of(*n, b0.len() as int, *o));
            }
        },
        InlineNode::HtmlInline(lit) => {
            if o.ext_tagfilter && tagfilter(lit) {
                scope.write_byte(38);  // &
                scope.write_byte(108);  // l
                scope.write_byte(116);  // t
                scope.write_byte(59);  // ;
                scope.write_verbatim_tail(lit, 1);
            } else {
                scope.write_verbatim(lit);
            }
            proof {
                assert(scope.buffer@ =~= b0 + text_of(*n, *o));
                assert(spans_view(scope.spans@) =~= s0 + spans_of(*n, b0.len() as int, or_masks(m0), *o));
                assert(events_view(scope.events@) =~= e0 + ev_of(*n, b0.len() as int, *o));
            }
        },
        InlineNode::Strong(cs) => {
            scope.open_style(STYLE_BOLD);
            proof {
                let inh: u32 = or_masks(m0);
                let marker = OpenMarker { mask: STYLE_BOLD | inh, start: b0.len() as usize };
                assert(m0.push(marker).drop_last() =~= m0);
                assert(or_masks(m0.push(marker)) == inh | marker.mask);
                lemma_or_absorb(inh, STYLE_BOLD);
                assert(or_masks(scope.markers@) == STYLE_BOLD | inh);
            }
            encode_list_into(scope, cs, o);
            let ghost s1 = scope.spans@;
            scope.close_style();
            proof {
                let inh: u32 = or_masks(m0);
                assert(scope.buffer@.len() == scope.buffer.len());
                lemma_spans_view_push(
                    s1,
                    FormatSpan {
                        mask: STYLE_BOLD | inh,
                        start: b0.len() as usize,
                        length: texts_of(cs@, *o).len() as usize,
                    },
                );
                assert(m0.push(
                    OpenMarker { mask: STYLE_BOLD | inh, start: b0.len() as usize },
                ).drop_last() =~= m0);
                assert(spans_view(scope.spans@) =~= s0 + spans_of(*n, b0.len() as int, inh, *o));
                assert(events_view(scope.events@) =~= e0 + ev_of(*n, b0.len() as int, *o));
            }
        },
        InlineNode::Emph(cs) => {
            scope.open_style(STYLE_ITALIC);
            proof {
                let inh: u32 = or_masks(m0);
                let marker = OpenMarker { mask: STYLE_ITALIC | inh, start: b0.len() as usize };
                assert(m0.push(marker).drop_last() =~= m0);
                assert(or_masks(m0.push(marker)) == inh | marker.mask);
                lemma_or_absorb(inh, STYLE_ITALIC);
                assert(or_masks(scope.markers@) == STYLE_ITALIC | inh);
            }
            encode_list_into(scope, cs, o);
            let ghost s1 = scope.spans@;
            scope.close_style();
            proof {
                let inh: u32 = or_masks(m0);
                assert(scope.buffer@.len() == scope.buffer.len());
                lemma_spans_view_push(
                    s1,
                    FormatSpan {
                        mask: STYLE_ITALIC | inh,
                        start: b0.len() as usize,
                        length: texts_of(cs@, *o).len() as usize,
                    },
                );
                assert(m0.push(
                    OpenMarker { mask: STYLE_ITALIC | inh, start: b0.len() as usize },
                ).drop_last() =~= m0);
                assert(spans_view(scope.spans@) =~= s0 + spans_of(*n, b0.len() as int, inh, *o));
                assert(events_view(scope.events@) =~= e0 + ev_of(*n, b0.len() as int, *o));
            }
        },
        InlineNode::Strikethrough(cs) => {
            scope.open_style(STYLE_STRIKETHROUGH);
            proof {
                let inh: u32 = or_masks(m0);
                let marker = OpenMarker { mask: STYLE_STRIKETHROUGH | inh, start: b0.len() as usize };
                assert(m0.push(marker).drop_last() =~= m0);
                assert(or_masks(m0.push(marker)) == inh | marker.mask);
                lemma_or_absorb(inh, STYLE_STRIKETHROUGH);
                assert(or_masks(scope.markers@) == STYLE_STRIKETHROUGH | inh);
            }
            encode_list_into(scope, cs, o);
            let ghost s1 = scope.spans@;
            scope.close_style();
            proof {
                let inh: u32 = or_masks(m0);
                assert(scope.buffer@.len() == scope.buffer.len());
                lemma_spans_view_push(
                    s1,
                    FormatSpan {
                        mask: STYLE_STRIKETHROUGH | inh,
                        start: b0.len() as usize,
                        length: texts_of(cs@, *o).len() as usize,
                    },
                );
                assert(m0.push(
                    OpenMarker { mask: STYLE_STRIKETHROUGH | inh, start: b0.len() as usize },
                ).drop_last() =~= m0);
                assert(spans_view(scope.spans@) =~= s0 + spans_of(*n, b0.len() as int, inh, *o));
                assert(events_view(scope.events@) =~= e0 + ev_of(*n, b0.len() as int, *o));
            }
        },
        InlineNode::Superscript(cs) => {
            scope.open_style(STYLE_SUPERSCRIPT);
            proof {
                let inh: u32 = or_masks(m0);
                let marker = OpenMarker { mask: STYLE_SUPERSCRIPT | inh, start: b0.len() as usize };
                assert(m0.push(marker).drop_last() =~= m0);
                assert(or_masks(m0.push(marker)) == inh | marker.mask);
                lemma_or_absorb(inh, STYLE_SUPERSCRIPT);
                assert(or_masks(scope.markers@) == STYLE_SUPERSCRIPT | inh);
            }
            encode_list_into(scope, cs, o);
            let ghost s1 = scope.spans@;
            scope.close_style();
            proof {
                let inh: u32 = or_masks(m0);
                assert(scope.buffer@.len() == scope.buffer.len());
                lemma_spans_view_push(
                    s1,
                    FormatSpan {
                        mask: STYLE_SUPERSCRIPT | inh,
                        start: b0.len() as usize,
                        length: texts_of(cs@, *o).len() as usize,
                    },
                );
                assert(m0.push(
                    OpenMarker { mask: STYLE_SUPERSCRIPT | inh, start: b0.len() as usize },
                ).drop_last() =~= m0);
                assert(spans_view(scope.spans@) =~= s0 + spans_of(*n, b0.len() as int, inh, *o));
                assert(events_view(scope.events@) =~= e0 + ev_of(*n, b0.len() as int, *o));
            }
        },
        InlineNode::Link { url, title, children } => {
            let content = encode_inlines(children, o);
            let u = escape_href(url);
            scope.record_link(u, content);
            proof {
                lemma_events_view_push(
                    old(scope).events@,
                    InlineEvent::Link { at: b0.len() as usize, url: u, content },
                );
                assert(scope.buffer@ =~= b0 + text_of(*n, *o));
                assert(spans_view(scope.spans@) =~= s0 + spans_of(*n, b0.len() as int, or_masks(m0), *o));
                assert(events_view(scope.events@) =~= e0 + ev_of(*n, b0.len() as int, *o));
            }
        },
        InlineNode::Image { url, title, children } => {
            let (alt, alt_breaks) = encode_plain(children);
            let u = escape_href(url);
            let t = escape_text(title);
            scope.record_image(u, alt, alt_breaks, t);
            proof {
                lemma_events_view_push(
                    old(scope).events@,
                    InlineEvent::Image {
                        at: b0.len() as usize,
                        url: u,
                        alt,
                        alt_breaks,
                        title: t,
                    },
                );
                assert(scope.buffer@ =~= b0 + text_of(*n, *o));
                assert(spans_view(scope.spans@) =~= s0 + spans_of(*n, b0.len() as int, or_masks(m0), *o));
                assert(events_view(scope.events@) =~= e0 + ev_of(*n, b0.len() as int, *o));
            }
        },
    }
}

/// Encodes a run of inline siblings as plain text: escaped literals with
/// no styling, and a typed break marker (an offset into that text) for
/// every line break. Used for image alt text.
pub fn encode_plain(ns: &Vec<InlineNode>) -> (out: (Vec<u8>, Vec<usize>))
    ensures
        out.0@ == plains_of(ns@),
        breaks_view(out.1@) == plain_breaks_list(ns@, 0),
    decreases ns@, 1int,
{
    let mut text: Vec<u8> = Vec::new();
    let mut breaks: Vec<usize> = Vec::new();
    encode_plain_list(&mut text, &mut breaks, ns);
    proof {
        assert(text@ =~= plains_of(ns@));
        assert(breaks_view(breaks@) =~= plain_breaks_list(ns@, 0));
    }
    (text, breaks)
}

fn encode_plain_list(text: &mut Vec<u8>, breaks: &mut Vec<usize>, ns: &Vec<InlineNode>)
    ensures
        final(text)@ == old(text)@ + plains_of(ns@),
        breaks_view(final(breaks)@) == breaks_view(old(breaks)@) + plain_breaks_list(
            ns@,
            old(text)@.len() as int,
        ),
    decreases ns@, 0int,
{
    let ghost t0 = text@;
    let ghost k0 = breaks_view(breaks@);
    let mut i: usize = 0;
    while i < ns.len()
        invariant
            i <= ns.len(),
            text@ == t0 + plains_of(ns@.take(i as int)),
            breaks_view(breaks@) == k0 + plain_breaks_list(ns@.take(i as int), t0.len() as int),
        decreases ns.len() - i,
    {
        encode_plain_node(text, breaks, &ns[i]);
        proof {
            let p = ns@.take(i + 1);
            assert(p.drop_last() =~= ns@.take(i as int));
            assert(p.last() == ns@[i as int]);
            assert(text@ =~= t0 + plains_of(p));
            assert(breaks_view(breaks@) =~= k0 + plain_breaks_list(p, t0.len() as int));
        }
        i = i + 1;
    }
    proof {
        assert(ns@.take(ns@.len() as int) =~= ns@);
    }
}

fn encode_plain_node(text: &mut Vec<u8>, breaks: &mut Vec<usize>, n: &InlineNode)
    ensures
        final(text)@ == old(text)@ + plain_of(*n),
        breaks_view(final(breaks)@) == breaks_view(old(breaks)@) + plain_breaks_of(
            *n,
            old(text)@.len() as int,
        ),
    decreases *n, 0int,
{
    let ghost t0 = text@;
    let ghost k0 = breaks_view(breaks@);
    match n {
        InlineNode::Text(lit) => {
            escape_text_into(lit, text);
            proof {
                assert(breaks_view(breaks@) =~= k0 + plain_breaks_of(*n, t0.len() as int));
            }
        },
        InlineNode::LineBreak => {
            let at: usize = text.len();
            breaks.push(at);
            proof {
                assert(text@ =~= t0 + plain_of(*n));
                assert(breaks_view(breaks@) =~= k0 + plain_breaks_of(*n, t0.len() as int));
            }
        },
        InlineNode::SoftBreak => {
            let at: usize = text.len();
            breaks.push(at);
            proof {
                assert(text@ =~= t0 + plain_of(*n));
                assert(breaks_view(breaks@) =~= k0 + plain_breaks_of(*n, t0.len() as int));
            }
        },
        InlineNode::Code(lit) => {
            escape_text_into(lit, text);
            proof {
                assert(breaks_view(breaks@) =~= k0 + plain_breaks_of(*n, t0.len() as int));
            }
        },
        InlineNode::HtmlInline(lit) => {
            escape_text_into(lit, text);
            proof {
                assert(breaks_view(breaks@) =~= k0 + plain_breaks_of(*n, t0.len() as int));
            }
        },
        InlineNode::Strong(cs) => {
            encode_plain_list(text, breaks, cs);
        },
        InlineNode::Emph(cs) => {
            encode_plain_list(text, breaks, cs);
        },
        InlineNode::Strikethrough(cs) => {
            encode_plain_list(text, breaks, cs);
        },
        InlineNode::Superscript(cs) => {
            encode_plain_list(text, breaks, cs);
        },
        InlineNode::Link { children, .. } => {
            encode_plain_list(text, breaks, children);
        },
        InlineNode::Image { children, .. } => {
            encode_plain_list(text, breaks, children);
        },
    }
}

} // verus!
