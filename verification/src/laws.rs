//! Laws of the inline encoder, proved against the ghost model: spans sit
//! inside their scope's text and cover exactly the escaped text of their
//! style node's subtree; nested styles combine their bits by OR; and the
//! spans of a link's anchor never reach past the anchor's own text.

use vstd::prelude::*;
use crate::model::{
    ev_of, events_list, is_style_node, spans_list, spans_of, style_children, style_value, text_of,
    texts_of,
};
use crate::node::{InlineNode, Options};
use crate::output::{EventModel, SpanModel};

verus! {

/// Splitting a run of siblings splits its flattened text.
pub proof fn lemma_texts_of_append(a: Seq<InlineNode>, b: Seq<InlineNode>, o: Options)
    ensures
        texts_of(a + b, o) == texts_of(a, o) + texts_of(b, o),
    decreases b.len(),
{
    if b.len() == 0 {
        assert(a + b =~= a);
        assert(texts_of(a, o) + texts_of(b, o) =~= texts_of(a, o));
    } else {
        lemma_texts_of_append(a, b.drop_last(), o);
        assert((a + b).drop_last() =~= a + b.drop_last());
        assert((a + b).last() == b.last());
        assert(texts_of(a + b, o) =~= texts_of(a, o) + texts_of(b, o));
    }
}

/// Splitting a run of siblings splits its span list; the second part's
/// spans start where the first part's text ends.
pub proof fn lemma_spans_list_append(
    a: Seq<InlineNode>,
    b: Seq<InlineNode>,
    pos: int,
    inh: u32,
    o: Options,
)
    ensures
        spans_list(a + b, pos, inh, o) == spans_list(a, pos, inh, o) + spans_list(
            b,
            pos + texts_of(a, o).len(),
            inh,
            o,
        ),
    decreases b.len(),
{
    if b.len() == 0 {
        assert(a + b =~= a);
        assert(spans_list(a, pos, inh, o) + spans_list(b, pos + texts_of(a, o).len(), inh, o)
            =~= spans_list(a, pos, inh, o));
    } else {
        lemma_spans_list_append(a, b.drop_last(), pos, inh, o);
        lemma_texts_of_append(a, b.drop_last(), o);
        assert((a + b).drop_last() =~= a + b.drop_last());
        assert((a + b).last() == b.last());
        assert(spans_list(a + b, pos, inh, o) =~= spans_list(a, pos, inh, o) + spans_list(
            b,
            pos + texts_of(a, o).len(),
            inh,
            o,
        ));
    }
}

/// Splitting a run of siblings splits its event list.
pub proof fn lemma_events_list_append(a: Seq<InlineNode>, b: Seq<InlineNode>, pos: int, o: Options)
    ensures
        events_list(a + b, pos, o) == events_list(a, pos, o) + events_list(
            b,
            pos + texts_of(a, o).len(),
            o,
        ),
    decreases b.len(),
{
    if b.len() == 0 {
        assert(a + b =~= a);
        assert(events_list(a, pos, o) + events_list(b, pos + texts_of(a, o).len(), o)
            =~= events_list(a, pos, o));
    } else {
        lemma_events_list_append(a, b.drop_last(), pos, o);
        lemma_texts_of_append(a, b.drop_last(), o);
        assert((a + b).drop_last() =~= a + b.drop_last());
        assert((a + b).last() == b.last());
        assert(events_list(a + b, pos, o) =~= events_list(a, pos, o) + events_list(
            b,
            pos + texts_of(a, o).len(),
            o,
        ));
    }
}

/// Every span a node produces lies between the node's start offset and
/// the end of the node's own text.
pub proof fn lemma_spans_of_bounds(n: InlineNode, pos: int, inh: u32, o: Options)
    ensures
        forall|k: int|
            0 <= k < spans_of(n, pos, inh, o).len() ==> {
                let s = #[trigger] spans_of(n, pos, inh, o)[k];
                pos <= s.start && 0 <= s.length && s.start + s.length <= pos + text_of(
                    n,
                    o,
                ).len()
            },
    decreases n, 1int,
{
    match n {
        InlineNode::Strong(cs) => {
            lemma_style_spans_bounds(n, cs@, pos, inh, o);
        },
        InlineNode::Emph(cs) => {
            lemma_style_spans_bounds(n, cs@, pos, inh, o);
        },
        InlineNode::Strikethrough(cs) => {
            lemma_style_spans_bounds(n, cs@, pos, inh, o);
        },
        InlineNode::Superscript(cs) => {
            lemma_style_spans_bounds(n, cs@, pos, inh, o);
        },
        _ => {},
    }
}

/// The shared step for the four style variants of `lemma_spans_of_bounds`.
proof fn lemma_style_spans_bounds(n: InlineNode, cs: Seq<InlineNode>, pos: int, inh: u32, o: Options)
    requires
        is_style_node(n),
        style_children(n) == cs,
    ensures
        forall|k: int|
            0 <= k < spans_of(n, pos, inh, o).len() ==> {
                let s = #[trigger] spans_of(n, pos, inh, o)[k];
                pos <= s.start && 0 <= s.length && s.start + s.length <= pos + text_of(
                    n,
                    o,
                ).len()
            },
    decreases n, 0int,
{
    let w = style_value(n) | inh;
    lemma_spans_list_bounds(cs, pos, w, o);
    let inner = spans_list(cs, pos, w, o);
    let own = SpanModel { mask: w, start: pos, length: texts_of(cs, o).len() as int };
    assert(spans_of(n, pos, inh, o) == inner.push(own));
    assert(text_of(n, o) == texts_of(cs, o));
    assert forall|k: int| 0 <= k < spans_of(n, pos, inh, o).len() implies {
        let s = #[trigger] spans_of(n, pos, inh, o)[k];
        pos <= s.start && 0 <= s.length && s.start + s.length <= pos + text_of(n, o).len()
    } by {
        if k < inner.len() {
            assert(spans_of(n, pos, inh, o)[k] == inner[k]);
        } else {
            assert(spans_of(n, pos, inh, o)[k] == own);
        }
    }
}

/// Every span a run of siblings produces lies between the run's start
/// offset and the end of the run's flattened text.
pub proof fn lemma_spans_list_bounds(ns: Seq<InlineNode>, pos: int, inh: u32, o: Options)
    ensures
        forall|k: int|
            0 <= k < spans_list(ns, pos, inh, o).len() ==> {
                let s = #[trigger] spans_list(ns, pos, inh, o)[k];
                pos <= s.start && 0 <= s.length && s.start + s.length <= pos + texts_of(
                    ns,
                    o,
                ).len()
            },
    decreases ns, 2int,
{
    if ns.len() > 0 {
        let a = ns.drop_last();
        let tail_pos = pos + texts_of(a, o).len();
        lemma_spans_list_bounds(a, pos, inh, o);
        lemma_spans_of_bounds(ns.last(), tail_pos, inh, o);
        let first = spans_list(a, pos, inh, o);
        let second = spans_of(ns.last(), tail_pos, inh, o);
        assert(spans_list(ns, pos, inh, o) == first + second);
        assert(texts_of(ns, o).len() == texts_of(a, o).len() + text_of(ns.last(), o).len());
        assert forall|k: int| 0 <= k < spans_list(ns, pos, inh, o).len() implies {
            let s = #[trigger] spans_list(ns, pos, inh, o)[k];
            pos <= s.start && 0 <= s.length && s.start + s.length <= pos + texts_of(ns, o).len()
        } by {
            if k < first.len() {
                assert(spans_list(ns, pos, inh, o)[k] == first[k]);
            } else {
                assert(spans_list(ns, pos, inh, o)[k] == second[k - first.len()]);
            }
        }
    }
}

/// Law: offset correctness. For any style node, anywhere in a run and at
/// any nesting depth, the scope's text between the recorded span's start
/// and end is exactly the escaped text of the style node's subtree, and
/// the run's span list decomposes into the spans before the node, the
/// node's children's spans, the node's own span, and the spans after it —
/// in closing order.
pub proof fn lemma_offset_correctness(
    pre: Seq<InlineNode>,
    n: InlineNode,
    post: Seq<InlineNode>,
    pos: int,
    inh: u32,
    o: Options,
)
    requires
        is_style_node(n),
    ensures
        ({
            let full = pre + seq![n] + post;
            let p = pos + texts_of(pre, o).len();
            let cs = style_children(n);
            let len = texts_of(cs, o).len() as int;
            let sp = SpanModel { mask: style_value(n) | inh, start: p, length: len };
            &&& texts_of(full, o) == texts_of(pre, o) + texts_of(cs, o) + texts_of(post, o)
            &&& texts_of(full, o).subrange(
                texts_of(pre, o).len() as int,
                texts_of(pre, o).len() + len,
            ) == texts_of(cs, o)
            &&& spans_list(full, pos, inh, o) == spans_list(pre, pos, inh, o) + spans_list(
                cs,
                p,
                style_value(n) | inh,
                o,
            ) + seq![sp] + spans_list(post, p + len, inh, o)
        }),
{
    let full = pre + seq![n] + post;
    let p = pos + texts_of(pre, o).len();
    let cs = style_children(n);
    let len = texts_of(cs, o).len() as int;
    let sp = SpanModel { mask: style_value(n) | inh, start: p, length: len };

    assert(text_of(n, o) == texts_of(cs, o));
    assert(seq![n].drop_last() =~= Seq::<InlineNode>::empty());
    assert(seq![n].last() == n);
    assert(texts_of(Seq::<InlineNode>::empty(), o) == Seq::<u8>::empty());
    assert(spans_list(Seq::<InlineNode>::empty(), p, inh, o) == Seq::<SpanModel>::empty());
    assert(texts_of(seq![n], o) =~= texts_of(cs, o));
    assert(spans_list(seq![n], p, inh, o) =~= spans_of(n, p, inh, o));
    assert(spans_of(n, p, inh, o) == spans_list(cs, p, style_value(n) | inh, o).push(sp));

    lemma_texts_of_append(pre, seq![n], o);
    lemma_texts_of_append(pre + seq![n], post, o);
    assert(texts_of(full, o) =~= texts_of(pre, o) + texts_of(cs, o) + texts_of(post, o));
    assert(texts_of(full, o).subrange(
        texts_of(pre, o).len() as int,
        texts_of(pre, o).len() + len,
    ) =~= texts_of(cs, o));

    lemma_spans_list_append(pre, seq![n], pos, inh, o);
    lemma_spans_list_append(pre + seq![n], post, pos, inh, o);
    assert(spans_list(full, pos, inh, o) =~= spans_list(pre, pos, inh, o) + spans_list(
        cs,
        p,
        style_value(n) | inh,
        o,
    ) + seq![sp] + spans_list(post, p + len, inh, o));
}

/// Law: mask correctness. A style node nested inside another style node
/// is recorded with the OR of both style bits (and of every style open
/// around them), over exactly its own subtree's escaped text.
pub proof fn lemma_mask_combination(
    outer: InlineNode,
    ipre: Seq<InlineNode>,
    m: InlineNode,
    ipost: Seq<InlineNode>,
    pos: int,
    inh: u32,
    o: Options,
)
    requires
        is_style_node(outer),
        is_style_node(m),
        style_children(outer) == ipre + seq![m] + ipost,
    ensures
        spans_of(outer, pos, inh, o).contains(
            SpanModel {
                mask: style_value(m) | (style_value(outer) | inh),
                start: pos + texts_of(ipre, o).len(),
                length: texts_of(style_children(m), o).len() as int,
            },
        ),
{
    let v = style_value(outer) | inh;
    let cs = style_children(outer);
    let p = pos + texts_of(ipre, o).len();
    let len = texts_of(style_children(m), o).len() as int;
    let sp = SpanModel { mask: style_value(m) | v, start: p, length: len };

    lemma_offset_correctness(ipre, m, ipost, pos, v, o);
    assert(spans_list(cs, pos, v, o) == spans_list(ipre, pos, v, o) + spans_list(
        style_children(m),
        p,
        style_value(m) | v,
        o,
    ) + seq![sp] + spans_list(ipost, p + len, v, o));
    let i0 = spans_list(ipre, pos, v, o).len() + spans_list(
        style_children(m),
        p,
        style_value(m) | v,
        o,
    ).len();
    assert(spans_list(cs, pos, v, o)[i0 as int] == sp);
    assert(spans_of(outer, pos, inh, o).contains(sp)) by {
        assert(spans_of(outer, pos, inh, o) == spans_list(cs, pos, v, o).push(
            SpanModel { mask: v, start: pos, length: texts_of(cs, o).len() as int },
        ));
        assert(spans_of(outer, pos, inh, o)[i0 as int] == sp);
    }
}

/// Law: a link's event is independent of its surroundings. Wherever the
/// link stands in a run, the run's event list decomposes around the
/// link's own event, which is anchored at the offset where the link
/// occurs and whose anchor text, spans and events are those of the
/// link's children alone, computed from offset zero in a scope of their
/// own (see `ev_of`).
pub proof fn lemma_link_event_independent(
    pre: Seq<InlineNode>,
    n: InlineNode,
    post: Seq<InlineNode>,
    pos: int,
    o: Options,
)
    requires
        n is Link,
    ensures
        ({
            let at = pos + texts_of(pre, o).len();
            events_list(pre + seq![n] + post, pos, o) == events_list(pre, pos, o) + ev_of(
                n,
                at,
                o,
            ) + events_list(post, at, o)
        }),
{
    let at = pos + texts_of(pre, o).len();
    assert(seq![n].drop_last() =~= Seq::<InlineNode>::empty());
    assert(seq![n].last() == n);
    assert(texts_of(Seq::<InlineNode>::empty(), o) == Seq::<u8>::empty());
    assert(events_list(Seq::<InlineNode>::empty(), at, o) == Seq::<EventModel>::empty());
    assert(text_of(n, o) == Seq::<u8>::empty());
    assert(texts_of(seq![n], o) =~= Seq::<u8>::empty());
    assert(events_list(seq![n], at, o) =~= ev_of(n, at, o));
    lemma_texts_of_append(pre, seq![n], o);
    lemma_events_list_append(pre, seq![n], pos, o);
    lemma_events_list_append(pre + seq![n], post, pos, o);
    assert(events_list(pre + seq![n] + post, pos, o) =~= events_list(pre, pos, o) + ev_of(
        n,
        at,
        o,
    ) + events_list(post, at, o));
}

/// Whether an event keeps its scope to itself: a link's anchor spans stay
/// inside the anchor's own text, at every depth.
pub open spec fn event_isolated(e: EventModel) -> bool
    decreases e,
{
    match e {
        EventModel::Link { text, formatting, events, .. } => {
            &&& forall|k: int|
                0 <= k < formatting.len() ==> 0 <= (#[trigger] formatting[k]).start
                    && 0 <= formatting[k].length && formatting[k].start + formatting[k].length
                    <= text.len()
            &&& forall|k: int| 0 <= k < events.len() ==> event_isolated(#[trigger] events[k])
        },
        _ => true,
    }
}

/// Law: scope isolation. Every event a node records is isolated: spans
/// produced for a link's anchor text never reference offsets past the
/// anchor text's own length, however much text surrounds the link.
pub proof fn lemma_ev_of_isolated(n: InlineNode, pos: int, o: Options)
    ensures
        forall|k: int|
            0 <= k < ev_of(n, pos, o).len() ==> event_isolated(#[trigger] ev_of(n, pos, o)[k]),
    decreases n, 0int,
{
    match n {
        InlineNode::Strong(cs) => {
            lemma_events_list_isolated(cs@, pos, o);
            assert forall|k: int| 0 <= k < ev_of(n, pos, o).len() implies event_isolated(
                #[trigger] ev_of(n, pos, o)[k],
            ) by {
                assert(ev_of(n, pos, o)[k] == events_list(cs@, pos, o)[k]);
            }
        },
        InlineNode::Emph(cs) => {
            lemma_events_list_isolated(cs@, pos, o);
            assert forall|k: int| 0 <= k < ev_of(n, pos, o).len() implies event_isolated(
                #[trigger] ev_of(n, pos, o)[k],
            ) by {
                assert(ev_of(n, pos, o)[k] == events_list(cs@, pos, o)[k]);
            }
        },
        InlineNode::Strikethrough(cs) => {
            lemma_events_list_isolated(cs@, pos, o);
            assert forall|k: int| 0 <= k < ev_of(n, pos, o).len() implies event_isolated(
                #[trigger] ev_of(n, pos, o)[k],
            ) by {
                assert(ev_of(n, pos, o)[k] == events_list(cs@, pos, o)[k]);
            }
        },
        InlineNode::Superscript(cs) => {
            lemma_events_list_isolated(cs@, pos, o);
            assert forall|k: int| 0 <= k < ev_of(n, pos, o).len() implies event_isolated(
                #[trigger] ev_of(n, pos, o)[k],
            ) by {
                assert(ev_of(n, pos, o)[k] == events_list(cs@, pos, o)[k]);
            }
        },
        InlineNode::Link { url, title, children } => {
            lemma_spans_list_bounds(children@, 0, 0, o);
            lemma_events_list_isolated(children@, 0, o);
            let ev = ev_of(n, pos, o)[0];
            assert(ev matches EventModel::Link { text, formatting, events, .. } && text
                == texts_of(children@, o) && formatting == spans_list(children@, 0, 0, o)
                && events == events_list(children@, 0, o));
            assert(event_isolated(ev));
        },
        _ => {},
    }
}

/// Law: scope isolation, for a whole run of siblings.
pub proof fn lemma_events_list_isolated(ns: Seq<InlineNode>, pos: int, o: Options)
    ensures
        forall|k: int|
            0 <= k < events_list(ns, pos, o).len() ==> event_isolated(
                #[trigger] events_list(ns, pos, o)[k],
            ),
    decreases ns, 1int,
{
    if ns.len() > 0 {
        let a = ns.drop_last();
        lemma_events_list_isolated(a, pos, o);
        lemma_ev_of_isolated(ns.last(), pos + texts_of(a, o).len(), o);
        let first = events_list(a, pos, o);
        let second = ev_of(ns.last(), pos + texts_of(a, o).len(), o);
        assert(events_list(ns, pos, o) == first + second);
        assert forall|k: int| 0 <= k < events_list(ns, pos, o).len() implies event_isolated(
            #[trigger] events_list(ns, pos, o)[k],
        ) by {
            if k < first.len() {
                assert(events_list(ns, pos, o)[k] == first[k]);
            } else {
                assert(events_list(ns, pos, o)[k] == second[k - first.len()]);
            }
        }
    }
}

} // verus!
