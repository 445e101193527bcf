//! One text scope: the growable escaped-text buffer, the stack of open
//! style markers over it, the finished spans, and the recorded events.
//! A fresh scope is created for each independent run of inline content
//! (document-level, a link's anchor, a table cell), so every offset in it
//! is relative to that scope's own start.

use vstd::prelude::*;
use crate::escape::{escape_text_into, text_escaped};
use crate::output::{FormatSpan, InlineEvent, InlineOutput};

verus! {

/// An open style: the cumulative mask (this style OR'd with all ancestor
/// styles still open) and the scope offset at which it opened.
pub struct OpenMarker {
    pub mask: u32,
    pub start: usize,
}

/// The OR of all masks on a marker stack.
pub open spec fn or_masks(ms: Seq<OpenMarker>) -> u32
    decreases ms,
{
    if ms.len() == 0 {
        0
    } else {
        or_masks(ms.drop_last()) | ms.last().mask
    }
}

/// One scope of text accumulation.
pub struct TextScope {
    pub buffer: Vec<u8>,
    pub markers: Vec<OpenMarker>,
    pub spans: Vec<FormatSpan>,
    pub events: Vec<InlineEvent>,
}

fn current_mask(markers: &Vec<OpenMarker>) -> (r: u32)
    ensures
        r == or_masks(markers@),
{
    let mut acc: u32 = 0;
    let mut i: usize = 0;
    while i < markers.len()
        invariant
            i <= markers.len(),
            acc == or_masks(markers@.take(i as int)),
        decreases markers.len() - i,
    {
        acc = acc | markers[i].mask;
        proof {
            assert(markers@.take(i + 1).drop_last() =~= markers@.take(i as int));
        }
        i = i + 1;
    }
    proof {
        assert(markers@.take(markers@.len() as int) =~= markers@);
    }
    acc
}

impl TextScope {
    /// Every open marker starts at or before the end of the buffer.
    pub open spec fn wf(self) -> bool {
        forall|i: int| 0 <= i < self.markers@.len() ==> self.markers@[i].start <= self.buffer@.len()
    }

    /// A fresh, empty scope.
    pub fn new() -> (s: TextScope)
        ensures
            s.buffer@ == Seq::<u8>::empty(),
            s.markers@ == Seq::<OpenMarker>::empty(),
            s.spans@ == Seq::<FormatSpan>::empty(),
            s.events@ == Seq::<InlineEvent>::empty(),
            s.wf(),
    {
        TextScope { buffer: Vec::new(), markers: Vec::new(), spans: Vec::new(), events: Vec::new() }
    }

    /// Appends literal text, escaped, to the scope's buffer.
    pub fn write(&mut self, lit: &Vec<u8>)
        requires
            old(self).wf(),
        ensures
            final(self).buffer@ == old(self).buffer@ + text_escaped(lit@),
            final(self).markers@ == old(self).markers@,
            final(self).spans@ == old(self).spans@,
            final(self).events@ == old(self).events@,
            final(self).wf(),
    {
        escape_text_into(lit, &mut self.buffer);
    }

    /// Appends one byte, unescaped.
    pub fn write_byte(&mut self, b: u8)
        requires
            old(self).wf(),
        ensures
            final(self).buffer@ == old(self).buffer@.push(b),
            final(self).markers@ == old(self).markers@,
            final(self).spans@ == old(self).spans@,
            final(self).events@ == old(self).events@,
            final(self).wf(),
    {
        self.buffer.push(b);
    }

    /// Appends `lit[from..]`, unescaped.
    pub fn write_verbatim_tail(&mut self, lit: &Vec<u8>, from: usize)
        requires
            old(self).wf(),
            from <= lit@.len(),
        ensures
            final(self).buffer@ == old(self).buffer@ + lit@.skip(from as int),
            final(self).markers@ == old(self).markers@,
            final(self).spans@ == old(self).spans@,
            final(self).events@ == old(self).events@,
            final(self).wf(),
    {
        let ghost start = self.buffer@;
        let mut i: usize = from;
        while i < lit.len()
            invariant
                from <= i <= lit.len(),
                self.buffer@ == start + lit@.subrange(from as int, i as int),
                self.markers@ == old(self).markers@,
                self.spans@ == old(self).spans@,
                self.events@ == old(self).events@,
                old(self).wf(),
                start == old(self).buffer@,
            decreases lit.len() - i,
        {
            self.buffer.push(lit[i]);
            proof {
                assert(self.buffer@ =~= start + lit@.subrange(from as int, i + 1));
            }
            i = i + 1;
        }
        proof {
            assert(self.buffer@ =~= start + lit@.skip(from as int));
        }
    }

    /// Appends all of `lit`, unescaped.
    pub fn write_verbatim(&mut self, lit: &Vec<u8>)
        requires
            old(self).wf(),
        ensures
            final(self).buffer@ == old(self).buffer@ + lit@,
            final(self).markers@ == old(self).markers@,
            final(self).spans@ == old(self).spans@,
            final(self).events@ == old(self).events@,
            final(self).wf(),
    {
        self.write_verbatim_tail(lit, 0);
        proof {
            assert(lit@.skip(0) =~= lit@);
        }
    }

    /// Opens a style: pushes a marker whose mask is the style's value OR'd
    /// with every style already open, starting at the current offset.
    pub fn open_style(&mut self, value: u32)
        requires
            old(self).wf(),
        ensures
            final(self).markers@ == old(self).markers@.push(
                OpenMarker {
                    mask: value | or_masks(old(self).markers@),
                    start: old(self).buffer@.len() as usize,
                },
            ),
            final(self).buffer@ == old(self).buffer@,
            final(self).spans@ == old(self).spans@,
            final(self).events@ == old(self).events@,
            final(self).wf(),
    {
        let inherited: u32 = current_mask(&self.markers);
        let start: usize = self.buffer.len();
        self.markers.push(OpenMarker { mask: value | inherited, start });
    }

    /// Closes the innermost open style: pops its marker and records the
    /// finished span, whose length is the text written since it opened.
    pub fn close_style(&mut self)
        requires
            old(self).wf(),
            old(self).markers@.len() > 0,
        ensures
            final(self).markers@ == old(self).markers@.drop_last(),
            final(self).spans@ == old(self).spans@.push(
                FormatSpan {
                    mask: old(self).markers@.last().mask,
                    start: old(self).markers@.last().start,
                    length: (old(self).buffer@.len() - old(self).markers@.last().start) as usize,
                },
            ),
            final(self).buffer@ == old(self).buffer@,
            final(self).events@ == old(self).events@,
            final(self).wf(),
    {
        let marker: OpenMarker = self.markers.pop().unwrap();
        let length: usize = self.buffer.len() - marker.start;
        self.spans.push(FormatSpan { mask: marker.mask, start: marker.start, length });
    }

    /// Records a hard break at the current offset.
    pub fn record_break(&mut self)
        requires
            old(self).wf(),
        ensures
            final(self).events@ == old(self).events@.push(
                InlineEvent::Break { at: old(self).buffer@.len() as usize },
            ),
            final(self).buffer@ == old(self).buffer@,
            final(self).markers@ == old(self).markers@,
            final(self).spans@ == old(self).spans@,
            final(self).wf(),
    {
        let at: usize = self.buffer.len();
        self.events.push(InlineEvent::Break { at });
    }

    /// Records a link at the current offset, with its independently
    /// encoded anchor output.
    pub fn record_link(&mut self, url: Vec<u8>, content: InlineOutput)
        requires
            old(self).wf(),
        ensures
            final(self).events@ == old(self).events@.push(
                InlineEvent::Link { at: old(self).buffer@.len() as usize, url, content },
            ),
            final(self).buffer@ == old(self).buffer@,
            final(self).markers@ == old(self).markers@,
            final(self).spans@ == old(self).spans@,
            final(self).wf(),
    {
        let at: usize = self.buffer.len();
        self.events.push(InlineEvent::Link { at, url, content });
    }

    /// Records an image at the current offset.
    pub fn record_image(&mut self, url: Vec<u8>, alt: Vec<u8>, alt_breaks: Vec<usize>, title: Vec<u8>)
        requires
            old(self).wf(),
        ensures
            final(self).events@ == old(self).events@.push(
                InlineEvent::Image {
                    at: old(self).buffer@.len() as usize,
                    url,
                    alt,
                    alt_breaks,
                    title,
                },
            ),
            final(self).buffer@ == old(self).buffer@,
            final(self).markers@ == old(self).markers@,
            final(self).spans@ == old(self).spans@,
            final(self).wf(),
    {
        let at: usize = self.buffer.len();
        self.events.push(InlineEvent::Image { at, url, alt, alt_breaks, title });
    }
}

} // verus!
