//! The block emitter: walks block nodes, invokes the inline encoder for
//! every run of inline content it owns, and wraps the results in
//! structural output nodes. The correctness relation `block_ok` pins the
//! whole output tree down against the input tree and the options.

use vstd::prelude::*;
use crate::escape::{NEWLINE, escape_text_prefix, push_text_escaped, text_escaped};
use crate::inline::{encode_inlines, inline_run_ok};
use crate::node::{
    BlockNode, InlineNode, ListItem, ListType, Options, TableAlignment, TableCell, TableRow,
};
use crate::output::{OutputCell, OutputNode, OutputRow};
use crate::tagfilter::{is_space_byte, tag_filtered, tagfilter_block};

verus! {

/// The length of the first whitespace-delimited token of an info string.
pub open spec fn first_token_len(s: Seq<u8>) -> int
    decreases s.len(),
{
    if s.len() == 0 {
        0
    } else if is_space_byte(s[0]) {
        0
    } else {
        1 + first_token_len(s.drop_first())
    }
}

proof fn lemma_first_token_len(s: Seq<u8>, i: int)
    requires
        0 <= i <= s.len(),
        forall|j: int| 0 <= j < i ==> !is_space_byte(s[j]),
        i < s.len() ==> is_space_byte(s[i]),
    ensures
        first_token_len(s) == i,
    decreases i,
{
    if i == 0 {
    } else {
        lemma_first_token_len(s.drop_first(), i - 1);
    }
}

/// A code block's literal split at newlines: always at least one line,
/// and a trailing newline yields a trailing empty line.
pub open spec fn split_lines(s: Seq<u8>) -> Seq<Seq<u8>>
    decreases s.len(),
{
    if s.len() == 0 {
        seq![Seq::<u8>::empty()]
    } else if s.last() == NEWLINE {
        split_lines(s.drop_last()).push(Seq::empty())
    } else {
        let r = split_lines(s.drop_last());
        r.update(r.len() - 1, r.last().push(s.last()))
    }
}

proof fn lemma_split_lines_len(s: Seq<u8>)
    ensures
        split_lines(s).len() >= 1,
    decreases s.len(),
{
    if s.len() > 0 {
        lemma_split_lines_len(s.drop_last());
    }
}

/// The language tag a code block carries: none when the info string is
/// empty, else its first token, escaped.
pub open spec fn lang_ok(info: Seq<u8>, lang: Option<Vec<u8>>) -> bool {
    if info.len() == 0 {
        lang is None
    } else {
        &&& lang matches Some(l)
        &&& l@ == text_escaped(info.take(first_token_len(info)))
    }
}

/// The raw lines a code block carries: one escaped line per
/// newline-delimited line of the literal.
pub open spec fn lines_ok(lit: Seq<u8>, lines: Seq<Vec<u8>>) -> bool {
    &&& lines.len() == split_lines(lit).len()
    &&& forall|k: int| 0 <= k < lines.len() ==> lines[k]@ == text_escaped(split_lines(lit)[k])
}

/// Well-formedness of the input tree: every header row fits its table's
/// alignment list, so each header cell's column alignment exists.
pub open spec fn block_wf(b: BlockNode) -> bool
    decreases b, 0int,
{
    match b {
        BlockNode::Document(bs) => blocks_wf(bs@),
        BlockNode::BlockQuote(bs) => blocks_wf(bs@),
        BlockNode::List { items, .. } => items_wf(items@),
        BlockNode::Table { alignments, rows } => forall|i: int|
            0 <= i < rows@.len() ==> (rows@[i].header ==> rows@[i].cells@.len()
                <= alignments@.len()),
        _ => true,
    }
}

/// Well-formedness of a run of sibling blocks.
pub open spec fn blocks_wf(bs: Seq<BlockNode>) -> bool
    decreases bs, 1int,
{
    forall|i: int| 0 <= i < bs.len() ==> block_wf(#[trigger] bs[i])
}

/// Well-formedness of a list's items.
pub open spec fn items_wf(items: Seq<ListItem>) -> bool
    decreases items, 1int,
{
    forall|i: int| 0 <= i < items.len() ==> blocks_wf((#[trigger] items[i]).blocks@)
}

/// The inline content of a paragraph.
pub open spec fn paragraph_inlines(b: BlockNode) -> Seq<InlineNode> {
    match b {
        BlockNode::Paragraph(ns) => ns@,
        _ => Seq::empty(),
    }
}

/// What it means for `r` to be the correct encoding of the block `b`.
pub open spec fn block_ok(b: BlockNode, r: OutputNode, o: Options) -> bool
    decreases b, 0int,
{
    match b {
        BlockNode::Document(bs) => {
            &&& r matches OutputNode::Document { children }
            &&& blocks_ok(bs@, children@, o)
        },
        BlockNode::BlockQuote(bs) => {
            &&& r matches OutputNode::BlockQuote { children }
            &&& blocks_ok(bs@, children@, o)
        },
        BlockNode::List { list_type, tight, items } => {
            &&& r matches OutputNode::List { ordered, children }
            &&& ordered == (list_type is Ordered)
            &&& items_ok(items@, children@, tight, o)
        },
        BlockNode::Heading { level, content } => {
            &&& r matches OutputNode::Heading { level: rl, content: rc }
            &&& rl == level
            &&& inline_run_ok(content@, rc, o)
        },
        BlockNode::CodeBlock { info, literal } => {
            &&& r matches OutputNode::CodeBlock { lang, lines }
            &&& lang_ok(info@, lang)
            &&& lines_ok(literal@, lines@)
        },
        BlockNode::HtmlBlock { literal } => {
            &&& r matches OutputNode::HtmlBlock { literal: rl }
            &&& rl@ == if o.ext_tagfilter {
                tag_filtered(literal@)
            } else {
                literal@
            }
        },
        BlockNode::ThematicBreak => r is ThematicBreak,
        BlockNode::Paragraph(ns) => {
            &&& r matches OutputNode::Paragraph { content }
            &&& inline_run_ok(ns@, content, o)
        },
        BlockNode::Table { alignments, rows } => {
            &&& r matches OutputNode::Table { rows: orows }
            &&& rows_ok(rows@, orows@, alignments@, o)
        },
    }
}

/// Pairwise correctness of a run of sibling blocks.
pub open spec fn blocks_ok(bs: Seq<BlockNode>, rs: Seq<OutputNode>, o: Options) -> bool
    decreases bs, 1int,
{
    &&& rs.len() == bs.len()
    &&& forall|i: int| 0 <= i < bs.len() ==> block_ok(#[trigger] bs[i], rs[i], o)
}

/// Pairwise correctness of a list's items.
pub open spec fn items_ok(items: Seq<ListItem>, rs: Seq<OutputNode>, tight: bool, o: Options) -> bool
    decreases items, 1int,
{
    &&& rs.len() == items.len()
    &&& forall|i: int| 0 <= i < items.len() ==> item_ok(#[trigger] items[i], rs[i], tight, o)
}

/// Correctness of one list item.
pub open spec fn item_ok(it: ListItem, r: OutputNode, tight: bool, o: Options) -> bool
    decreases it, 0int,
{
    &&& r matches OutputNode::Item { children }
    &&& item_children_ok(it.blocks@, children@, tight, o)
}

/// Pairwise correctness of an item's blocks, under a tight or loose list.
pub open spec fn item_children_ok(
    bs: Seq<BlockNode>,
    rs: Seq<OutputNode>,
    tight: bool,
    o: Options,
) -> bool
    decreases bs, 3int,
{
    &&& rs.len() == bs.len()
    &&& forall|i: int| 0 <= i < bs.len() ==> item_child_ok(#[trigger] bs[i], rs[i], tight, o)
}

/// One block directly under a list item: a tight list suppresses the
/// paragraph wrapper and leaves the inline content standing bare.
pub open spec fn item_child_ok(b: BlockNode, r: OutputNode, tight: bool, o: Options) -> bool
    decreases b, 2int,
{
    if tight && b is Paragraph {
        &&& r matches OutputNode::TextRun { content }
        &&& inline_run_ok(paragraph_inlines(b), content, o)
    } else {
        block_ok(b, r, o)
    }
}

/// Pairwise correctness of a table's rows.
pub open spec fn rows_ok(
    rows: Seq<TableRow>,
    orows: Seq<OutputRow>,
    al: Seq<TableAlignment>,
    o: Options,
) -> bool
    decreases rows, 1int,
{
    &&& orows.len() == rows.len()
    &&& forall|i: int| 0 <= i < rows.len() ==> row_ok(#[trigger] rows[i], orows[i], al, o)
}

/// Correctness of one table row.
pub open spec fn row_ok(row: TableRow, r: OutputRow, al: Seq<TableAlignment>, o: Options) -> bool
    decreases row, 0int,
{
    &&& r.header == row.header
    &&& cells_ok(row.cells@, r.cells@, row.header, al, o)
}

/// Pairwise correctness of a row's cells.
pub open spec fn cells_ok(
    cells: Seq<TableCell>,
    rcs: Seq<OutputCell>,
    header: bool,
    al: Seq<TableAlignment>,
    o: Options,
) -> bool
    decreases cells, 1int,
{
    &&& rcs.len() == cells.len()
    &&& forall|j: int| 0 <= j < cells.len() ==> cell_ok(#[trigger] cells[j], rcs[j], header, j, al, o)
}

/// Correctness of one cell: a header cell carries its column's alignment,
/// looked up by the cell's sibling index; every cell's content is encoded
/// in a scope of its own.
pub open spec fn cell_ok(
    c: TableCell,
    rc: OutputCell,
    header: bool,
    j: int,
    al: Seq<TableAlignment>,
    o: Options,
) -> bool
    decreases c, 0int,
{
    &&& rc.alignment == if header && 0 <= j < al.len() {
        al[j]
    } else {
        TableAlignment::NoAlignment
    }
    &&& inline_run_ok(c.content@, rc.content, o)
}

fn copy_bytes(src: &Vec<u8>) -> (r: Vec<u8>)
    ensures
        r@ == src@,
{
    let mut r: Vec<u8> = Vec::new();
    let mut i: usize = 0;
    while i < src.len()
        invariant
            i <= src.len(),
            r@ == src@.take(i as int),
        decreases src.len() - i,
    {
        r.push(src[i]);
        proof {
            assert(r@ =~= src@.take(i + 1));
        }
        i = i + 1;
    }
    proof {
        assert(src@.take(src@.len() as int) =~= src@);
    }
    r
}

fn is_space(b: u8) -> (r: bool)
    ensures
        r == is_space_byte(b),
{
    b == 9 || b == 10 || b == 11 || b == 12 || b == 13 || b == 32
}

fn code_lang(info: &Vec<u8>) -> (r: Option<Vec<u8>>)
    ensures
        lang_ok(info@, r),
{
    if info.len() == 0 {
        return None;
    }
    let mut e: usize = 0;
    while e < info.len() && !is_space(info[e])
        invariant
            e <= info.len(),
            forall|j: int| 0 <= j < e ==> !is_space_byte(info@[j]),
        decreases info.len() - e,
    {
        e = e + 1;
    }
    proof {
        lemma_first_token_len(info@, e as int);
    }
    Some(escape_text_prefix(info, e))
}

fn code_lines(lit: &Vec<u8>) -> (r: Vec<Vec<u8>>)
    ensures
        lines_ok(lit@, r@),
{
    let mut done: Vec<Vec<u8>> = Vec::new();
    let mut cur: Vec<u8> = Vec::new();
    proof {
        assert(lit@.take(0) =~= Seq::<u8>::empty());
    }
    let mut i: usize = 0;
    while i < lit.len()
        invariant
            i <= lit.len(),
            done@.len() + 1 == split_lines(lit@.take(i as int)).len(),
            forall|k: int|
                0 <= k < done@.len() ==> done@[k]@ == text_escaped(
                    split_lines(lit@.take(i as int))[k],
                ),
            cur@ == text_escaped(split_lines(lit@.take(i as int)).last()),
        decreases lit.len() - i,
    {
        let ghost p = lit@.take(i as int);
        let ghost sl = split_lines(p);
        let b: u8 = lit[i];
        proof {
            assert(lit@.take(i + 1).drop_last() =~= p);
            assert(lit@.take(i + 1).last() == lit@[i as int]);
            lemma_split_lines_len(p);
        }
        if b == NEWLINE {
            done.push(cur);
            cur = Vec::new();
            proof {
                let sl1 = split_lines(lit@.take(i + 1));
                assert(sl1 == sl.push(Seq::<u8>::empty()));
                assert(sl1.last() == Seq::<u8>::empty());
                assert(sl1[done@.len() - 1] == sl.last());
            }
        } else {
            push_text_escaped(&mut cur, b);
            proof {
                let sl1 = split_lines(lit@.take(i + 1));
                assert(sl1 == sl.update(sl.len() - 1, sl.last().push(b)));
                assert(sl.last().push(b).drop_last() =~= sl.last());
                assert(sl.last().push(b).last() == b);
                assert(cur@ == text_escaped(sl.last().push(b)));
            }
        }
        i = i + 1;
    }
    proof {
        assert(lit@.take(lit@.len() as int) =~= lit@);
        lemma_split_lines_len(lit@);
    }
    done.push(cur);
    done
}

/// Formats one table cell; a header cell looks its alignment up by its
/// zero-based sibling index.
fn format_cell(
    c: &TableCell,
    header: bool,
    j: usize,
    alignments: &Vec<TableAlignment>,
    o: &Options,
) -> (rc: OutputCell)
    requires
        header ==> (j as int) < alignments@.len(),
    ensures
        cell_ok(*c, rc, header, j as int, alignments@, *o),
{
    let alignment = if header {
        alignments[j]
    } else {
        TableAlignment::NoAlignment
    };
    OutputCell { alignment, content: encode_inlines(&c.content, o) }
}

fn format_cells(
    cells: &Vec<TableCell>,
    header: bool,
    alignments: &Vec<TableAlignment>,
    o: &Options,
) -> (rcs: Vec<OutputCell>)
    requires
        header ==> cells@.len() <= alignments@.len(),
    ensures
        cells_ok(cells@, rcs@, header, alignments@, *o),
{
    let mut rcs: Vec<OutputCell> = Vec::new();
    let mut j: usize = 0;
    while j < cells.len()
        invariant
            j <= cells.len(),
            rcs@.len() == j,
            header ==> cells@.len() <= alignments@.len(),
            forall|q: int|
                0 <= q < j ==> cell_ok(#[trigger] cells@[q], rcs@[q], header, q, alignments@, *o),
        decreases cells.len() - j,
    {
        let rc = format_cell(&cells[j], header, j, alignments, o);
        rcs.push(rc);
        j = j + 1;
    }
    rcs
}

fn format_rows(rows: &Vec<TableRow>, alignments: &Vec<TableAlignment>, o: &Options) -> (orows: Vec<
    OutputRow,
>)
    requires
        forall|i: int|
            0 <= i < rows@.len() ==> ((#[trigger] rows@[i]).header ==> rows@[i].cells@.len()
                <= alignments@.len()),
    ensures
        rows_ok(rows@, orows@, alignments@, *o),
{
    let mut orows: Vec<OutputRow> = Vec::new();
    let mut i: usize = 0;
    while i < rows.len()
        invariant
            i <= rows.len(),
            orows@.len() == i,
            forall|q: int|
                0 <= q < rows@.len() ==> ((#[trigger] rows@[q]).header ==> rows@[q].cells@.len()
                    <= alignments@.len()),
            forall|q: int| 0 <= q < i ==> row_ok(#[trigger] rows@[q], orows@[q], alignments@, *o),
        decreases rows.len() - i,
    {
        let row = &rows[i];
        let cells = format_cells(&row.cells, row.header, alignments, o);
        orows.push(OutputRow { header: row.header, cells });
        i = i + 1;
    }
    orows
}

/// Formats the blocks directly under a list item; in a tight list each
/// paragraph's wrapper is suppressed and its content stands bare.
fn format_item_children(bs: &Vec<BlockNode>, tight: bool, o: &Options) -> (rs: Vec<OutputNode>)
    requires
        blocks_wf(bs@),
    ensures
        item_children_ok(bs@, rs@, tight, *o),
    decreases bs@, 3int,
{
    let mut rs: Vec<OutputNode> = Vec::new();
    let mut i: usize = 0;
    while i < bs.len()
        invariant
            i <= bs.len(),
            rs@.len() == i,
            blocks_wf(bs@),
            forall|q: int| 0 <= q < i ==> item_child_ok(#[trigger] bs@[q], rs@[q], tight, *o),
        decreases bs.len() - i,
    {
        let node = &bs[i];
        proof {
            assert(block_wf(bs@[i as int]));
        }
        let child = if tight {
            match node {
                BlockNode::Paragraph(ns) => OutputNode::TextRun { content: encode_inlines(ns, o) },
                _ => format_block(node, o),
            }
        } else {
            format_block(node, o)
        };
        rs.push(child);
        i = i + 1;
    }
    rs
}

fn format_items(items: &Vec<ListItem>, tight: bool, o: &Options) -> (rs: Vec<OutputNode>)
    requires
        items_wf(items@),
    ensures
        items_ok(items@, rs@, tight, *o),
    decreases items@, 4int,
{
    let mut rs: Vec<OutputNode> = Vec::new();
    let mut i: usize = 0;
    while i < items.len()
        invariant
            i <= items.len(),
            rs@.len() == i,
            items_wf(items@),
            forall|q: int| 0 <= q < i ==> item_ok(#[trigger] items@[q], rs@[q], tight, *o),
        decreases items.len() - i,
    {
        proof {
            assert(blocks_wf(items@[i as int].blocks@));
        }
        let children = format_item_children(&items[i].blocks, tight, o);
        rs.push(OutputNode::Item { children });
        i = i + 1;
    }
    rs
}

fn format_blocks(bs: &Vec<BlockNode>, o: &Options) -> (rs: Vec<OutputNode>)
    requires
        blocks_wf(bs@),
    ensures
        blocks_ok(bs@, rs@, *o),
    decreases bs@, 1int,
{
    let mut rs: Vec<OutputNode> = Vec::new();
    let mut i: usize = 0;
    while i < bs.len()
        invariant
            i <= bs.len(),
            rs@.len() == i,
            blocks_wf(bs@),
            forall|q: int| 0 <= q < i ==> block_ok(#[trigger] bs@[q], rs@[q], *o),
        decreases bs.len() - i,
    {
        proof {
            assert(block_wf(bs@[i as int]));
        }
        let r = format_block(&bs[i], o);
        rs.push(r);
        i = i + 1;
    }
    rs
}

/// Formats one block node.
fn format_block(b: &BlockNode, o: &Options) -> (r: OutputNode)
    requires
        block_wf(*b),
    ensures
        block_ok(*b, r, *o),
    decreases *b, 0int,
{
    match b {
        BlockNode::Document(bs) => OutputNode::Document { children: format_blocks(bs, o) },
        BlockNode::BlockQuote(bs) => OutputNode::BlockQuote { children: format_blocks(bs, o) },
        BlockNode::List { list_type, tight, items } => {
            let ordered = match list_type {
                ListType::Ordered => true,
                ListType::Bullet => false,
            };
            OutputNode::List { ordered, children: format_items(items, *tight, o) }
        },
        BlockNode::Heading { level, content } => OutputNode::Heading {
            level: *level,
            content: encode_inlines(content, o),
        },
        BlockNode::CodeBlock { info, literal } => OutputNode::CodeBlock {
            lang: code_lang(info),
            lines: code_lines(literal),
        },
        BlockNode::HtmlBlock { literal } => {
            let filtered = if o.ext_tagfilter {
                let mut v: Vec<u8> = Vec::new();
                tagfilter_block(literal, &mut v);
                v
            } else {
                copy_bytes(literal)
            };
            OutputNode::HtmlBlock { literal: filtered }
        },
        BlockNode::ThematicBreak => OutputNode::ThematicBreak,
        BlockNode::Paragraph(ns) => OutputNode::Paragraph { content: encode_inlines(ns, o) },
        BlockNode::Table { alignments, rows } => OutputNode::Table {
            rows: format_rows(rows, alignments, o),
        },
    }
}

/// Converts a whole parsed document tree into the structured output
/// document: one output node per block, every run of inline content
/// flattened into text plus formatting spans, link anchors and table
/// cells in offset scopes of their own.
pub fn format_document(root: &BlockNode, options: &Options) -> (r: OutputNode)
    requires
        block_wf(*root),
    ensures
        block_ok(*root, r, *options),
{
    format_block(root, options)
}

} // verus!
