use rtjson::format_document;
use rtjson::node::{
    BlockNode, InlineNode, ListItem, ListType, Options, TableAlignment, TableCell, TableRow,
};
use rtjson::output::{FormatSpan, OutputNode};

fn plain_options() -> Options {
    Options { ext_tagfilter: false, hardbreaks: false }
}

fn text(s: &[u8]) -> InlineNode {
    InlineNode::Text(s.to_vec())
}

fn doc(blocks: Vec<BlockNode>) -> BlockNode {
    BlockNode::Document(blocks)
}

fn only_child(out: OutputNode) -> OutputNode {
    match out {
        OutputNode::Document { mut children } => {
            assert_eq!(children.len(), 1);
            children.pop().unwrap()
        },
        _ => panic!("expected a document"),
    }
}

#[test]
fn end_to_end_bold_and_italic() {
    // "plain **bold *and italic*** text"
    let tree = doc(vec![BlockNode::Paragraph(vec![
        text(b"plain "),
        InlineNode::Strong(vec![
            text(b"bold "),
            InlineNode::Emph(vec![text(b"and italic")]),
        ]),
        text(b" text"),
    ])]);
    let out = format_document(&tree, &plain_options());
    match only_child(out) {
        OutputNode::Paragraph { content } => {
            assert_eq!(content.text, b"plain bold and italic text".to_vec());
            assert_eq!(
                content.formatting,
                vec![
                    FormatSpan { mask: 3, start: 11, length: 10 },
                    FormatSpan { mask: 1, start: 6, length: 15 },
                ]
            );
            assert!(content.events.is_empty());
        },
        _ => panic!("expected a paragraph"),
    }
}

#[test]
fn heading_keeps_its_level() {
    let tree = doc(vec![BlockNode::Heading { level: 3, content: vec![text(b"h")] }]);
    match only_child(format_document(&tree, &plain_options())) {
        OutputNode::Heading { level, content } => {
            assert_eq!(level, 3);
            assert_eq!(content.text, b"h".to_vec());
        },
        _ => panic!("expected a heading"),
    }
}

#[test]
fn code_block_lang_is_first_token_of_info() {
    let tree = doc(vec![BlockNode::CodeBlock {
        info: b"rust ignore".to_vec(),
        literal: b"a\nb".to_vec(),
    }]);
    match only_child(format_document(&tree, &plain_options())) {
        OutputNode::CodeBlock { lang, lines } => {
            assert_eq!(lang, Some(b"rust".to_vec()));
            assert_eq!(lines, vec![b"a".to_vec(), b"b".to_vec()]);
        },
        _ => panic!("expected a code block"),
    }
}

#[test]
fn code_block_without_info_has_no_lang() {
    let tree = doc(vec![BlockNode::CodeBlock {
        info: b"".to_vec(),
        literal: b"".to_vec(),
    }]);
    match only_child(format_document(&tree, &plain_options())) {
        OutputNode::CodeBlock { lang, lines } => {
            assert_eq!(lang, None);
            // an empty literal is one empty raw line, not an error
            assert_eq!(lines, vec![b"".to_vec()]);
        },
        _ => panic!("expected a code block"),
    }
}

#[test]
fn code_block_lines_are_escaped_and_split() {
    let tree = doc(vec![BlockNode::CodeBlock {
        info: b"c".to_vec(),
        literal: b"x<y\n".to_vec(),
    }]);
    match only_child(format_document(&tree, &plain_options())) {
        OutputNode::CodeBlock { lines, .. } => {
            assert_eq!(lines, vec![b"x&lt;y".to_vec(), b"".to_vec()]);
        },
        _ => panic!("expected a code block"),
    }
}

#[test]
fn html_block_filtered_when_option_is_on() {
    let tree = doc(vec![BlockNode::HtmlBlock { literal: b"<script>x".to_vec() }]);
    let opts = Options { ext_tagfilter: true, hardbreaks: false };
    match only_child(format_document(&tree, &opts)) {
        OutputNode::HtmlBlock { literal } => assert_eq!(literal, b"&lt;script>x".to_vec()),
        _ => panic!("expected an html block"),
    }
}

#[test]
fn html_block_verbatim_when_option_is_off() {
    let tree = doc(vec![BlockNode::HtmlBlock { literal: b"<script>x".to_vec() }]);
    match only_child(format_document(&tree, &plain_options())) {
        OutputNode::HtmlBlock { literal } => assert_eq!(literal, b"<script>x".to_vec()),
        _ => panic!("expected an html block"),
    }
}

#[test]
fn tight_list_suppresses_paragraph_wrapper() {
    let tree = doc(vec![BlockNode::List {
        list_type: ListType::Bullet,
        tight: true,
        items: vec![ListItem { blocks: vec![BlockNode::Paragraph(vec![text(b"x")])] }],
    }]);
    match only_child(format_document(&tree, &plain_options())) {
        OutputNode::List { ordered, children } => {
            assert!(!ordered);
            assert_eq!(children.len(), 1);
            match &children[0] {
                OutputNode::Item { children } => match &children[0] {
                    OutputNode::TextRun { content } => assert_eq!(content.text, b"x".to_vec()),
                    _ => panic!("expected bare inline content in a tight list"),
                },
                _ => panic!("expected a list item"),
            }
        },
        _ => panic!("expected a list"),
    }
}

#[test]
fn loose_list_keeps_paragraph_wrapper() {
    let tree = doc(vec![BlockNode::List {
        list_type: ListType::Ordered,
        tight: false,
        items: vec![ListItem { blocks: vec![BlockNode::Paragraph(vec![text(b"x")])] }],
    }]);
    match only_child(format_document(&tree, &plain_options())) {
        OutputNode::List { ordered, children } => {
            assert!(ordered);
            match &children[0] {
                OutputNode::Item { children } => {
                    assert!(matches!(&children[0], OutputNode::Paragraph { .. }));
                },
                _ => panic!("expected a list item"),
            }
        },
        _ => panic!("expected a list"),
    }
}

#[test]
fn blockquote_and_thematic_break_nest() {
    let tree = doc(vec![
        BlockNode::BlockQuote(vec![BlockNode::Paragraph(vec![text(b"q")])]),
        BlockNode::ThematicBreak,
    ]);
    match format_document(&tree, &plain_options()) {
        OutputNode::Document { children } => {
            assert_eq!(children.len(), 2);
            assert!(matches!(&children[0], OutputNode::BlockQuote { .. }));
            assert!(matches!(&children[1], OutputNode::ThematicBreak));
        },
        _ => panic!("expected a document"),
    }
}

#[test]
fn table_header_cell_carries_column_alignment() {
    let tree = doc(vec![BlockNode::Table {
        alignments: vec![TableAlignment::Left, TableAlignment::Center],
        rows: vec![
            TableRow {
                header: true,
                cells: vec![
                    TableCell { content: vec![text(b"h1")] },
                    TableCell { content: vec![InlineNode::Strong(vec![text(b"h2")])] },
                ],
            },
            TableRow {
                header: false,
                cells: vec![
                    TableCell { content: vec![text(b"b1")] },
                    TableCell { content: vec![InlineNode::Strong(vec![text(b"b2")])] },
                ],
            },
        ],
    }]);
    match only_child(format_document(&tree, &plain_options())) {
        OutputNode::Table { rows } => {
            assert_eq!(rows.len(), 2);
            assert!(rows[0].header);
            assert_eq!(rows[0].cells[1].alignment, TableAlignment::Center);
            assert_eq!(rows[0].cells[0].alignment, TableAlignment::Left);
            assert!(!rows[1].header);
            assert_eq!(rows[1].cells[1].alignment, TableAlignment::NoAlignment);
            // each cell is its own offset scope: the styled text in the
            // header's second cell and in the body's second cell both
            // start at offset zero
            assert_eq!(rows[0].cells[1].content.text, b"h2".to_vec());
            assert_eq!(
                rows[0].cells[1].content.formatting,
                vec![FormatSpan { mask: 1, start: 0, length: 2 }]
            );
            assert_eq!(
                rows[1].cells[1].content.formatting,
                vec![FormatSpan { mask: 1, start: 0, length: 2 }]
            );
        },
        _ => panic!("expected a table"),
    }
}

#[test]
fn empty_document_encodes_to_empty_document() {
    match format_document(&doc(vec![]), &plain_options()) {
        OutputNode::Document { children } => assert!(children.is_empty()),
        _ => panic!("expected a document"),
    }
}

#[test]
fn link_inside_table_cell_nests_scopes() {
    let tree = doc(vec![BlockNode::Table {
        alignments: vec![TableAlignment::Right],
        rows: vec![TableRow {
            header: true,
            cells: vec![TableCell {
                content: vec![
                    text(b"go "),
                    InlineNode::Link {
                        url: b"u".to_vec(),
                        title: b"".to_vec(),
                        children: vec![InlineNode::Emph(vec![text(b"there")])],
                    },
                ],
            }],
        }],
    }]);
    match only_child(format_document(&tree, &plain_options())) {
        OutputNode::Table { rows } => {
            let cell = &rows[0].cells[0];
            assert_eq!(cell.alignment, TableAlignment::Right);
            assert_eq!(cell.content.text, b"go ".to_vec());
            match &cell.content.events[0] {
                rtjson::output::InlineEvent::Link { at, content, .. } => {
                    assert_eq!(*at, 3);
                    assert_eq!(content.text, b"there".to_vec());
                    assert_eq!(
                        content.formatting,
                        vec![FormatSpan { mask: 2, start: 0, length: 5 }]
                    );
                },
                _ => panic!("expected a link event"),
            }
        },
        _ => panic!("expected a table"),
    }
}
