use rtjson::inline::encode_inlines;
use rtjson::node::{InlineNode, Options};
use rtjson::output::{FormatSpan, InlineEvent};

fn plain_options() -> Options {
    Options { ext_tagfilter: false, hardbreaks: false }
}

fn text(s: &[u8]) -> InlineNode {
    InlineNode::Text(s.to_vec())
}

#[test]
fn plain_text_has_no_spans() {
    let out = encode_inlines(&vec![text(b"hello")], &plain_options());
    assert_eq!(out.text, b"hello".to_vec());
    assert!(out.formatting.is_empty());
    assert!(out.events.is_empty());
}

#[test]
fn nested_strong_emph_masks_combine_by_or() {
    // the tree of `**a*b***`: bold "a", then bold+italic "b"
    let tree = vec![InlineNode::Strong(vec![
        text(b"a"),
        InlineNode::Emph(vec![text(b"b")]),
    ])];
    let out = encode_inlines(&tree, &plain_options());
    assert_eq!(out.text, b"ab".to_vec());
    assert_eq!(
        out.formatting,
        vec![
            FormatSpan { mask: 3, start: 1, length: 1 },
            FormatSpan { mask: 1, start: 0, length: 2 },
        ]
    );
}

#[test]
fn sibling_styles_close_left_to_right() {
    let tree = vec![
        InlineNode::Strong(vec![text(b"a")]),
        InlineNode::Emph(vec![text(b"b")]),
    ];
    let out = encode_inlines(&tree, &plain_options());
    assert_eq!(out.text, b"ab".to_vec());
    assert_eq!(
        out.formatting,
        vec![
            FormatSpan { mask: 1, start: 0, length: 1 },
            FormatSpan { mask: 2, start: 1, length: 1 },
        ]
    );
}

#[test]
fn strikethrough_and_superscript_bits() {
    let tree = vec![
        InlineNode::Strikethrough(vec![text(b"s")]),
        InlineNode::Superscript(vec![text(b"p")]),
    ];
    let out = encode_inlines(&tree, &plain_options());
    assert_eq!(
        out.formatting,
        vec![
            FormatSpan { mask: 8, start: 0, length: 1 },
            FormatSpan { mask: 32, start: 1, length: 1 },
        ]
    );
}

#[test]
fn inline_code_is_escaped_and_spanned() {
    let out = encode_inlines(&vec![InlineNode::Code(b"x<y".to_vec())], &plain_options());
    assert_eq!(out.text, b"x&lt;y".to_vec());
    assert_eq!(out.formatting, vec![FormatSpan { mask: 64, start: 0, length: 6 }]);
}

#[test]
fn zero_length_span_is_recorded() {
    let out = encode_inlines(&vec![InlineNode::Strong(vec![])], &plain_options());
    assert_eq!(out.text, b"".to_vec());
    assert_eq!(out.formatting, vec![FormatSpan { mask: 1, start: 0, length: 0 }]);
}

#[test]
fn link_anchor_gets_its_own_scope() {
    let tree = vec![
        text(b"see "),
        InlineNode::Link {
            url: b"http://a b".to_vec(),
            title: b"".to_vec(),
            children: vec![InlineNode::Strong(vec![text(b"hi")])],
        },
        text(b"!"),
    ];
    let out = encode_inlines(&tree, &plain_options());
    assert_eq!(out.text, b"see !".to_vec());
    assert!(out.formatting.is_empty());
    assert_eq!(out.events.len(), 1);
    match &out.events[0] {
        InlineEvent::Link { at, url, content } => {
            assert_eq!(*at, 4);
            assert_eq!(url, &b"http://a%20b".to_vec());
            assert_eq!(content.text, b"hi".to_vec());
            // anchor spans are relative to the anchor's own text, however
            // much document text precedes the link
            assert_eq!(content.formatting, vec![FormatSpan { mask: 1, start: 0, length: 2 }]);
        },
        _ => panic!("expected a link event"),
    }
}

#[test]
fn empty_link_yields_empty_pair() {
    let tree = vec![InlineNode::Link {
        url: b"u".to_vec(),
        title: b"".to_vec(),
        children: vec![],
    }];
    let out = encode_inlines(&tree, &plain_options());
    match &out.events[0] {
        InlineEvent::Link { content, .. } => {
            assert!(content.text.is_empty());
            assert!(content.formatting.is_empty());
        },
        _ => panic!("expected a link event"),
    }
}

#[test]
fn soft_break_writes_newline_by_default() {
    let tree = vec![text(b"a"), InlineNode::SoftBreak, text(b"b")];
    let out = encode_inlines(&tree, &plain_options());
    assert_eq!(out.text, b"a\nb".to_vec());
    assert!(out.events.is_empty());
}

#[test]
fn soft_break_becomes_break_marker_when_forced() {
    let tree = vec![text(b"a"), InlineNode::SoftBreak, text(b"b")];
    let opts = Options { ext_tagfilter: false, hardbreaks: true };
    let out = encode_inlines(&tree, &opts);
    assert_eq!(out.text, b"ab".to_vec());
    assert_eq!(out.events.len(), 1);
    match &out.events[0] {
        InlineEvent::Break { at } => assert_eq!(*at, 1),
        _ => panic!("expected a break event"),
    }
}

#[test]
fn line_break_is_recorded_at_its_offset() {
    let tree = vec![text(b"ab"), InlineNode::LineBreak, text(b"c")];
    let out = encode_inlines(&tree, &plain_options());
    assert_eq!(out.text, b"abc".to_vec());
    match &out.events[0] {
        InlineEvent::Break { at } => assert_eq!(*at, 2),
        _ => panic!("expected a break event"),
    }
}

#[test]
fn html_inline_neutralized_when_filtering() {
    let tree = vec![InlineNode::HtmlInline(b"<script>".to_vec())];
    let opts = Options { ext_tagfilter: true, hardbreaks: false };
    let out = encode_inlines(&tree, &opts);
    assert_eq!(out.text, b"&lt;script>".to_vec());
}

#[test]
fn html_inline_verbatim_without_filtering() {
    let tree = vec![InlineNode::HtmlInline(b"<script>".to_vec())];
    let out = encode_inlines(&tree, &plain_options());
    assert_eq!(out.text, b"<script>".to_vec());
}

#[test]
fn html_inline_harmless_tag_kept_even_when_filtering() {
    let tree = vec![InlineNode::HtmlInline(b"<em>".to_vec())];
    let opts = Options { ext_tagfilter: true, hardbreaks: false };
    let out = encode_inlines(&tree, &opts);
    assert_eq!(out.text, b"<em>".to_vec());
}

#[test]
fn image_carries_plain_alt_and_escaped_title() {
    let tree = vec![InlineNode::Image {
        url: b"img png".to_vec(),
        title: b"a<b".to_vec(),
        children: vec![InlineNode::Strong(vec![text(b"alt")])],
    }];
    let out = encode_inlines(&tree, &plain_options());
    assert!(out.text.is_empty());
    assert!(out.formatting.is_empty());
    match &out.events[0] {
        InlineEvent::Image { at, url, alt, alt_breaks, title } => {
            assert_eq!(*at, 0);
            assert_eq!(url, &b"img%20png".to_vec());
            assert_eq!(alt, &b"alt".to_vec());
            assert!(alt_breaks.is_empty());
            assert_eq!(title, &b"a&lt;b".to_vec());
        },
        _ => panic!("expected an image event"),
    }
}

#[test]
fn image_alt_breaks_are_markers_not_text() {
    let tree = vec![InlineNode::Image {
        url: b"u".to_vec(),
        title: b"".to_vec(),
        children: vec![text(b"a"), InlineNode::LineBreak, InlineNode::SoftBreak, text(b"b")],
    }];
    let out = encode_inlines(&tree, &plain_options());
    match &out.events[0] {
        InlineEvent::Image { alt, alt_breaks, .. } => {
            // the breaks leave no bytes in the alt text, only typed
            // markers at their offsets
            assert_eq!(alt, &b"ab".to_vec());
            assert_eq!(alt_breaks, &vec![1usize, 1usize]);
        },
        _ => panic!("expected an image event"),
    }
}

#[test]
fn text_is_escaped_inside_styles() {
    let tree = vec![InlineNode::Strong(vec![text(b"a&b")])];
    let out = encode_inlines(&tree, &plain_options());
    assert_eq!(out.text, b"a&amp;b".to_vec());
    assert_eq!(out.formatting, vec![FormatSpan { mask: 1, start: 0, length: 7 }]);
}

#[test]
fn link_inside_styled_text_keeps_outer_offsets() {
    // the link adds no text of its own to the outer scope, so the strong
    // span covers only the visible bytes around it
    let tree = vec![InlineNode::Strong(vec![
        text(b"a"),
        InlineNode::Link {
            url: b"u".to_vec(),
            title: b"".to_vec(),
            children: vec![text(b"anchor")],
        },
        text(b"b"),
    ])];
    let out = encode_inlines(&tree, &plain_options());
    assert_eq!(out.text, b"ab".to_vec());
    assert_eq!(out.formatting, vec![FormatSpan { mask: 1, start: 0, length: 2 }]);
    match &out.events[0] {
        InlineEvent::Link { at, content, .. } => {
            assert_eq!(*at, 1);
            assert_eq!(content.text, b"anchor".to_vec());
        },
        _ => panic!("expected a link event"),
    }
}

#[test]
fn empty_run_encodes_to_empty_output() {
    let out = encode_inlines(&vec![], &plain_options());
    assert!(out.text.is_empty());
    assert!(out.formatting.is_empty());
    assert!(out.events.is_empty());
}
