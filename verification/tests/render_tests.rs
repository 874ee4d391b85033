use prmd::render::render_document;
use prmd::tree::{Alignment, Delim, ListData, Node};

fn txt(s: &str) -> Node {
    Node::Text { literal: s.to_string() }
}

fn para(children: Vec<Node>) -> Node {
    Node::Paragraph { children }
}

fn doc(children: Vec<Node>) -> Node {
    Node::Document { children }
}

fn bullet_data() -> ListData {
    ListData { bullet: true, start: 1, delim: Delim::Period }
}

fn ordered_data(delim: Delim) -> ListData {
    ListData { bullet: false, start: 1, delim }
}

fn item(list: ListData, children: Vec<Node>) -> Node {
    Node::Item { list, children }
}

fn plain(root: &Node) -> String {
    render_document(root, true).0
}

#[test]
fn heading_then_paragraph() {
    let root = doc(vec![
        Node::Heading { level: 1, children: vec![txt("Title")] },
        para(vec![txt("Body text.")]),
    ]);
    assert_eq!(plain(&root), "Title\n\nBody text.\n\n");
}

#[test]
fn single_level_bullet_list() {
    let root = doc(vec![Node::List {
        list: bullet_data(),
        children: vec![
            item(bullet_data(), vec![para(vec![txt("a")])]),
            item(bullet_data(), vec![para(vec![txt("b")])]),
        ],
    }]);
    assert_eq!(plain(&root), "\u{2022} a\n\u{2022} b\n\n");
}

#[test]
fn two_by_two_table_widths() {
    let root = doc(vec![Node::Table {
        num_columns: 2,
        alignments: vec![Alignment::Unspecified, Alignment::Unspecified],
        children: vec![
            Node::TableRow {
                header: true,
                children: vec![
                    Node::TableCell { children: vec![txt("A")] },
                    Node::TableCell { children: vec![txt("BB")] },
                ],
            },
            Node::TableRow {
                header: false,
                children: vec![
                    Node::TableCell { children: vec![txt("1")] },
                    Node::TableCell { children: vec![txt("2")] },
                ],
            },
        ],
    }]);
    assert_eq!(plain(&root), "A BB \n1 2  \n\n");
}

#[test]
fn simple_blockquote() {
    let root = doc(vec![Node::BlockQuote { children: vec![para(vec![txt("quoted")])] }]);
    assert_eq!(plain(&root), "\u{2502} quoted\n\n");
}

#[test]
fn unexpected_node_yields_placeholder_and_continues() {
    let root = doc(vec![para(vec![txt("ok")]), Node::SoftBreak, para(vec![txt("more")])]);
    let (text, diags) = render_document(&root, true);
    assert_eq!(text, "ok\n\n\u{1f494} Unexpected nodemore\n\n");
    assert_eq!(diags.len(), 1);
}

#[test]
fn ordered_list_with_paren_delimiter() {
    let data = ordered_data(Delim::Paren);
    let root = doc(vec![Node::List {
        list: data,
        children: vec![
            item(data, vec![para(vec![txt("a")])]),
            item(data, vec![para(vec![txt("b")])]),
        ],
    }]);
    assert_eq!(plain(&root), "1) a\n2) b\n\n");
}

#[test]
fn ordered_list_with_period_delimiter() {
    let data = ordered_data(Delim::Period);
    let root = doc(vec![Node::List {
        list: data,
        children: vec![item(data, vec![para(vec![txt("only")])])],
    }]);
    assert_eq!(plain(&root), "1. only\n\n");
}

#[test]
fn ordered_list_counts_from_start() {
    let data = ListData { bullet: false, start: 5, delim: Delim::Period };
    let root = doc(vec![Node::List {
        list: data,
        children: vec![
            item(data, vec![para(vec![txt("a")])]),
            item(data, vec![para(vec![txt("b")])]),
            item(data, vec![para(vec![txt("c")])]),
        ],
    }]);
    assert_eq!(plain(&root), "5. a\n6. b\n7. c\n\n");
}

#[test]
fn ordered_marker_saturates_at_the_machine_limit() {
    let data = ListData { bullet: false, start: u64::MAX, delim: Delim::Period };
    let root = doc(vec![Node::List {
        list: data,
        children: vec![
            item(data, vec![para(vec![txt("a")])]),
            item(data, vec![para(vec![txt("b")])]),
        ],
    }]);
    assert_eq!(
        plain(&root),
        "18446744073709551615. a\n18446744073709551615. b\n\n"
    );
}

#[test]
fn nested_bullet_list_markers_and_indent() {
    let root = doc(vec![Node::List {
        list: bullet_data(),
        children: vec![item(
            bullet_data(),
            vec![
                para(vec![txt("a")]),
                Node::List {
                    list: bullet_data(),
                    children: vec![item(
                        bullet_data(),
                        vec![
                            para(vec![txt("b")]),
                            Node::List {
                                list: bullet_data(),
                                children: vec![item(bullet_data(), vec![para(vec![txt("c")])])],
                            },
                        ],
                    )],
                },
            ],
        )],
    }]);
    assert_eq!(
        plain(&root),
        "\u{2022} a\n    \u{25e6} b\n        \u{25aa} c\n\n"
    );
}

#[test]
fn list_item_continuation_lines_align() {
    let root = doc(vec![Node::List {
        list: bullet_data(),
        children: vec![item(
            bullet_data(),
            vec![para(vec![txt("a"), Node::LineBreak, txt("b")])],
        )],
    }]);
    assert_eq!(plain(&root), "\u{2022} a\n  b\n\n");
}

#[test]
fn ordered_continuation_uses_two_spaces() {
    let data = ordered_data(Delim::Period);
    let root = doc(vec![Node::List {
        list: data,
        children: vec![item(data, vec![para(vec![txt("a"), Node::LineBreak, txt("b")])])],
    }]);
    assert_eq!(plain(&root), "1. a\n   b\n\n");
}

#[test]
fn nested_blockquote_prefixes() {
    let root = doc(vec![Node::BlockQuote {
        children: vec![
            para(vec![txt("a")]),
            Node::BlockQuote { children: vec![para(vec![txt("b")])] },
        ],
    }]);
    assert_eq!(plain(&root), "\u{2502} a\n\u{2502} \u{2502} b\n\n");
}

#[test]
fn blockquote_prefixes_every_line() {
    let root = doc(vec![Node::BlockQuote {
        children: vec![para(vec![txt("a"), Node::LineBreak, txt("b")])],
    }]);
    assert_eq!(plain(&root), "\u{2502} a\n\u{2502} b\n\n");
}

#[test]
fn softbreak_is_a_space() {
    let root = doc(vec![para(vec![txt("a"), Node::SoftBreak, txt("b")])]);
    assert_eq!(plain(&root), "a b\n\n");
}

#[test]
fn thematic_break_glyph() {
    let root = doc(vec![Node::ThematicBreak]);
    assert_eq!(plain(&root), "\u{00b6}\n");
}

#[test]
fn html_block_passes_through_in_both_modes() {
    let root = doc(vec![Node::HtmlBlock { literal: "<div class=\"x\">&amp;</div>".to_string() }]);
    assert_eq!(plain(&root), "<div class=\"x\">&amp;</div>\n");
    assert_eq!(render_document(&root, false).0, "<div class=\"x\">&amp;</div>\n");
}

#[test]
fn html_inline_passes_through_in_both_modes() {
    let root = doc(vec![para(vec![txt("a"), Node::HtmlInline { literal: "<b>".to_string() }])]);
    assert_eq!(plain(&root), "a<b>\n\n");
    assert_eq!(render_document(&root, false).0, "a<b>\n\n");
}

#[test]
fn link_plain_with_title() {
    let root = doc(vec![para(vec![Node::Link {
        url: "https://example.org".to_string(),
        title: "the title".to_string(),
        children: vec![txt("text")],
    }])]);
    assert_eq!(plain(&root), "text \"the title\" [https://example.org]\n\n");
}

#[test]
fn link_plain_without_title() {
    let root = doc(vec![para(vec![Node::Link {
        url: "u".to_string(),
        title: String::new(),
        children: vec![txt("x")],
    }])]);
    assert_eq!(plain(&root), "x [u]\n\n");
}

#[test]
fn image_renders_like_link() {
    let root = doc(vec![para(vec![Node::Image {
        url: "pic.png".to_string(),
        title: String::new(),
        children: vec![txt("alt")],
    }])]);
    assert_eq!(plain(&root), "alt [pic.png]\n\n");
}

#[test]
fn code_block_plain_with_info_banner() {
    let root = doc(vec![Node::CodeBlock {
        info: "rust".to_string(),
        literal: "fn main() {}\nlet x;\n".to_string(),
    }]);
    assert_eq!(plain(&root), "[rust]\n\u{2551} fn main() {}\n\u{2551} let x;\n\n");
}

#[test]
fn code_block_plain_without_info() {
    let root = doc(vec![Node::CodeBlock { info: String::new(), literal: "x\n".to_string() }]);
    assert_eq!(plain(&root), "\u{2551} x\n\n");
}

#[test]
fn code_block_empty_literal() {
    let root = doc(vec![Node::CodeBlock { info: String::new(), literal: String::new() }]);
    assert_eq!(plain(&root), "\n\n");
}

#[test]
fn code_block_strips_carriage_returns() {
    let root = doc(vec![Node::CodeBlock { info: String::new(), literal: "a\r\nb".to_string() }]);
    assert_eq!(plain(&root), "\u{2551} a\n\u{2551} b\n\n");
}

#[test]
fn empty_paragraph_in_quote_gives_one_empty_line() {
    let root = doc(vec![Node::BlockQuote { children: vec![para(vec![])] }]);
    assert_eq!(plain(&root), "\u{2502} \n\n");
}

#[test]
fn empty_document_renders_empty() {
    assert_eq!(plain(&doc(vec![])), "");
}

#[test]
fn non_item_in_list_becomes_placeholder() {
    let root = doc(vec![Node::List {
        list: bullet_data(),
        children: vec![txt("loose")],
    }]);
    let (text, diags) = render_document(&root, true);
    assert_eq!(text, "\u{1f494} Unexpected node\n");
    assert_eq!(diags.len(), 1);
}

#[test]
fn unexpected_item_child_becomes_placeholder() {
    let root = doc(vec![Node::List {
        list: bullet_data(),
        children: vec![item(bullet_data(), vec![Node::ThematicBreak])],
    }]);
    let (text, diags) = render_document(&root, true);
    assert_eq!(text, "\u{1f494} Unexpected node\n");
    assert_eq!(diags.len(), 1);
}

#[test]
fn plain_output_contains_no_escape_character() {
    let root = doc(vec![
        Node::Heading { level: 2, children: vec![Node::Emph { children: vec![txt("t")] }] },
        para(vec![Node::Strong { children: vec![txt("b")] }, Node::Code {
            literal: "c".to_string(),
        }]),
    ]);
    assert!(!plain(&root).contains('\u{1b}'));
}
