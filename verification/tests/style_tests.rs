use prmd::render::render_document;
use prmd::tree::{Alignment, Node};

fn stytxt(s: &str) -> Node {
    Node::Text { literal: s.to_string() }
}

fn stydoc(children: Vec<Node>) -> Node {
    Node::Document { children }
}

fn styled(root: &Node) -> String {
    render_document(root, false).0
}

fn expected_paint(style: ansi_term::Style, s: &str) -> String {
    style.paint(s).to_string()
}

#[test]
fn styled_emphasis_is_italic() {
    let root = stydoc(vec![Node::Paragraph {
        children: vec![Node::Emph { children: vec![stytxt("a")] }],
    }]);
    assert_eq!(styled(&root), "\u{1b}[3ma\u{1b}[0m\n\n");
}

#[test]
fn styled_strong_is_bold() {
    let root = stydoc(vec![Node::Paragraph {
        children: vec![Node::Strong { children: vec![stytxt("a")] }],
    }]);
    assert_eq!(styled(&root), "\u{1b}[1ma\u{1b}[0m\n\n");
}

#[test]
fn styled_underline_and_strikethrough() {
    let root = stydoc(vec![Node::Paragraph {
        children: vec![
            Node::Underline { children: vec![stytxt("u")] },
            Node::Strikethrough { children: vec![stytxt("s")] },
        ],
    }]);
    assert_eq!(styled(&root), "\u{1b}[4mu\u{1b}[0m\u{1b}[9ms\u{1b}[0m\n\n");
}

#[test]
fn styled_matches_ansi_term_output() {
    let root = stydoc(vec![Node::Paragraph {
        children: vec![Node::Emph { children: vec![stytxt("a")] }],
    }]);
    let expected = format!("{}\n\n", expected_paint(ansi_term::Style::new().italic(), "a"));
    assert_eq!(styled(&root), expected);
}

#[test]
fn styled_code_span_uses_highlight() {
    let root = stydoc(vec![Node::Paragraph {
        children: vec![Node::Code { literal: "x".to_string() }],
    }]);
    assert_eq!(styled(&root), "\u{1b}[1;48;5;238;37mx\u{1b}[0m\n\n");
}

#[test]
fn styled_heading_levels() {
    for (level, enter) in [
        (1u8, "\u{1b}[1;4m"),
        (2, "\u{1b}[1;3m"),
        (3, "\u{1b}[3;4m"),
        (4, "\u{1b}[3m"),
        (5, "\u{1b}[4m"),
        (6, "\u{1b}[4m"),
    ] {
        let root = stydoc(vec![Node::Heading { level, children: vec![stytxt("h")] }]);
        assert_eq!(styled(&root), format!("{}h\u{1b}[0m\n\n", enter));
    }
}

#[test]
fn plain_heading_has_no_attributes() {
    let root = stydoc(vec![Node::Heading { level: 1, children: vec![stytxt("h")] }]);
    assert_eq!(render_document(&root, true).0, "h\n\n");
}

#[test]
fn styled_link_underlines_text() {
    let root = stydoc(vec![Node::Paragraph {
        children: vec![Node::Link {
            url: "u".to_string(),
            title: "t".to_string(),
            children: vec![stytxt("x")],
        }],
    }]);
    assert_eq!(styled(&root), "\u{1b}[4mx\u{1b}[0m \"t\" [u]\n\n");
}

#[test]
fn styled_code_block_highlights_each_line() {
    let root = stydoc(vec![Node::CodeBlock {
        info: "sh".to_string(),
        literal: "a\nb".to_string(),
    }]);
    assert_eq!(
        styled(&root),
        "\u{1b}[7m[sh]\n\u{1b}[0m\u{1b}[1;48;5;238;37ma\u{1b}[K\u{1b}[0m\n\u{1b}[1;48;5;238;37mb\u{1b}[K\u{1b}[0m\n\n"
    );
}

#[test]
fn styled_table_header_is_bold_underlined() {
    let root = stydoc(vec![Node::Table {
        num_columns: 1,
        alignments: vec![Alignment::Unspecified],
        children: vec![
            Node::TableRow {
                header: true,
                children: vec![Node::TableCell { children: vec![stytxt("h")] }],
            },
            Node::TableRow {
                header: false,
                children: vec![Node::TableCell { children: vec![stytxt("b")] }],
            },
        ],
    }]);
    assert_eq!(styled(&root), "\u{1b}[1;4mh\u{1b}[0m \nb \n\n");
}

#[test]
fn styled_table_width_ignores_attribute_sequences() {
    // The styled header cell is much longer in bytes than the body cell,
    // yet the column width comes from the unstyled text alone.
    let root = stydoc(vec![Node::Table {
        num_columns: 1,
        alignments: vec![Alignment::Unspecified],
        children: vec![
            Node::TableRow {
                header: true,
                children: vec![Node::TableCell {
                    children: vec![Node::Emph { children: vec![stytxt("h")] }],
                }],
            },
            Node::TableRow {
                header: false,
                children: vec![Node::TableCell { children: vec![stytxt("bb")] }],
            },
        ],
    }]);
    assert_eq!(
        styled(&root),
        "\u{1b}[1;4m\u{1b}[3mh\u{1b}[0m\u{1b}[0m  \nbb \n\n"
    );
}
