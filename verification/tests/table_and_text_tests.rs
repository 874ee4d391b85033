use prmd::render::{render_checked, render_document};
use prmd::text::{decimal_string, repeat_str, split_lines};
use prmd::tree::{tree_height, tree_well_formed, Alignment, Node};

fn cell(s: &str) -> Node {
    Node::TableCell { children: vec![Node::Text { literal: s.to_string() }] }
}

fn row(header: bool, cells: Vec<Node>) -> Node {
    Node::TableRow { header, children: cells }
}

fn table(alignments: Vec<Alignment>, children: Vec<Node>) -> Node {
    Node::Table { num_columns: alignments.len(), alignments, children }
}

fn tdoc(children: Vec<Node>) -> Node {
    Node::Document { children }
}

fn tplain(root: &Node) -> String {
    render_document(root, true).0
}

#[test]
fn center_alignment_splits_padding() {
    let root = tdoc(vec![table(
        vec![Alignment::Center],
        vec![row(false, vec![cell("a")]), row(false, vec![cell("ccccc")])],
    )]);
    // width 5, padding 4: two spaces left, content, separator, two right
    assert_eq!(tplain(&root), "  a   \nccccc \n\n");
}

#[test]
fn center_alignment_odd_padding_favours_right() {
    let root = tdoc(vec![table(
        vec![Alignment::Center],
        vec![row(false, vec![cell("a")]), row(false, vec![cell("bbbb")])],
    )]);
    // width 4, padding 3: one space left, two right
    assert_eq!(tplain(&root), " a   \nbbbb \n\n");
}

#[test]
fn right_alignment_pads_left() {
    let root = tdoc(vec![table(
        vec![Alignment::Right],
        vec![row(false, vec![cell("a")]), row(false, vec![cell("bbb")])],
    )]);
    assert_eq!(tplain(&root), "  a \nbbb \n\n");
}

#[test]
fn left_alignment_pads_right() {
    let root = tdoc(vec![table(
        vec![Alignment::Left],
        vec![row(false, vec![cell("a")]), row(false, vec![cell("bbb")])],
    )]);
    assert_eq!(tplain(&root), "a   \nbbb \n\n");
}

#[test]
fn empty_column_is_legal() {
    let root = tdoc(vec![table(
        vec![Alignment::Unspecified, Alignment::Unspecified],
        vec![row(false, vec![cell(""), cell("x")])],
    )]);
    // first column width 0: just the separator space
    assert_eq!(tplain(&root), " x \n\n");
}

#[test]
fn non_cell_in_row_becomes_placeholder() {
    let root = tdoc(vec![table(
        vec![Alignment::Unspecified, Alignment::Unspecified],
        vec![row(false, vec![cell("a"), Node::SoftBreak])],
    )]);
    let (text, diags) = render_document(&root, true);
    assert_eq!(text, "a \u{1f494} Unexpected node\n\n");
    assert_eq!(diags.len(), 1);
}

#[test]
fn non_row_in_table_becomes_placeholder() {
    let root = tdoc(vec![table(
        vec![Alignment::Unspecified],
        vec![Node::SoftBreak, row(false, vec![cell("a")])],
    )]);
    let (text, diags) = render_document(&root, true);
    assert_eq!(text, "\u{1f494} Unexpected nodea \n\n");
    assert_eq!(diags.len(), 1);
}

#[test]
fn well_formed_accepts_good_table() {
    let root = tdoc(vec![table(
        vec![Alignment::Unspecified],
        vec![row(false, vec![cell("a")])],
    )]);
    assert!(tree_well_formed(&root));
}

#[test]
fn well_formed_rejects_short_row() {
    let root = tdoc(vec![table(
        vec![Alignment::Unspecified, Alignment::Unspecified],
        vec![row(false, vec![cell("a")])],
    )]);
    assert!(!tree_well_formed(&root));
}

#[test]
fn well_formed_rejects_alignment_mismatch() {
    let bad = Node::Table {
        num_columns: 2,
        alignments: vec![Alignment::Unspecified],
        children: vec![],
    };
    assert!(!tree_well_formed(&tdoc(vec![bad])));
}

#[test]
fn render_checked_rejects_ill_formed_tree() {
    let root = tdoc(vec![table(
        vec![Alignment::Unspecified, Alignment::Unspecified],
        vec![row(false, vec![cell("a")])],
    )]);
    assert!(render_checked(&root, true).is_none());
}

#[test]
fn render_checked_renders_good_tree() {
    let root = tdoc(vec![Node::Paragraph {
        children: vec![Node::Text { literal: "hi".to_string() }],
    }]);
    let (text, diags) = render_checked(&root, true).unwrap();
    assert_eq!(text, "hi\n\n");
    assert!(diags.is_empty());
}

#[test]
fn height_of_small_tree() {
    let root = tdoc(vec![Node::Paragraph {
        children: vec![Node::Text { literal: "x".to_string() }],
    }]);
    assert_eq!(tree_height(&root), Some(3));
}

#[test]
fn decimal_formatting() {
    assert_eq!(decimal_string(0), "0");
    assert_eq!(decimal_string(7), "7");
    assert_eq!(decimal_string(10), "10");
    assert_eq!(decimal_string(1234567890), "1234567890");
    assert_eq!(decimal_string(u64::MAX), "18446744073709551615");
}

#[test]
fn repeat_builds_runs() {
    assert_eq!(repeat_str("ab", 3), "ababab");
    assert_eq!(repeat_str("x", 0), "");
}

#[test]
fn split_lines_matches_rust_lines() {
    for s in ["", "a", "a\n", "a\nb", "a\n\nb\n", "a\r\nb\r\n", "\n", "x\ry"] {
        let got: Vec<String> = split_lines(s);
        let want: Vec<String> = s.lines().map(|l| l.to_string()).collect();
        assert_eq!(got, want, "splitting {:?}", s);
    }
}
