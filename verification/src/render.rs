//! The renderer: a recursive visitor that walks the document tree and
//! produces one output string, plain or styled.
//!
//! Every executable function here is specified against the `sp_*` family of
//! spec functions, which give the output character sequence exactly.  A node
//! standing in a position where the dispatch does not expect it renders as a
//! fixed placeholder and leaves a note in the diagnostics sink; rendering is
//! never fatal.

use vstd::prelude::*;
use vstd::string::*;

use crate::style::{
    heading_enter, seq_bold, seq_bold_underline, seq_code, seq_erase_eol, seq_italic, seq_reset,
    seq_reverse, seq_strikethrough, seq_underline,
};
use crate::text::{spec_decimal, spec_lines, spec_repeat};
use crate::tree::{
    children_of, node_height, seq_height, wf_node, wf_nodes, Alignment, Delim, ListData, Node,
};

verus! {

/// The placeholder that stands in the output where a node was not
/// recognized in its structural position.
pub open spec fn placeholder() -> Seq<char> {
    "\u{1f494} Unexpected node"@
}

/// A node the inline dispatch does not recognize: it renders as the
/// placeholder and must leave a diagnostic.
pub open spec fn unexpected_inline(n: Node) -> bool {
    !(n is Emph || n is Strong || n is Underline || n is Strikethrough || n is Code || n is Link
        || n is Image || n is Paragraph || n is SoftBreak || n is LineBreak || n is HtmlInline
        || n is Text)
}

/// A node the top-level block dispatch does not recognize.
pub open spec fn unexpected_block(n: Node) -> bool {
    !(n is Paragraph || n is Heading || n is List || n is BlockQuote || n is CodeBlock
        || n is ThematicBreak || n is HtmlBlock || n is Table)
}

/// A node the list-item dispatch does not recognize among an item's
/// children.
pub open spec fn unexpected_item_child(n: Node) -> bool {
    !(n is List || n is Paragraph)
}

/// One newline.
pub open spec fn nl() -> Seq<char> {
    seq!['\n']
}

/// The two-character lead glyph a quoted line is prefixed with.
pub open spec fn quote_lead() -> Seq<char> {
    seq!['\u{2502}', ' ']
}

/// The marker a plain-mode code line is prefixed with.
pub open spec fn code_lead() -> Seq<char> {
    seq!['\u{2551}', ' ']
}

/// The thematic-break line.
pub open spec fn thematic_break_text() -> Seq<char> {
    seq!['\u{00b6}', '\n']
}

/// The one-space-wide bullet glyph for each nesting level: level 0, level 1,
/// and every deeper level each have their own glyph.
pub open spec fn bullet_glyph(level: nat) -> Seq<char> {
    if level == 0 {
        seq!['\u{2022}']
    } else if level == 1 {
        seq!['\u{25e6}']
    } else {
        seq!['\u{25aa}']
    }
}

/// The character that closes an ordered list marker.
pub open spec fn delim_char(d: Delim) -> char {
    match d {
        Delim::Period => '.',
        Delim::Paren => ')',
    }
}

/// The four-space indentation unit of one list nesting level.
pub open spec fn indent_unit() -> Seq<char> {
    seq![' ', ' ', ' ', ' ']
}

/// Wraps text in an attribute pair in styled mode; leaves it alone in plain
/// mode.
pub open spec fn sp_wrap(enter: Seq<char>, text: Seq<char>, plain: bool) -> Seq<char> {
    if plain {
        text
    } else {
        enter + text + seq_reset()
    }
}

/// A link or image once its inner text is rendered: the (possibly
/// underlined) text, then ` "title"` when the title is non-empty, then
/// ` [url]`.
pub open spec fn sp_link_text(
    text: Seq<char>,
    url: Seq<char>,
    title: Seq<char>,
    plain: bool,
) -> Seq<char> {
    let content = sp_wrap(seq_underline(), text, plain);
    let title_part = if title.len() > 0 {
        seq![' ', '"'] + title + seq!['"']
    } else {
        Seq::<char>::empty()
    };
    content + title_part + seq![' ', '['] + url + seq![']']
}

/// One node rendered in an inline position.
pub open spec fn sp_inline(n: Node, plain: bool) -> Seq<char>
    decreases n, 1int,
{
    match n {
        Node::Emph { children } => sp_wrap(seq_italic(), sp_inlines(children@, plain), plain),
        Node::Strong { children } => sp_wrap(seq_bold(), sp_inlines(children@, plain), plain),
        Node::Underline { children } => sp_wrap(
            seq_underline(),
            sp_inlines(children@, plain),
            plain,
        ),
        Node::Strikethrough { children } => sp_wrap(
            seq_strikethrough(),
            sp_inlines(children@, plain),
            plain,
        ),
        Node::Code { literal } => sp_wrap(seq_code(), literal@, plain),
        Node::Link { url, title, children } => sp_link_text(
            sp_inlines(children@, plain),
            url@,
            title@,
            plain,
        ),
        Node::Image { url, title, children } => sp_link_text(
            sp_inlines(children@, plain),
            url@,
            title@,
            plain,
        ),
        Node::Paragraph { children } => sp_inlines(children@, plain) + nl() + nl(),
        Node::SoftBreak => seq![' '],
        Node::LineBreak => seq!['\n'],
        Node::HtmlInline { literal } => literal@,
        Node::Text { literal } => literal@,
        _ => placeholder(),
    }
}

/// A sequence of nodes rendered in inline positions, concatenated in order.
pub open spec fn sp_inlines(ns: Seq<Node>, plain: bool) -> Seq<char>
    decreases ns, 0int,
{
    if ns.len() == 0 {
        Seq::empty()
    } else {
        sp_inlines(ns.drop_last(), plain) + sp_inline(ns.last(), plain)
    }
}

/// A node's children rendered in inline positions.
pub open spec fn sp_children(n: Node, plain: bool) -> Seq<char>
    decreases n, 2int,
{
    match n {
        Node::Document { children } => sp_inlines(children@, plain),
        Node::Paragraph { children } => sp_inlines(children@, plain),
        Node::Heading { children, .. } => sp_inlines(children@, plain),
        Node::List { children, .. } => sp_inlines(children@, plain),
        Node::Item { children, .. } => sp_inlines(children@, plain),
        Node::BlockQuote { children } => sp_inlines(children@, plain),
        Node::Table { children, .. } => sp_inlines(children@, plain),
        Node::TableRow { children, .. } => sp_inlines(children@, plain),
        Node::TableCell { children } => sp_inlines(children@, plain),
        Node::Emph { children } => sp_inlines(children@, plain),
        Node::Strong { children } => sp_inlines(children@, plain),
        Node::Underline { children } => sp_inlines(children@, plain),
        Node::Strikethrough { children } => sp_inlines(children@, plain),
        Node::Link { children, .. } => sp_inlines(children@, plain),
        Node::Image { children, .. } => sp_inlines(children@, plain),
        _ => Seq::empty(),
    }
}

/// The lines a quoted child's text is split into: like `spec_lines`, except
/// that empty text still gives one (empty) quoted line.
pub open spec fn quote_lines(text: Seq<char>) -> Seq<Seq<char>> {
    if text.len() == 0 {
        seq![Seq::<char>::empty()]
    } else {
        spec_lines(text)
    }
}

/// Each line prefixed and terminated: `prefix line \n` for every line.
pub open spec fn sp_prefixed(lines: Seq<Seq<char>>, prefix: Seq<char>) -> Seq<char>
    decreases lines.len(),
{
    if lines.len() == 0 {
        Seq::empty()
    } else {
        sp_prefixed(lines.drop_last(), prefix) + prefix + lines.last() + nl()
    }
}

/// A non-quote child of a quote at nesting level `level`: its inline text,
/// split into lines, each prefixed with `level + 1` lead glyphs.
pub open spec fn sp_quote_piece(text: Seq<char>, level: nat) -> Seq<char> {
    sp_prefixed(quote_lines(text), spec_repeat(quote_lead(), level + 1))
}

/// The children of a block quote at nesting level `level`.
pub open spec fn sp_quote_children(ns: Seq<Node>, level: nat, plain: bool) -> Seq<char>
    decreases ns, 3int,
{
    if ns.len() == 0 {
        Seq::empty()
    } else {
        let piece = if ns.last() is BlockQuote {
            sp_quote(ns.last(), level + 1, plain)
        } else {
            sp_quote_piece(sp_children(ns.last(), plain), level)
        };
        sp_quote_children(ns.drop_last(), level, plain) + piece
    }
}

/// A block quote at nesting level `level`; the top-level call appends one
/// blank line.
pub open spec fn sp_quote(n: Node, level: nat, plain: bool) -> Seq<char>
    decreases n, 4int,
{
    match n {
        Node::BlockQuote { children } => {
            if level == 0 {
                sp_quote_children(children@, level, plain) + nl()
            } else {
                sp_quote_children(children@, level, plain)
            }
        },
        _ => Seq::empty(),
    }
}

/// The number an ordered item shows: the list's `start` plus the item's
/// position.  A count past `u64::MAX` saturates — a machine limit no real
/// document reaches.
pub open spec fn marker_number(start: u64, idx: nat) -> nat {
    if start + idx > u64::MAX {
        u64::MAX as nat
    } else {
        (start + idx) as nat
    }
}

/// The marker of one list item: a level-dependent glyph for bullets; for
/// ordered lists the item's number, counted from the list's `start` by
/// position, followed by its delimiter.
pub open spec fn sp_marker(list: ListData, idx: nat, level: nat) -> Seq<char> {
    if list.bullet {
        bullet_glyph(level)
    } else {
        spec_decimal(marker_number(list.start, idx)) + seq![delim_char(list.delim)]
    }
}

/// The fixed width the continuation indent assumes the marker has: 1 for a
/// bullet glyph, 2 for an ordered marker.
pub open spec fn sp_marker_width(list: ListData) -> nat {
    if list.bullet {
        1
    } else {
        2
    }
}

/// A list item's paragraph, one output line per text line: the first line
/// carries the marker, continuation lines align under it with spaces.
pub open spec fn sp_marker_lines(
    lines: Seq<Seq<char>>,
    marker: Seq<char>,
    marker_width: nat,
    level: nat,
) -> Seq<char>
    decreases lines.len(),
{
    if lines.len() == 0 {
        Seq::empty()
    } else {
        let head = if lines.len() - 1 == 0 {
            marker
        } else {
            spec_repeat(seq![' '], marker_width)
        };
        sp_marker_lines(lines.drop_last(), marker, marker_width, level) + spec_repeat(
            indent_unit(),
            level,
        ) + head + seq![' '] + lines.last() + nl()
    }
}

/// One child of a list item: a nested list recurses one level deeper, a
/// paragraph becomes marker-prefixed lines, anything else the placeholder.
pub open spec fn sp_item_child(
    c: Node,
    list: ListData,
    idx: nat,
    level: nat,
    plain: bool,
) -> Seq<char>
    decreases c, 6int,
{
    match c {
        Node::List { .. } => sp_list(c, level + 1, plain),
        Node::Paragraph { .. } => sp_marker_lines(
            spec_lines(sp_children(c, plain)),
            sp_marker(list, idx, level),
            sp_marker_width(list),
            level,
        ),
        _ => placeholder(),
    }
}

/// The children of one list item, concatenated.
pub open spec fn sp_item_children(
    ns: Seq<Node>,
    list: ListData,
    idx: nat,
    level: nat,
    plain: bool,
) -> Seq<char>
    decreases ns, 7int,
{
    if ns.len() == 0 {
        Seq::empty()
    } else {
        sp_item_children(ns.drop_last(), list, idx, level, plain) + sp_item_child(
            ns.last(),
            list,
            idx,
            level,
            plain,
        )
    }
}

/// One child of a list: an `Item` renders its children with its own list
/// fields and its position, anything else the placeholder.
pub open spec fn sp_item(c: Node, idx: nat, level: nat, plain: bool) -> Seq<char>
    decreases c, 8int,
{
    match c {
        Node::Item { list, children } => sp_item_children(children@, list, idx, level, plain),
        _ => placeholder(),
    }
}

/// The items of a list, in order, each knowing its position.
pub open spec fn sp_items(ns: Seq<Node>, level: nat, plain: bool) -> Seq<char>
    decreases ns, 9int,
{
    if ns.len() == 0 {
        Seq::empty()
    } else {
        sp_items(ns.drop_last(), level, plain) + sp_item(
            ns.last(),
            (ns.len() - 1) as nat,
            level,
            plain,
        )
    }
}

/// A list at nesting level `level`; the top-level call appends one blank
/// line, nested calls do not.
pub open spec fn sp_list(n: Node, level: nat, plain: bool) -> Seq<char>
    decreases n, 5int,
{
    match n {
        Node::List { children, .. } => {
            if level == 0 {
                sp_items(children@, level, plain) + nl()
            } else {
                sp_items(children@, level, plain)
            }
        },
        _ => Seq::empty(),
    }
}

/// The unstyled length of a table cell's content; 0 for a node that is not
/// a cell.
pub open spec fn cell_plain_len(cell: Node) -> nat
    decreases cell, 3int,
{
    match cell {
        Node::TableCell { children } => sp_inlines(children@, true).len(),
        _ => 0,
    }
}

/// The unstyled length of cell `col` of a row; 0 when the node is not a row
/// or has no such cell.
pub open spec fn row_cell_len(row: Node, col: int) -> nat
    decreases row, 5int,
{
    match row {
        Node::TableRow { children, .. } => {
            if 0 <= col < children@.len() {
                cell_len_at(children@, col)
            } else {
                0
            }
        },
        _ => 0,
    }
}

/// The unstyled length of the cell at `col` in a cell sequence.
pub open spec fn cell_len_at(cells: Seq<Node>, col: int) -> nat
    decreases cells, 4int,
{
    if 0 <= col < cells.len() {
        cell_plain_len(cells[col])
    } else {
        0
    }
}

/// The width of column `col`: the greatest unstyled cell length in that
/// column over all rows.
pub open spec fn col_width(rows: Seq<Node>, col: int) -> nat
    decreases rows, 6int,
{
    if rows.len() == 0 {
        0
    } else {
        let rest = col_width(rows.drop_last(), col);
        let last = row_cell_len(rows.last(), col);
        if last > rest {
            last
        } else {
            rest
        }
    }
}

/// No cell is wider than its column.
pub proof fn lemma_col_width_bound(rows: Seq<Node>, i: int, col: int)
    requires
        0 <= i < rows.len(),
    ensures
        row_cell_len(rows[i], col) <= col_width(rows, col),
    decreases rows.len(),
{
    if i == rows.len() - 1 {
        assert(rows.last() == rows[i]);
    } else {
        lemma_col_width_bound(rows.drop_last(), i, col);
        assert(rows.drop_last()[i] == rows[i]);
    }
}

/// How much of a cell's padding goes to the left of the content: half
/// (rounded down) when centred, all of it when right-aligned, none
/// otherwise.
pub open spec fn pad_left(align: Alignment, padding: nat) -> nat {
    match align {
        Alignment::Center => padding / 2,
        Alignment::Right => padding,
        Alignment::Left => 0,
        Alignment::Unspecified => 0,
    }
}

/// The rest of the padding goes to the right of the content.
pub open spec fn pad_right(align: Alignment, padding: nat) -> nat {
    (padding - pad_left(align, padding)) as nat
}

/// One table cell at its column width: left padding, the content (wrapped
/// in bold and underline for a styled header row), one separator space,
/// right padding.
pub open spec fn sp_cell(
    cell: Node,
    header: bool,
    width: nat,
    align: Alignment,
    plain: bool,
) -> Seq<char>
    decreases cell, 7int,
{
    match cell {
        Node::TableCell { children } => {
            let plain_text = sp_inlines(children@, true);
            let text = sp_inlines(children@, plain);
            let padding = if width >= plain_text.len() {
                (width - plain_text.len()) as nat
            } else {
                0
            };
            let content = if header && !plain {
                seq_bold_underline() + text + seq_reset()
            } else {
                text
            };
            spec_repeat(seq![' '], pad_left(align, padding)) + content + seq![' '] + spec_repeat(
                seq![' '],
                pad_right(align, padding),
            )
        },
        _ => Seq::empty(),
    }
}

/// The cells of one row, each at its column's width and alignment; a
/// non-cell child renders as the placeholder.
pub open spec fn sp_row_cells(
    cells: Seq<Node>,
    header: bool,
    all_rows: Seq<Node>,
    aligns: Seq<Alignment>,
    plain: bool,
) -> Seq<char>
    decreases cells, 8int,
{
    if cells.len() == 0 {
        Seq::empty()
    } else {
        let col = cells.len() - 1;
        let piece = if cells.last() is TableCell {
            sp_cell(cells.last(), header, col_width(all_rows, col), aligns[col], plain)
        } else {
            placeholder()
        };
        sp_row_cells(cells.drop_last(), header, all_rows, aligns, plain) + piece
    }
}

/// One child of a table: a row renders its cells and ends with a newline,
/// anything else the placeholder.
pub open spec fn sp_row_node(
    row: Node,
    all_rows: Seq<Node>,
    aligns: Seq<Alignment>,
    plain: bool,
) -> Seq<char>
    decreases row, 9int,
{
    match row {
        Node::TableRow { header, children } => sp_row_cells(
            children@,
            header,
            all_rows,
            aligns,
            plain,
        ) + nl(),
        _ => placeholder(),
    }
}

/// The rows of a table, in order.
pub open spec fn sp_rows(
    rs: Seq<Node>,
    all_rows: Seq<Node>,
    aligns: Seq<Alignment>,
    plain: bool,
) -> Seq<char>
    decreases rs, 10int,
{
    if rs.len() == 0 {
        Seq::empty()
    } else {
        sp_rows(rs.drop_last(), all_rows, aligns, plain) + sp_row_node(
            rs.last(),
            all_rows,
            aligns,
            plain,
        )
    }
}

/// A table: its rows, followed by one blank line.  A table adds no blank
/// line before itself: the separation from what precedes it is the
/// preceding block's own trailing blank line.
pub open spec fn sp_table(n: Node, plain: bool) -> Seq<char>
    decreases n, 11int,
{
    match n {
        Node::Table { alignments, children, .. } => sp_rows(
            children@,
            children@,
            alignments@,
            plain,
        ) + nl(),
        _ => Seq::empty(),
    }
}

/// One line of a code block: a lead glyph before the text in plain mode;
/// in styled mode the text on the code highlight, erased to the end of the
/// line.
pub open spec fn sp_code_line(line: Seq<char>, plain: bool) -> Seq<char> {
    if plain {
        code_lead() + line
    } else {
        seq_code() + line + seq_erase_eol() + seq_reset()
    }
}

/// The lines of a code block joined with newlines (no trailing newline).
pub open spec fn sp_code_lines(lines: Seq<Seq<char>>, plain: bool) -> Seq<char>
    decreases lines.len(),
{
    if lines.len() == 0 {
        Seq::empty()
    } else if lines.len() == 1 {
        sp_code_line(lines.last(), plain)
    } else {
        sp_code_lines(lines.drop_last(), plain) + nl() + sp_code_line(lines.last(), plain)
    }
}

/// A code block: an optional one-line `[info]` banner (inverse video when
/// styled), the code lines, and one blank line after the block.
pub open spec fn sp_code_block(info: Seq<char>, literal: Seq<char>, plain: bool) -> Seq<char> {
    let banner = if info.len() == 0 {
        Seq::<char>::empty()
    } else {
        sp_wrap(seq_reverse(), seq!['['] + info + seq![']'] + nl(), plain)
    };
    banner + sp_code_lines(spec_lines(literal), plain) + nl() + nl()
}

/// One top-level block.
pub open spec fn sp_block(n: Node, plain: bool) -> Seq<char> {
    match n {
        Node::Paragraph { children } => sp_inlines(children@, plain) + nl() + nl(),
        Node::Heading { level, children } => sp_wrap(
            heading_enter(level),
            sp_inlines(children@, plain),
            plain,
        ) + nl() + nl(),
        Node::List { .. } => sp_list(n, 0, plain),
        Node::BlockQuote { .. } => sp_quote(n, 0, plain),
        Node::CodeBlock { info, literal } => sp_code_block(info@, literal@, plain),
        Node::ThematicBreak => thematic_break_text(),
        Node::HtmlBlock { literal } => literal@ + nl(),
        Node::Table { .. } => sp_table(n, plain),
        _ => placeholder(),
    }
}

/// A sequence of top-level blocks, concatenated in document order.
pub open spec fn sp_blocks(ns: Seq<Node>, plain: bool) -> Seq<char>
    decreases ns.len(),
{
    if ns.len() == 0 {
        Seq::empty()
    } else {
        sp_blocks(ns.drop_last(), plain) + sp_block(ns.last(), plain)
    }
}

/// A whole document: its children rendered as blocks.
pub open spec fn sp_document(n: Node, plain: bool) -> Seq<char> {
    sp_blocks(children_of(n), plain)
}

/// The diagnostics sink only grows: what was in it stays, in place.
pub open spec fn extends(pre: Seq<String>, post: Seq<String>) -> bool {
    pre.len() <= post.len() && forall|i: int| 0 <= i < pre.len() ==> post[i] == pre[i]
}

/// Leaves a note about an unrecognized node in the diagnostics sink.
fn push_diag(diags: &mut Vec<String>, msg: &str)
    ensures
        extends(old(diags)@, final(diags)@),
        final(diags)@.len() == old(diags)@.len() + 1,
{
    diags.push(String::from_str(msg));
}

/// The placeholder as an owned string.
fn placeholder_string() -> (r: String)
    ensures
        r@ == placeholder(),
{
    String::from_str("\u{1f494} Unexpected node")
}

/// Renders one node standing in an inline position.
pub fn render_inline(n: &Node, plain: bool, diags: &mut Vec<String>) -> (r: String)
    ensures
        r@ == sp_inline(*n, plain),
        extends(old(diags)@, final(diags)@),
        unexpected_inline(*n) ==> final(diags)@.len() > old(diags)@.len(),
    decreases *n, 1int,
{
    match n {
        Node::Emph { children } => {
            let text = render_inlines(children, plain, diags);
            if plain {
                text
            } else {
                crate::style::paint_italic(text)
            }
        },
        Node::Strong { children } => {
            let text = render_inlines(children, plain, diags);
            if plain {
                text
            } else {
                crate::style::paint_bold(text)
            }
        },
        Node::Underline { children } => {
            let text = render_inlines(children, plain, diags);
            if plain {
                text
            } else {
                crate::style::paint_underline(text)
            }
        },
        Node::Strikethrough { children } => {
            let text = render_inlines(children, plain, diags);
            if plain {
                text
            } else {
                crate::style::paint_strikethrough(text)
            }
        },
        Node::Code { literal } => {
            if plain {
                literal.clone()
            } else {
                crate::style::paint_code(literal.clone())
            }
        },
        Node::Link { url, title, children } => {
            let text = render_inlines(children, plain, diags);
            render_link_text(text, url, title, plain)
        },
        Node::Image { url, title, children } => {
            let text = render_inlines(children, plain, diags);
            render_link_text(text, url, title, plain)
        },
        Node::Paragraph { children } => {
            let mut text = render_inlines(children, plain, diags);
            proof {
                reveal_strlit("\n\n");
                assert("\n\n"@ =~= nl() + nl());
            }
            text.append("\n\n");
            proof {
                assert(text@ =~= sp_inline(*n, plain));
            }
            text
        },
        Node::SoftBreak => {
            proof {
                reveal_strlit(" ");
                assert(" "@ =~= seq![' ']);
            }
            String::from_str(" ")
        },
        Node::LineBreak => {
            proof {
                reveal_strlit("\n");
                assert("\n"@ =~= seq!['\n']);
            }
            String::from_str("\n")
        },
        Node::HtmlInline { literal } => literal.clone(),
        Node::Text { literal } => literal.clone(),
        _ => {
            push_diag(diags, "unexpected node in an inline position");
            placeholder_string()
        },
    }
}

/// Appends the `"title"` and `[url]` parts behind a link's rendered text.
fn render_link_text(text: String, url: &String, title: &String, plain: bool) -> (r: String)
    ensures
        r@ == sp_link_text(text@, url@, title@, plain),
{
    let ghost text0 = text@;
    let mut out = if plain {
        text
    } else {
        crate::style::paint_underline(text)
    };
    proof {
        reveal_strlit(" \"");
        reveal_strlit("\"");
        reveal_strlit(" [");
        reveal_strlit("]");
        assert(" \""@ =~= seq![' ', '"']);
        assert("\""@ =~= seq!['"']);
        assert(" ["@ =~= seq![' ', '[']);
        assert("]"@ =~= seq![']']);
    }
    if !title.as_str().is_empty() {
        out.append(" \"");
        out.append(title.as_str());
        out.append("\"");
    }
    out.append(" [");
    out.append(url.as_str());
    out.append("]");
    proof {
        assert(out@ =~= sp_link_text(text0, url@, title@, plain));
    }
    out
}

/// Renders a sequence of nodes standing in inline positions.
#[verifier::loop_isolation(false)]
pub fn render_inlines(ns: &Vec<Node>, plain: bool, diags: &mut Vec<String>) -> (r: String)
    ensures
        r@ == sp_inlines(ns@, plain),
        extends(old(diags)@, final(diags)@),
    decreases ns@, 0int,
{
    let mut out = String::new();
    proof {
        assert(ns@.take(0) =~= Seq::<Node>::empty());
    }
    for i in 0..ns.len()
        invariant
            out@ == sp_inlines(ns@.take(i as int), plain),
            extends(old(diags)@, diags@),
    {
        let piece = render_inline(&ns[i], plain, diags);
        out.append(piece.as_str());
        proof {
            assert(ns@.take(i + 1).drop_last() =~= ns@.take(i as int));
            assert(ns@.take(i + 1).last() == ns@[i as int]);
        }
    }
    proof {
        assert(ns@.take(ns@.len() as int) =~= ns@);
    }
    out
}

/// Renders a node's children in inline positions, whatever the node is.
pub fn render_children(n: &Node, plain: bool, diags: &mut Vec<String>) -> (r: String)
    ensures
        r@ == sp_children(*n, plain),
        extends(old(diags)@, final(diags)@),
    decreases *n, 2int,
{
    match n {
        Node::Document { children } => render_inlines(children, plain, diags),
        Node::Paragraph { children } => render_inlines(children, plain, diags),
        Node::Heading { children, .. } => render_inlines(children, plain, diags),
        Node::List { children, .. } => render_inlines(children, plain, diags),
        Node::Item { children, .. } => render_inlines(children, plain, diags),
        Node::BlockQuote { children } => render_inlines(children, plain, diags),
        Node::Table { children, .. } => render_inlines(children, plain, diags),
        Node::TableRow { children, .. } => render_inlines(children, plain, diags),
        Node::TableCell { children } => render_inlines(children, plain, diags),
        Node::Emph { children } => render_inlines(children, plain, diags),
        Node::Strong { children } => render_inlines(children, plain, diags),
        Node::Underline { children } => render_inlines(children, plain, diags),
        Node::Strikethrough { children } => render_inlines(children, plain, diags),
        Node::Link { children, .. } => render_inlines(children, plain, diags),
        Node::Image { children, .. } => render_inlines(children, plain, diags),
        _ => String::new(),
    }
}

/// Prefixes every line of a quoted child's text with the lead glyphs of
/// nesting level `level`.
#[verifier::loop_isolation(false)]
fn quote_prefix_lines(text: String, level: usize) -> (r: String)
    requires
        level < usize::MAX,
    ensures
        r@ == sp_quote_piece(text@, level as nat),
{
    proof {
        reveal_strlit("\u{2502} ");
        assert("\u{2502} "@ =~= quote_lead());
        reveal_strlit("\n");
        assert("\n"@ =~= nl());
    }
    let prefix = crate::text::repeat_str("\u{2502} ", level + 1);
    let lines: Vec<String> = if text.as_str().is_empty() {
        let mut one: Vec<String> = Vec::new();
        one.push(String::new());
        one
    } else {
        crate::text::split_lines(text.as_str())
    };
    proof {
        assert(lines.deep_view() =~~= quote_lines(text@));
    }
    let mut out = String::new();
    proof {
        assert(lines.deep_view().take(0) =~= Seq::<Seq<char>>::empty());
    }
    for j in 0..lines.len()
        invariant
            out@ == sp_prefixed(lines.deep_view().take(j as int), prefix@),
    {
        out.append(prefix.as_str());
        out.append(lines[j].as_str());
        out.append("\n");
        proof {
            assert(lines.deep_view().take(j + 1).drop_last() =~= lines.deep_view().take(j as int));
            assert(lines.deep_view().take(j + 1).last() == lines.deep_view()[j as int]);
        }
    }
    proof {
        assert(lines.deep_view().take(lines.deep_view().len() as int) =~= lines.deep_view());
    }
    out
}

/// Renders a block quote at nesting level `level`: each non-quote child's
/// inline text is split into lines and every line prefixed with `level + 1`
/// lead glyphs; a nested quote recurses one level deeper.  The top-level
/// call appends one blank line.
#[verifier::loop_isolation(false)]
pub fn render_blockquote(n: &Node, level: usize, plain: bool, diags: &mut Vec<String>) -> (r:
    String)
    requires
        *n is BlockQuote,
        level + node_height(*n) <= usize::MAX,
    ensures
        r@ == sp_quote(*n, level as nat, plain),
        extends(old(diags)@, final(diags)@),
    decreases *n, 4int,
{
    match n {
        Node::BlockQuote { children } => {
            let mut out = String::new();
            proof {
                assert(children@.take(0) =~= Seq::<Node>::empty());
            }
            for i in 0..children.len()
                invariant
                    out@ == sp_quote_children(children@.take(i as int), level as nat, plain),
                    extends(old(diags)@, diags@),
            {
                proof {
                    assert(children_of(*n) =~= children@);
                    crate::tree::lemma_child_height(*n, i as int);
                }
                let piece: String = match &children[i] {
                    Node::BlockQuote { .. } => render_blockquote(
                        &children[i],
                        level + 1,
                        plain,
                        diags,
                    ),
                    _ => {
                        let text = render_children(&children[i], plain, diags);
                        quote_prefix_lines(text, level)
                    },
                };
                out.append(piece.as_str());
                proof {
                    assert(children@.take(i + 1).drop_last() =~= children@.take(i as int));
                    assert(children@.take(i + 1).last() == children@[i as int]);
                }
            }
            proof {
                assert(children@.take(children@.len() as int) =~= children@);
            }
            if level == 0 {
                proof {
                    reveal_strlit("\n");
                    assert("\n"@ =~= nl());
                }
                out.append("\n");
            }
            out
        },
        _ => {
            proof {
                assert(false);
            }
            String::new()
        },
    }
}

/// The bullet glyph of a nesting level, one character wide.
fn bullet_str(level: usize) -> (r: &'static str)
    ensures
        r@ == bullet_glyph(level as nat),
{
    proof {
        reveal_strlit("\u{2022}");
        reveal_strlit("\u{25e6}");
        reveal_strlit("\u{25aa}");
        assert("\u{2022}"@ =~= seq!['\u{2022}']);
        assert("\u{25e6}"@ =~= seq!['\u{25e6}']);
        assert("\u{25aa}"@ =~= seq!['\u{25aa}']);
    }
    match level {
        0 => "\u{2022}",
        1 => "\u{25e6}",
        _ => "\u{25aa}",
    }
}

/// The marker of one list item and the spaces continuation lines align
/// with.
fn marker_strings(list: &ListData, idx: usize, level: usize) -> (r: (String, &'static str))
    ensures
        r.0@ == sp_marker(*list, idx as nat, level as nat),
        r.1@ == spec_repeat(seq![' '], sp_marker_width(*list)),
{
    proof {
        reveal_strlit(" ");
        reveal_strlit("  ");
        reveal_strlit(".");
        reveal_strlit(")");
        assert(spec_repeat(seq![' '], 0) =~= Seq::<char>::empty());
        assert(spec_repeat(seq![' '], 1) =~= spec_repeat(seq![' '], 0) + seq![' ']);
        assert(spec_repeat(seq![' '], 2) =~= spec_repeat(seq![' '], 1) + seq![' ']);
        assert(" "@ =~= spec_repeat(seq![' '], 1));
        assert("  "@ =~= spec_repeat(seq![' '], 2));
        assert("."@ =~= seq!['.']);
        assert(")"@ =~= seq![')']);
    }
    if list.bullet {
        (String::from_str(bullet_str(level)), " ")
    } else {
        let number = list.start.saturating_add(idx as u64);
        proof {
            assert(idx as u64 as nat == idx as nat);
            assert(number as nat == marker_number(list.start, idx as nat));
        }
        let mut marker = crate::text::decimal_string(number);
        match list.delim {
            Delim::Period => marker.append("."),
            Delim::Paren => marker.append(")"),
        }
        (marker, "  ")
    }
}

/// Renders one child of a list: an `Item` renders each of its children, a
/// nested list one level deeper, a paragraph as marker-prefixed lines.
#[verifier::loop_isolation(false)]
pub fn render_item(c: &Node, idx: usize, level: usize, plain: bool, diags: &mut Vec<String>) -> (r:
    String)
    requires
        level + node_height(*c) <= usize::MAX,
    ensures
        r@ == sp_item(*c, idx as nat, level as nat, plain),
        extends(old(diags)@, final(diags)@),
        !(*c is Item) ==> final(diags)@.len() > old(diags)@.len(),
        (*c is Item && exists|j: int|
            0 <= j < children_of(*c).len() && unexpected_item_child(
                #[trigger] children_of(*c)[j],
            )) ==> final(diags)@.len() > old(diags)@.len(),
    decreases *c, 8int,
{
    match c {
        Node::Item { list, children } => {
            let mut out = String::new();
            proof {
                assert(children@.take(0) =~= Seq::<Node>::empty());
                reveal_strlit("\n");
                assert("\n"@ =~= nl());
                reveal_strlit(" ");
                assert(" "@ =~= seq![' ']);
                reveal_strlit("    ");
                assert("    "@ =~= indent_unit());
            }
            let indent = crate::text::repeat_str("    ", level);
            for j in 0..children.len()
                invariant
                    out@ == sp_item_children(
                        children@.take(j as int),
                        *list,
                        idx as nat,
                        level as nat,
                        plain,
                    ),
                    extends(old(diags)@, diags@),
                    (exists|k: int|
                        0 <= k < j && unexpected_item_child(#[trigger] children@[k]))
                        ==> diags@.len() > old(diags)@.len(),
            {
                proof {
                    assert(children_of(*c) =~= children@);
                    crate::tree::lemma_child_height(*c, j as int);
                }
                let piece: String = match &children[j] {
                    Node::List { .. } => render_list(&children[j], level + 1, plain, diags),
                    Node::Paragraph { .. } => {
                        let text = render_children(&children[j], plain, diags);
                        let lines = crate::text::split_lines(text.as_str());
                        let (marker, marker_space) = marker_strings(list, idx, level);
                        let mut piece = String::new();
                        proof {
                            assert(lines.deep_view().take(0) =~= Seq::<Seq<char>>::empty());
                        }
                        for k in 0..lines.len()
                            invariant
                                piece@ == sp_marker_lines(
                                    lines.deep_view().take(k as int),
                                    marker@,
                                    sp_marker_width(*list),
                                    level as nat,
                                ),
                        {
                            piece.append(indent.as_str());
                            if k == 0 {
                                piece.append(marker.as_str());
                            } else {
                                piece.append(marker_space);
                            }
                            piece.append(" ");
                            piece.append(lines[k].as_str());
                            piece.append("\n");
                            proof {
                                assert(lines.deep_view().take(k + 1).drop_last()
                                    =~= lines.deep_view().take(k as int));
                                assert(lines.deep_view().take(k + 1).last() == lines.deep_view()[k as int]);
                            }
                        }
                        proof {
                            assert(lines.deep_view().take(lines.deep_view().len() as int)
                                =~= lines.deep_view());
                        }
                        piece
                    },
                    _ => {
                        push_diag(diags, "unexpected node in a list item");
                        placeholder_string()
                    },
                };
                proof {
                    assert(piece@ == sp_item_child(
                        children@[j as int],
                        *list,
                        idx as nat,
                        level as nat,
                        plain,
                    ));
                }
                out.append(piece.as_str());
                proof {
                    assert(children@.take(j + 1).drop_last() =~= children@.take(j as int));
                    assert(children@.take(j + 1).last() == children@[j as int]);
                }
            }
            proof {
                assert(children@.take(children@.len() as int) =~= children@);
            }
            out
        },
        _ => {
            push_diag(diags, "unexpected node in a list");
            placeholder_string()
        },
    }
}

/// Renders a list at nesting level `level`: each item knows its position
/// for ordered markers.  The top-level call appends one blank line.
#[verifier::loop_isolation(false)]
pub fn render_list(n: &Node, level: usize, plain: bool, diags: &mut Vec<String>) -> (r: String)
    requires
        *n is List,
        level + node_height(*n) <= usize::MAX,
    ensures
        r@ == sp_list(*n, level as nat, plain),
        extends(old(diags)@, final(diags)@),
    decreases *n, 5int,
{
    match n {
        Node::List { children, .. } => {
            let mut out = String::new();
            proof {
                assert(children@.take(0) =~= Seq::<Node>::empty());
            }
            for i in 0..children.len()
                invariant
                    out@ == sp_items(children@.take(i as int), level as nat, plain),
                    extends(old(diags)@, diags@),
            {
                proof {
                    assert(children_of(*n) =~= children@);
                    crate::tree::lemma_child_height(*n, i as int);
                }
                let piece = render_item(&children[i], i, level, plain, diags);
                out.append(piece.as_str());
                proof {
                    assert(children@.take(i + 1).drop_last() =~= children@.take(i as int));
                    assert(children@.take(i + 1).last() == children@[i as int]);
                }
            }
            proof {
                assert(children@.take(children@.len() as int) =~= children@);
            }
            if level == 0 {
                proof {
                    reveal_strlit("\n");
                    assert("\n"@ =~= nl());
                }
                out.append("\n");
            }
            out
        },
        _ => {
            proof {
                assert(false);
            }
            String::new()
        },
    }
}

/// The unstyled length of the cell at `col` of one row, 0 where there is no
/// cell; what the width pass measures.
#[verifier::loop_isolation(false)]
fn measure_row_cell(row: &Node, col: usize, diags: &mut Vec<String>) -> (len: usize)
    ensures
        len == row_cell_len(*row, col as int),
        extends(old(diags)@, final(diags)@),
{
    match row {
        Node::TableRow { children, .. } => {
            if col < children.len() {
                match &children[col] {
                    Node::TableCell { children: cell_children } => {
                        let text = render_inlines(cell_children, true, diags);
                        text.as_str().unicode_len()
                    },
                    _ => 0,
                }
            } else {
                0
            }
        },
        _ => 0,
    }
}

/// Computes each column's width: the greatest unstyled cell length in that
/// column over all rows.
#[verifier::loop_isolation(false)]
pub fn column_widths(rows: &Vec<Node>, num_columns: usize, diags: &mut Vec<String>) -> (w: Vec<
    usize,
>)
    ensures
        w@.len() == num_columns,
        forall|c: int| 0 <= c < num_columns ==> w@[c] == col_width(rows@, c),
        extends(old(diags)@, final(diags)@),
{
    let mut w: Vec<usize> = Vec::new();
    for c in 0..num_columns
        invariant
            w@.len() == c,
            forall|k: int| 0 <= k < c ==> w@[k] == col_width(rows@, k),
            extends(old(diags)@, diags@),
    {
        let mut widest: usize = 0;
        proof {
            assert(rows@.take(0) =~= Seq::<Node>::empty());
        }
        for i in 0..rows.len()
            invariant
                widest == col_width(rows@.take(i as int), c as int),
                extends(old(diags)@, diags@),
        {
            let len = measure_row_cell(&rows[i], c, diags);
            if len > widest {
                widest = len;
            }
            proof {
                assert(rows@.take(i + 1).drop_last() =~= rows@.take(i as int));
                assert(rows@.take(i + 1).last() == rows@[i as int]);
            }
        }
        proof {
            assert(rows@.take(rows@.len() as int) =~= rows@);
        }
        w.push(widest);
    }
    w
}

/// Renders one table cell at its column's width: padding split by the
/// column's alignment around the content and one separator space; a styled
/// header cell is wrapped in bold and underline.
#[verifier::loop_isolation(false)]
pub fn render_cell(
    cell: &Node,
    header: bool,
    width: usize,
    align: Alignment,
    plain: bool,
    diags: &mut Vec<String>,
) -> (r: String)
    requires
        *cell is TableCell,
        cell_plain_len(*cell) <= width,
    ensures
        r@ == sp_cell(*cell, header, width as nat, align, plain),
        extends(old(diags)@, final(diags)@),
{
    match cell {
        Node::TableCell { children } => {
            proof {
                reveal_strlit(" ");
                assert(" "@ =~= seq![' ']);
            }
            let plain_text = render_inlines(children, true, diags);
            let plain_len = plain_text.as_str().unicode_len();
            let padding = width - plain_len;
            let left: usize = match align {
                Alignment::Center => padding / 2,
                Alignment::Right => padding,
                _ => 0,
            };
            let right: usize = padding - left;
            proof {
                assert(left == pad_left(align, padding as nat));
                assert(right == pad_right(align, padding as nat));
            }
            let text = if plain {
                plain_text
            } else {
                render_inlines(children, plain, diags)
            };
            let content = if header && !plain {
                crate::style::paint_bold_underline(text)
            } else {
                text
            };
            let mut out = crate::text::repeat_str(" ", left);
            out.append(content.as_str());
            out.append(" ");
            let right_pad = crate::text::repeat_str(" ", right);
            out.append(right_pad.as_str());
            proof {
                assert(out@ =~= sp_cell(*cell, header, width as nat, align, plain));
            }
            out
        },
        _ => {
            proof {
                assert(false);
            }
            String::new()
        },
    }
}

/// Renders one child of a table: a row's cells, each at its column's width
/// and alignment, closed by a newline; a non-row child renders as the
/// placeholder.
#[verifier::loop_isolation(false)]
pub fn render_row(
    row: &Node,
    all_rows: &Vec<Node>,
    widths: &Vec<usize>,
    aligns: &Vec<Alignment>,
    plain: bool,
    diags: &mut Vec<String>,
) -> (r: String)
    requires
        (*row is TableRow ==> children_of(*row).len() <= widths@.len()),
        widths@.len() <= aligns@.len(),
        forall|c: int| 0 <= c < widths@.len() ==> widths@[c] == col_width(all_rows@, c),
        forall|c: int|
            *row is TableRow && 0 <= c < children_of(*row).len() ==> cell_len_at(
                children_of(*row),
                c,
            ) <= col_width(all_rows@, c),
    ensures
        r@ == sp_row_node(*row, all_rows@, aligns@, plain),
        extends(old(diags)@, final(diags)@),
        !(*row is TableRow) ==> final(diags)@.len() > old(diags)@.len(),
        (*row is TableRow && exists|j: int|
            0 <= j < children_of(*row).len() && !((#[trigger] children_of(*row)[j]) is TableCell))
            ==> final(diags)@.len() > old(diags)@.len(),
{
    match row {
        Node::TableRow { header, children } => {
            let mut out = String::new();
            proof {
                assert(children@.take(0) =~= Seq::<Node>::empty());
            }
            for j in 0..children.len()
                invariant
                    out@ == sp_row_cells(children@.take(j as int), *header, all_rows@, aligns@, plain),
                    extends(old(diags)@, diags@),
                    (exists|k: int| 0 <= k < j && !((#[trigger] children@[k]) is TableCell))
                        ==> diags@.len() > old(diags)@.len(),
            {
                let piece: String = match &children[j] {
                    Node::TableCell { .. } => {
                        proof {
                            assert(cell_len_at(children@, j as int) == cell_plain_len(
                                children@[j as int],
                            ));
                        }
                        render_cell(&children[j], *header, widths[j], aligns[j], plain, diags)
                    },
                    _ => {
                        push_diag(diags, "unexpected node in a table row");
                        placeholder_string()
                    },
                };
                out.append(piece.as_str());
                proof {
                    assert(children@.take(j + 1).drop_last() =~= children@.take(j as int));
                    assert(children@.take(j + 1).last() == children@[j as int]);
                }
            }
            proof {
                assert(children@.take(children@.len() as int) =~= children@);
                reveal_strlit("\n");
                assert("\n"@ =~= nl());
            }
            out.append("\n");
            out
        },
        _ => {
            push_diag(diags, "unexpected node in a table");
            placeholder_string()
        },
    }
}

/// Renders a table: computes every column's width from the unstyled cell
/// contents, then renders each row at those widths, and closes the table
/// with one blank line.
#[verifier::loop_isolation(false)]
pub fn render_table(n: &Node, plain: bool, diags: &mut Vec<String>) -> (r: String)
    requires
        *n is Table,
        wf_node(*n),
    ensures
        r@ == sp_table(*n, plain),
        extends(old(diags)@, final(diags)@),
        (exists|j: int|
            0 <= j < children_of(*n).len() && !((#[trigger] children_of(*n)[j]) is TableRow))
            ==> final(diags)@.len() > old(diags)@.len(),
{
    match n {
        Node::Table { num_columns, alignments, children } => {
            let widths = column_widths(children, *num_columns, diags);
            let mut out = String::new();
            proof {
                assert(children@.take(0) =~= Seq::<Node>::empty());
            }
            for i in 0..children.len()
                invariant
                    out@ == sp_rows(children@.take(i as int), children@, alignments@, plain),
                    extends(old(diags)@, diags@),
                    (exists|k: int| 0 <= k < i && !((#[trigger] children@[k]) is TableRow))
                        ==> diags@.len() > old(diags)@.len(),
            {
                proof {
                    if children@[i as int] is TableRow {
                        assert(children_of(children@[i as int]).len() == *num_columns);
                        assert forall|c: int|
                            0 <= c < children_of(children@[i as int]).len() implies cell_len_at(
                            children_of(children@[i as int]),
                            c,
                        ) <= col_width(children@, c) by {
                            lemma_col_width_bound(children@, i as int, c);
                            assert(row_cell_len(children@[i as int], c) == cell_len_at(
                                children_of(children@[i as int]),
                                c,
                            ));
                        }
                    }
                }
                let piece = render_row(&children[i], children, &widths, alignments, plain, diags);
                out.append(piece.as_str());
                proof {
                    assert(children@.take(i + 1).drop_last() =~= children@.take(i as int));
                    assert(children@.take(i + 1).last() == children@[i as int]);
                }
            }
            proof {
                assert(children@.take(children@.len() as int) =~= children@);
                reveal_strlit("\n");
                assert("\n"@ =~= nl());
            }
            out.append("\n");
            out
        },
        _ => {
            proof {
                assert(false);
            }
            String::new()
        },
    }
}

/// Renders a code block: an optional `[info]` banner, then every line of
/// the literal on its own output line, and one blank line after the block.
#[verifier::loop_isolation(false)]
#[verifier::rlimit(50)]
pub fn render_code_block(info: &String, literal: &String, plain: bool) -> (r: String)
    ensures
        r@ == sp_code_block(info@, literal@, plain),
{
    proof {
        reveal_strlit("[");
        reveal_strlit("]\n");
        reveal_strlit("\n");
        reveal_strlit("\n\n");
        reveal_strlit("\u{2551} ");
        assert("["@ =~= seq!['[']);
        assert("]\n"@ =~= seq![']'] + nl());
        assert("\n"@ =~= nl());
        assert("\n\n"@ =~= nl() + nl());
        assert("\u{2551} "@ =~= code_lead());
    }
    let mut out = String::new();
    if !info.as_str().is_empty() {
        let mut banner = String::from_str("[");
        banner.append(info.as_str());
        banner.append("]\n");
        proof {
            assert(banner@ =~= seq!['['] + info@ + seq![']'] + nl());
        }
        if plain {
            out.append(banner.as_str());
        } else {
            let painted = crate::style::paint_reverse(banner);
            out.append(painted.as_str());
        }
    }
    let ghost banner_text = if info@.len() == 0 {
        Seq::<char>::empty()
    } else {
        sp_wrap(seq_reverse(), seq!['['] + info@ + seq![']'] + nl(), plain)
    };
    proof {
        assert(out@ =~= banner_text);
    }
    let lines = crate::text::split_lines(literal.as_str());
    let erase = crate::style::erase_end_line();
    proof {
        assert(lines.deep_view().take(0) =~= Seq::<Seq<char>>::empty());
    }
    for k in 0..lines.len()
        invariant
            out@ == banner_text + sp_code_lines(lines.deep_view().take(k as int), plain),
    {
        if k > 0 {
            out.append("\n");
        }
        if plain {
            out.append("\u{2551} ");
            out.append(lines[k].as_str());
        } else {
            let mut line = lines[k].clone();
            line.append(erase.as_str());
            let painted = crate::style::paint_code(line);
            out.append(painted.as_str());
        }
        proof {
            assert(lines.deep_view().take(k + 1).drop_last() =~= lines.deep_view().take(k as int));
            assert(lines.deep_view().take(k + 1).last() == lines.deep_view()[k as int]);
            assert(out@ =~= banner_text + sp_code_lines(lines.deep_view().take(k + 1), plain));
        }
    }
    proof {
        assert(lines.deep_view().take(lines.deep_view().len() as int) =~= lines.deep_view());
    }
    out.append("\n\n");
    proof {
        assert(out@ =~= sp_code_block(info@, literal@, plain));
    }
    out
}

/// Renders one top-level block.
pub fn render_block(n: &Node, plain: bool, diags: &mut Vec<String>) -> (r: String)
    requires
        wf_node(*n),
        node_height(*n) <= usize::MAX,
    ensures
        r@ == sp_block(*n, plain),
        extends(old(diags)@, final(diags)@),
        unexpected_block(*n) ==> final(diags)@.len() > old(diags)@.len(),
{
    match n {
        Node::Paragraph { children } => {
            let mut text = render_inlines(children, plain, diags);
            proof {
                reveal_strlit("\n\n");
                assert("\n\n"@ =~= nl() + nl());
            }
            text.append("\n\n");
            proof {
                assert(text@ =~= sp_block(*n, plain));
            }
            text
        },
        Node::Heading { level, children } => {
            let text = render_inlines(children, plain, diags);
            let mut styled = if plain {
                text
            } else {
                crate::style::paint_heading(*level, text)
            };
            proof {
                reveal_strlit("\n\n");
                assert("\n\n"@ =~= nl() + nl());
            }
            styled.append("\n\n");
            proof {
                assert(styled@ =~= sp_block(*n, plain));
            }
            styled
        },
        Node::List { .. } => render_list(n, 0, plain, diags),
        Node::BlockQuote { .. } => render_blockquote(n, 0, plain, diags),
        Node::CodeBlock { info, literal } => render_code_block(info, literal, plain),
        Node::ThematicBreak => {
            proof {
                reveal_strlit("\u{00b6}\n");
                assert("\u{00b6}\n"@ =~= thematic_break_text());
            }
            String::from_str("\u{00b6}\n")
        },
        Node::HtmlBlock { literal } => {
            let mut text = literal.clone();
            proof {
                reveal_strlit("\n");
                assert("\n"@ =~= nl());
            }
            text.append("\n");
            text
        },
        Node::Table { .. } => render_table(n, plain, diags),
        _ => {
            push_diag(diags, "unexpected node at the top level of the document");
            placeholder_string()
        },
    }
}

/// Renders a sequence of top-level blocks in document order.
#[verifier::loop_isolation(false)]
pub fn render_blocks(ns: &Vec<Node>, plain: bool, diags: &mut Vec<String>) -> (r: String)
    requires
        wf_nodes(ns@),
        seq_height(ns@) < usize::MAX,
    ensures
        r@ == sp_blocks(ns@, plain),
        extends(old(diags)@, final(diags)@),
        (exists|j: int| 0 <= j < ns@.len() && unexpected_block(#[trigger] ns@[j]))
            ==> final(diags)@.len() > old(diags)@.len(),
{
    let mut out = String::new();
    proof {
        assert(ns@.take(0) =~= Seq::<Node>::empty());
    }
    for i in 0..ns.len()
        invariant
            out@ == sp_blocks(ns@.take(i as int), plain),
            extends(old(diags)@, diags@),
            (exists|k: int| 0 <= k < i && unexpected_block(#[trigger] ns@[k])) ==> diags@.len()
                > old(diags)@.len(),
    {
        proof {
            crate::tree::lemma_wf_member(ns@, i as int);
            crate::tree::lemma_seq_height_member(ns@, i as int);
        }
        let piece = render_block(&ns[i], plain, diags);
        out.append(piece.as_str());
        proof {
            assert(ns@.take(i + 1).drop_last() =~= ns@.take(i as int));
            assert(ns@.take(i + 1).last() == ns@[i as int]);
        }
    }
    proof {
        assert(ns@.take(ns@.len() as int) =~= ns@);
    }
    out
}

/// Renders a whole document tree: its children as top-level blocks, in
/// order.  Returns the rendered text together with the diagnostics noted
/// along the way for nodes that stood in unexpected positions.
pub fn render_document(root: &Node, plain: bool) -> (r: (String, Vec<String>))
    requires
        wf_node(*root),
        node_height(*root) <= usize::MAX,
    ensures
        r.0@ == sp_document(*root, plain),
        (exists|j: int|
            0 <= j < children_of(*root).len() && unexpected_block(
                #[trigger] children_of(*root)[j],
            )) ==> r.1@.len() > 0,
{
    proof {
        crate::tree::lemma_node_height(*root);
        crate::tree::lemma_wf_children(*root);
    }
    let mut diags: Vec<String> = Vec::new();
    let text = match root {
        Node::Document { children } => render_blocks(children, plain, &mut diags),
        Node::Paragraph { children } => render_blocks(children, plain, &mut diags),
        Node::Heading { children, .. } => render_blocks(children, plain, &mut diags),
        Node::List { children, .. } => render_blocks(children, plain, &mut diags),
        Node::Item { children, .. } => render_blocks(children, plain, &mut diags),
        Node::BlockQuote { children } => render_blocks(children, plain, &mut diags),
        Node::Table { children, .. } => render_blocks(children, plain, &mut diags),
        Node::TableRow { children, .. } => render_blocks(children, plain, &mut diags),
        Node::TableCell { children } => render_blocks(children, plain, &mut diags),
        Node::Emph { children } => render_blocks(children, plain, &mut diags),
        Node::Strong { children } => render_blocks(children, plain, &mut diags),
        Node::Underline { children } => render_blocks(children, plain, &mut diags),
        Node::Strikethrough { children } => render_blocks(children, plain, &mut diags),
        Node::Link { children, .. } => render_blocks(children, plain, &mut diags),
        Node::Image { children, .. } => render_blocks(children, plain, &mut diags),
        _ => {
            proof {
                assert(sp_blocks(children_of(*root), plain) =~= Seq::<char>::empty());
            }
            String::new()
        },
    };
    (text, diags)
}

/// Checks a tree and renders it: `None` exactly when the tree is not well
/// formed or too deep for the renderer's level counter, the rendered text
/// and diagnostics otherwise.
pub fn render_checked(root: &Node, plain: bool) -> (r: Option<(String, Vec<String>)>)
    ensures
        (r is Some) == (wf_node(*root) && node_height(*root) <= usize::MAX),
        r matches Some(p) ==> p.0@ == sp_document(*root, plain),
{
    if !crate::tree::tree_well_formed(root) {
        return Option::None;
    }
    match crate::tree::tree_height(root) {
        Some(_) => Some(render_document(root, plain)),
        Option::None => Option::None,
    }
}

} // verus!
