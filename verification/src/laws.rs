//! The renderer's stated laws, each proved against the spec functions that
//! the executable functions' contracts are written over.

use vstd::prelude::*;

use crate::render::{
    bullet_glyph, cell_plain_len, code_lead, col_width, delim_char, indent_unit, marker_number,
    nl, pad_left, pad_right, placeholder, quote_lead, quote_lines, row_cell_len, sp_block,
    sp_blocks, sp_cell,
    sp_children, sp_code_block, sp_code_line, sp_code_lines, sp_document, sp_inline, sp_inlines,
    sp_item, sp_item_child, sp_item_children, sp_items, sp_link_text, sp_list, sp_marker,
    sp_marker_lines, sp_marker_width, sp_prefixed, sp_quote, sp_quote_children, sp_quote_piece,
    sp_row_cells, sp_row_node, sp_rows, sp_table, sp_wrap,
};
use crate::style::esc;
use crate::text::{
    digit_char, lemma_split_nl_len, spec_decimal, spec_lines, spec_repeat, split_nl, strip_cr,
};
use crate::tree::{children_of, Alignment, Delim, ListData, Node};

verus! {

/// Repeating a unit `n` times gives `n` times its length.
pub proof fn lemma_spec_repeat_len(unit: Seq<char>, n: nat)
    ensures
        spec_repeat(unit, n).len() == n * unit.len(),
    decreases n,
{
    if n == 0 {
        assert(0 * unit.len() == 0) by (nonlinear_arith);
    } else {
        lemma_spec_repeat_len(unit, (n - 1) as nat);
        assert((n - 1) * unit.len() + unit.len() == n * unit.len()) by (nonlinear_arith);
    }
}

/// Alignment correctness: a centred cell puts half the padding (rounded
/// down) on the left and the rest on the right; a right-aligned cell puts
/// all of it on the left; a left-aligned or unaligned cell puts all of it
/// on the right.
pub proof fn lemma_alignment(p: nat)
    ensures
        pad_left(Alignment::Center, p) == p / 2,
        pad_right(Alignment::Center, p) == p - p / 2,
        pad_left(Alignment::Right, p) == p,
        pad_right(Alignment::Right, p) == 0,
        pad_left(Alignment::Left, p) == 0,
        pad_right(Alignment::Left, p) == p,
        pad_left(Alignment::Unspecified, p) == 0,
        pad_right(Alignment::Unspecified, p) == p,
{
}

/// List marker determinism: a bullet item's marker depends on the nesting
/// level alone — one glyph at level 0, another at level 1, a third at every
/// deeper level, independent of the item's position — and an ordered item's
/// marker is the list's `start` plus the item's position (saturating only
/// at `u64::MAX`, a machine limit), followed by its delimiter, `.` for
/// `Period` and `)` for `Paren`.
pub proof fn lemma_list_marker(list: ListData, idx: nat, level: nat)
    ensures
        list.bullet && level == 0 ==> sp_marker(list, idx, level) == seq!['\u{2022}'],
        list.bullet && level == 1 ==> sp_marker(list, idx, level) == seq!['\u{25e6}'],
        list.bullet && level >= 2 ==> sp_marker(list, idx, level) == seq!['\u{25aa}'],
        list.bullet ==> sp_marker(list, idx, level) == bullet_glyph(level),
        !list.bullet && list.start + idx <= u64::MAX ==> sp_marker(list, idx, level)
            == spec_decimal((list.start + idx) as nat) + seq![delim_char(list.delim)],
        !list.bullet ==> sp_marker(list, idx, level) == spec_decimal(
            marker_number(list.start, idx),
        ) + seq![delim_char(list.delim)],
        delim_char(Delim::Period) == '.',
        delim_char(Delim::Paren) == ')',
{
}

/// Blockquote nesting: a quoted child at nesting depth `d` has each of its
/// lines prefixed with exactly `d + 1` repetitions of the two-character
/// lead glyph.
pub proof fn lemma_blockquote_nesting(text: Seq<char>, d: nat)
    ensures
        sp_quote_piece(text, d) == sp_prefixed(quote_lines(text), spec_repeat(quote_lead(), d + 1)),
        spec_repeat(quote_lead(), d + 1).len() == 2 * (d + 1),
{
    lemma_spec_repeat_len(quote_lead(), d + 1);
    assert(quote_lead().len() == 2);
    assert((d + 1) * 2 == 2 * (d + 1)) by (nonlinear_arith);
}

/// Width correctness, first half: every cell of a column is at most the
/// column's width, and some cell of a non-empty column attains it.
pub proof fn lemma_col_width_is_max(rows: Seq<Node>, col: int)
    requires
        rows.len() > 0,
    ensures
        forall|i: int| 0 <= i < rows.len() ==> row_cell_len(rows[i], col) <= col_width(rows, col),
        exists|i: int|
            0 <= i < rows.len() && row_cell_len(#[trigger] rows[i], col) == col_width(rows, col),
    decreases rows.len(),
{
    assert forall|i: int| 0 <= i < rows.len() implies row_cell_len(rows[i], col) <= col_width(
        rows,
        col,
    ) by {
        crate::render::lemma_col_width_bound(rows, i, col);
    }
    if rows.len() == 1 {
        assert(rows.drop_last().len() == 0);
        assert(col_width(rows.drop_last(), col) == 0);
        assert(rows.last() == rows[0]);
        assert(row_cell_len(rows[0], col) == col_width(rows, col));
    } else {
        let rest = rows.drop_last();
        if row_cell_len(rows.last(), col) > col_width(rest, col) {
            assert(row_cell_len(rows[rows.len() - 1], col) == col_width(rows, col));
        } else {
            lemma_col_width_is_max(rest, col);
            let i = choose|i: int|
                0 <= i < rest.len() && row_cell_len(#[trigger] rest[i], col) == col_width(
                    rest,
                    col,
                );
            assert(rows[i] == rest[i]);
            assert(row_cell_len(rows[i], col) == col_width(rows, col));
        }
    }
}

/// Width correctness, second half: a plain-rendered cell occupies exactly
/// its column's width plus the one separator space.
pub proof fn lemma_cell_width(cell: Node, header: bool, width: nat, align: Alignment)
    requires
        cell is TableCell,
        cell_plain_len(cell) <= width,
    ensures
        sp_cell(cell, header, width, align, true).len() == width + 1,
{
    let padding = (width - cell_plain_len(cell)) as nat;
    lemma_spec_repeat_len(seq![' '], pad_left(align, padding));
    lemma_spec_repeat_len(seq![' '], pad_right(align, padding));
    assert(pad_left(align, padding) * 1 == pad_left(align, padding)) by (nonlinear_arith);
    assert(pad_right(align, padding) * 1 == pad_right(align, padding)) by (nonlinear_arith);
    assert(pad_left(align, padding) + pad_right(align, padding) == padding);
    match cell {
        Node::TableCell { children } => {
            assert(cell_plain_len(cell) == sp_inlines(children@, true).len());
            assert(sp_cell(cell, header, width, align, true).len() == pad_left(align, padding)
                + cell_plain_len(cell) + 1 + pad_right(align, padding));
        },
        _ => {},
    }
}

/// Idempotent passthrough, raw HTML blocks: the literal appears in the
/// block's output unchanged, in either mode, followed only by a newline.
pub proof fn lemma_html_block_passthrough(literal: String, plain: bool)
    ensures
        sp_block(Node::HtmlBlock { literal }, plain) == literal@ + nl(),
{
}

/// Idempotent passthrough, raw inline HTML: the literal is the whole output
/// of the node, unchanged, in either mode.
pub proof fn lemma_html_inline_passthrough(literal: String, plain: bool)
    ensures
        sp_inline(Node::HtmlInline { literal }, plain) == literal@,
{
}

/// Every block's output stands contiguously, byte for byte, in the rendered
/// document; with the passthrough laws above this places a raw HTML
/// literal unchanged in the final text.
pub proof fn lemma_block_in_document(ns: Seq<Node>, k: int, plain: bool)
    requires
        0 <= k < ns.len(),
    ensures
        exists|off: int|
            0 <= off && off + sp_block(ns[k], plain).len() <= sp_blocks(ns, plain).len()
                && #[trigger] sp_blocks(ns, plain).subrange(
                off,
                off + sp_block(ns[k], plain).len(),
            ) == sp_block(ns[k], plain),
    decreases ns.len(),
{
    let whole = sp_blocks(ns, plain);
    let piece = sp_block(ns[k], plain);
    if k == ns.len() - 1 {
        let off = sp_blocks(ns.drop_last(), plain).len() as int;
        assert(ns.last() == ns[k]);
        assert(whole.subrange(off, off + piece.len()) =~= piece);
        assert(0 <= off && off + piece.len() <= whole.len() && whole.subrange(
            off,
            off + piece.len(),
        ) == piece);
    } else {
        lemma_block_in_document(ns.drop_last(), k, plain);
        assert(ns.drop_last()[k] == ns[k]);
        let prev = sp_blocks(ns.drop_last(), plain);
        let off = choose|off: int|
            0 <= off && off + piece.len() <= prev.len() && #[trigger] prev.subrange(
                off,
                off + piece.len(),
            ) == piece;
        assert(whole.subrange(off, off + piece.len()) =~= prev.subrange(off, off + piece.len()));
        assert(0 <= off && off + piece.len() <= whole.len() && whole.subrange(
            off,
            off + piece.len(),
        ) == piece);
    }
}

/// Text that contains no escape character, so no terminal attribute
/// sequence can begin in it.
pub open spec fn esc_free_text(s: Seq<char>) -> bool {
    forall|i: int| 0 <= i < s.len() ==> s[i] != esc()
}

/// A tree none of whose literals, info strings, destinations or titles
/// contains the escape character.
pub open spec fn esc_free_node(n: Node) -> bool
    decreases n, 1int,
{
    match n {
        Node::CodeBlock { info, literal } => esc_free_text(info@) && esc_free_text(literal@),
        Node::HtmlBlock { literal } => esc_free_text(literal@),
        Node::Code { literal } => esc_free_text(literal@),
        Node::Text { literal } => esc_free_text(literal@),
        Node::HtmlInline { literal } => esc_free_text(literal@),
        Node::Link { url, title, children } => esc_free_text(url@) && esc_free_text(title@)
            && esc_free_nodes(children@),
        Node::Image { url, title, children } => esc_free_text(url@) && esc_free_text(title@)
            && esc_free_nodes(children@),
        Node::Document { children } => esc_free_nodes(children@),
        Node::Paragraph { children } => esc_free_nodes(children@),
        Node::Heading { children, .. } => esc_free_nodes(children@),
        Node::List { children, .. } => esc_free_nodes(children@),
        Node::Item { children, .. } => esc_free_nodes(children@),
        Node::BlockQuote { children } => esc_free_nodes(children@),
        Node::Table { children, .. } => esc_free_nodes(children@),
        Node::TableRow { children, .. } => esc_free_nodes(children@),
        Node::TableCell { children } => esc_free_nodes(children@),
        Node::Emph { children } => esc_free_nodes(children@),
        Node::Strong { children } => esc_free_nodes(children@),
        Node::Underline { children } => esc_free_nodes(children@),
        Node::Strikethrough { children } => esc_free_nodes(children@),
        _ => true,
    }
}

/// Every node of the sequence is escape-free.
pub open spec fn esc_free_nodes(ns: Seq<Node>) -> bool
    decreases ns, 0int,
{
    ns.len() == 0 || (esc_free_nodes(ns.drop_last()) && esc_free_node(ns.last()))
}

/// An escape-free node has escape-free children.
proof fn pure_children_of(n: Node)
    requires
        esc_free_node(n),
    ensures
        esc_free_nodes(children_of(n)),
{
}

/// Joining escape-free texts gives escape-free text.
proof fn pure_concat(a: Seq<char>, b: Seq<char>)
    requires
        esc_free_text(a),
        esc_free_text(b),
    ensures
        esc_free_text(a + b),
{
    assert forall|i: int| 0 <= i < (a + b).len() implies (a + b)[i] != esc() by {
        if i < a.len() {
            assert((a + b)[i] == a[i]);
        } else {
            assert((a + b)[i] == b[i - a.len()]);
        }
    }
}

/// Any subrange of escape-free text is escape-free.
proof fn pure_subrange(s: Seq<char>, from: int, to: int)
    requires
        esc_free_text(s),
        0 <= from <= to <= s.len(),
    ensures
        esc_free_text(s.subrange(from, to)),
{
}

/// The placeholder contains no escape character.
proof fn pure_placeholder()
    ensures
        esc_free_text(placeholder()),
{
    reveal_strlit("\u{1f494} Unexpected node");
}

/// Repeating escape-free text keeps it escape-free.
proof fn pure_repeat(unit: Seq<char>, n: nat)
    requires
        esc_free_text(unit),
    ensures
        esc_free_text(spec_repeat(unit, n)),
    decreases n,
{
    if n != 0 {
        pure_repeat(unit, (n - 1) as nat);
        pure_concat(spec_repeat(unit, (n - 1) as nat), unit);
    }
}

/// Decimal digits contain no escape character.
proof fn pure_decimal(n: nat)
    ensures
        esc_free_text(spec_decimal(n)),
    decreases n,
{
    if n < 10 {
        assert(digit_char(n) != esc());
    } else {
        pure_decimal(n / 10);
        assert(digit_char(n % 10) != esc());
        pure_concat(spec_decimal(n / 10), seq![digit_char(n % 10)]);
    }
}

/// Splitting escape-free text gives escape-free pieces.
proof fn pure_split_nl(s: Seq<char>)
    requires
        esc_free_text(s),
    ensures
        forall|k: int| 0 <= k < split_nl(s).len() ==> esc_free_text(#[trigger] split_nl(s)[k]),
    decreases s.len(),
{
    if s.len() != 0 {
        pure_subrange(s, 1, s.len() as int);
        pure_split_nl(s.drop_first());
        lemma_split_nl_len(s.drop_first());
        let rest = split_nl(s.drop_first());
        if s[0] == '\n' {
            assert forall|k: int| 0 <= k < split_nl(s).len() implies esc_free_text(
                #[trigger] split_nl(s)[k],
            ) by {
                if k > 0 {
                    assert(split_nl(s)[k] == rest[k - 1]);
                }
            }
        } else {
            pure_concat(seq![s[0]], rest[0]);
            assert forall|k: int| 0 <= k < split_nl(s).len() implies esc_free_text(
                #[trigger] split_nl(s)[k],
            ) by {
                if k == 0 {
                    assert(split_nl(s)[0] == seq![s[0]] + rest[0]);
                } else {
                    assert(split_nl(s)[k] == rest.drop_first()[k - 1]);
                    assert(rest.drop_first()[k - 1] == rest[k]);
                }
            }
        }
    }
}

/// The lines of escape-free text are escape-free.
proof fn pure_lines(s: Seq<char>)
    requires
        esc_free_text(s),
    ensures
        forall|k: int| 0 <= k < spec_lines(s).len() ==> esc_free_text(#[trigger] spec_lines(s)[k]),
{
    pure_split_nl(s);
    let ps = split_nl(s);
    let qs = if ps.last().len() == 0 {
        ps.drop_last()
    } else {
        ps
    };
    lemma_split_nl_len(s);
    assert forall|k: int| 0 <= k < spec_lines(s).len() implies esc_free_text(
        #[trigger] spec_lines(s)[k],
    ) by {
        assert(spec_lines(s)[k] == strip_cr(qs[k]));
        assert(esc_free_text(qs[k]));
        if qs[k].len() > 0 && qs[k].last() == '\r' {
            pure_subrange(qs[k], 0, qs[k].len() - 1);
        }
    }
}

/// The quoted lines of escape-free text are escape-free.
proof fn pure_quote_lines(s: Seq<char>)
    requires
        esc_free_text(s),
    ensures
        forall|k: int|
            0 <= k < quote_lines(s).len() ==> esc_free_text(#[trigger] quote_lines(s)[k]),
{
    if s.len() != 0 {
        pure_lines(s);
    }
}

/// Plain-rendered inline nodes are escape-free.
proof fn pure_inline(n: Node)
    requires
        esc_free_node(n),
    ensures
        esc_free_text(sp_inline(n, true)),
    decreases n, 1int,
{
    match n {
        Node::Emph { children } => pure_inlines(children@),
        Node::Strong { children } => pure_inlines(children@),
        Node::Underline { children } => pure_inlines(children@),
        Node::Strikethrough { children } => pure_inlines(children@),
        Node::Code { .. } => {},
        Node::Link { url, title, children } => {
            pure_inlines(children@);
            pure_link(sp_inlines(children@, true), url@, title@);
        },
        Node::Image { url, title, children } => {
            pure_inlines(children@);
            pure_link(sp_inlines(children@, true), url@, title@);
        },
        Node::Paragraph { children } => {
            pure_inlines(children@);
            pure_concat(sp_inlines(children@, true), nl());
            pure_concat(sp_inlines(children@, true) + nl(), nl());
        },
        _ => {
            pure_placeholder();
        },
    }
}

/// A plain-rendered link around escape-free parts is escape-free.
proof fn pure_link(text: Seq<char>, url: Seq<char>, title: Seq<char>)
    requires
        esc_free_text(text),
        esc_free_text(url),
        esc_free_text(title),
    ensures
        esc_free_text(sp_link_text(text, url, title, true)),
{
    let title_part = if title.len() > 0 {
        seq![' ', '"'] + title + seq!['"']
    } else {
        Seq::<char>::empty()
    };
    if title.len() > 0 {
        pure_concat(seq![' ', '"'], title);
        pure_concat(seq![' ', '"'] + title, seq!['"']);
    }
    pure_concat(text, title_part);
    pure_concat(text + title_part, seq![' ', '[']);
    pure_concat(text + title_part + seq![' ', '['], url);
    pure_concat(text + title_part + seq![' ', '['] + url, seq![']']);
}

/// Plain-rendered inline sequences are escape-free.
proof fn pure_inlines(ns: Seq<Node>)
    requires
        esc_free_nodes(ns),
    ensures
        esc_free_text(sp_inlines(ns, true)),
    decreases ns, 0int,
{
    if ns.len() != 0 {
        pure_inlines(ns.drop_last());
        pure_inline(ns.last());
        pure_concat(sp_inlines(ns.drop_last(), true), sp_inline(ns.last(), true));
    }
}

/// A node's plain-rendered inline children are escape-free.
proof fn pure_children(n: Node)
    requires
        esc_free_node(n),
    ensures
        esc_free_text(sp_children(n, true)),
    decreases n, 2int,
{
    match n {
        Node::Document { children } => pure_inlines(children@),
        Node::Paragraph { children } => pure_inlines(children@),
        Node::Heading { children, .. } => pure_inlines(children@),
        Node::List { children, .. } => pure_inlines(children@),
        Node::Item { children, .. } => pure_inlines(children@),
        Node::BlockQuote { children } => pure_inlines(children@),
        Node::Table { children, .. } => pure_inlines(children@),
        Node::TableRow { children, .. } => pure_inlines(children@),
        Node::TableCell { children } => pure_inlines(children@),
        Node::Emph { children } => pure_inlines(children@),
        Node::Strong { children } => pure_inlines(children@),
        Node::Underline { children } => pure_inlines(children@),
        Node::Strikethrough { children } => pure_inlines(children@),
        Node::Link { children, .. } => pure_inlines(children@),
        Node::Image { children, .. } => pure_inlines(children@),
        _ => {},
    }
}

/// Prefixing escape-free lines with an escape-free prefix stays
/// escape-free.
proof fn pure_prefixed(lines: Seq<Seq<char>>, prefix: Seq<char>)
    requires
        esc_free_text(prefix),
        forall|k: int| 0 <= k < lines.len() ==> esc_free_text(#[trigger] lines[k]),
    ensures
        esc_free_text(sp_prefixed(lines, prefix)),
    decreases lines.len(),
{
    if lines.len() != 0 {
        pure_prefixed(lines.drop_last(), prefix);
        let head = sp_prefixed(lines.drop_last(), prefix);
        pure_concat(head, prefix);
        assert(lines.last() == lines[lines.len() - 1]);
        pure_concat(head + prefix, lines.last());
        pure_concat(head + prefix + lines.last(), nl());
    }
}

/// Plain-rendered quote children are escape-free.
proof fn pure_quote_children(ns: Seq<Node>, level: nat)
    requires
        esc_free_nodes(ns),
    ensures
        esc_free_text(sp_quote_children(ns, level, true)),
    decreases ns, 3int,
{
    if ns.len() != 0 {
        pure_quote_children(ns.drop_last(), level);
        let piece = if ns.last() is BlockQuote {
            sp_quote(ns.last(), level + 1, true)
        } else {
            sp_quote_piece(sp_children(ns.last(), true), level)
        };
        if ns.last() is BlockQuote {
            pure_quote(ns.last(), level + 1);
        } else {
            pure_children(ns.last());
            let text = sp_children(ns.last(), true);
            pure_quote_lines(text);
            pure_repeat(quote_lead(), level + 1);
            pure_prefixed(quote_lines(text), spec_repeat(quote_lead(), level + 1));
        }
        pure_concat(sp_quote_children(ns.drop_last(), level, true), piece);
    }
}

/// Plain-rendered block quotes are escape-free.
proof fn pure_quote(n: Node, level: nat)
    requires
        esc_free_node(n),
    ensures
        esc_free_text(sp_quote(n, level, true)),
    decreases n, 4int,
{
    match n {
        Node::BlockQuote { children } => {
            pure_quote_children(children@, level);
            if level == 0 {
                pure_concat(sp_quote_children(children@, level, true), nl());
            }
        },
        _ => {},
    }
}

/// A list marker is escape-free.
proof fn pure_marker(list: ListData, idx: nat, level: nat)
    ensures
        esc_free_text(sp_marker(list, idx, level)),
{
    if !list.bullet {
        pure_decimal(marker_number(list.start, idx));
        assert(delim_char(list.delim) != esc());
        pure_concat(spec_decimal(marker_number(list.start, idx)), seq![delim_char(list.delim)]);
    }
}

/// Marker-prefixed lines of escape-free text are escape-free.
proof fn pure_marker_lines(lines: Seq<Seq<char>>, marker: Seq<char>, mw: nat, level: nat)
    requires
        esc_free_text(marker),
        forall|k: int| 0 <= k < lines.len() ==> esc_free_text(#[trigger] lines[k]),
    ensures
        esc_free_text(sp_marker_lines(lines, marker, mw, level)),
    decreases lines.len(),
{
    if lines.len() != 0 {
        pure_marker_lines(lines.drop_last(), marker, mw, level);
        let head = if lines.len() - 1 == 0 {
            marker
        } else {
            spec_repeat(seq![' '], mw)
        };
        pure_repeat(seq![' '], mw);
        pure_repeat(indent_unit(), level);
        let front = sp_marker_lines(lines.drop_last(), marker, mw, level);
        pure_concat(front, spec_repeat(indent_unit(), level));
        pure_concat(front + spec_repeat(indent_unit(), level), head);
        assert(lines.last() == lines[lines.len() - 1]);
        pure_concat(front + spec_repeat(indent_unit(), level) + head, seq![' ']);
        pure_concat(front + spec_repeat(indent_unit(), level) + head + seq![' '], lines.last());
        pure_concat(
            front + spec_repeat(indent_unit(), level) + head + seq![' '] + lines.last(),
            nl(),
        );
    }
}

/// One plain-rendered list-item child is escape-free.
proof fn pure_item_child(c: Node, list: ListData, idx: nat, level: nat)
    requires
        esc_free_node(c),
    ensures
        esc_free_text(sp_item_child(c, list, idx, level, true)),
    decreases c, 6int,
{
    match c {
        Node::List { .. } => pure_list(c, level + 1),
        Node::Paragraph { .. } => {
            pure_children(c);
            pure_lines(sp_children(c, true));
            pure_marker(list, idx, level);
            pure_marker_lines(
                spec_lines(sp_children(c, true)),
                sp_marker(list, idx, level),
                sp_marker_width(list),
                level,
            );
        },
        _ => pure_placeholder(),
    }
}

/// Plain-rendered list-item children are escape-free.
proof fn pure_item_children(ns: Seq<Node>, list: ListData, idx: nat, level: nat)
    requires
        esc_free_nodes(ns),
    ensures
        esc_free_text(sp_item_children(ns, list, idx, level, true)),
    decreases ns, 7int,
{
    if ns.len() != 0 {
        pure_item_children(ns.drop_last(), list, idx, level);
        pure_item_child(ns.last(), list, idx, level);
        pure_concat(
            sp_item_children(ns.drop_last(), list, idx, level, true),
            sp_item_child(ns.last(), list, idx, level, true),
        );
    }
}

/// One plain-rendered list item is escape-free.
proof fn pure_item(c: Node, idx: nat, level: nat)
    requires
        esc_free_node(c),
    ensures
        esc_free_text(sp_item(c, idx, level, true)),
    decreases c, 8int,
{
    match c {
        Node::Item { list, children } => pure_item_children(children@, list, idx, level),
        _ => pure_placeholder(),
    }
}

/// Plain-rendered list items are escape-free.
proof fn pure_items(ns: Seq<Node>, level: nat)
    requires
        esc_free_nodes(ns),
    ensures
        esc_free_text(sp_items(ns, level, true)),
    decreases ns, 9int,
{
    if ns.len() != 0 {
        pure_items(ns.drop_last(), level);
        pure_item(ns.last(), (ns.len() - 1) as nat, level);
        pure_concat(
            sp_items(ns.drop_last(), level, true),
            sp_item(ns.last(), (ns.len() - 1) as nat, level, true),
        );
    }
}

/// Plain-rendered lists are escape-free.
proof fn pure_list(n: Node, level: nat)
    requires
        esc_free_node(n),
    ensures
        esc_free_text(sp_list(n, level, true)),
    decreases n, 5int,
{
    match n {
        Node::List { children, .. } => {
            pure_items(children@, level);
            if level == 0 {
                pure_concat(sp_items(children@, level, true), nl());
            }
        },
        _ => {},
    }
}

/// One plain-rendered table cell is escape-free.
proof fn pure_cell(cell: Node, header: bool, width: nat, align: Alignment)
    requires
        esc_free_node(cell),
    ensures
        esc_free_text(sp_cell(cell, header, width, align, true)),
    decreases cell, 7int,
{
    match cell {
        Node::TableCell { children } => {
            pure_inlines(children@);
            let plain_text = sp_inlines(children@, true);
            let padding = if width >= plain_text.len() {
                (width - plain_text.len()) as nat
            } else {
                0
            };
            pure_repeat(seq![' '], pad_left(align, padding));
            pure_repeat(seq![' '], pad_right(align, padding));
            let left = spec_repeat(seq![' '], pad_left(align, padding));
            pure_concat(left, plain_text);
            pure_concat(left + plain_text, seq![' ']);
            pure_concat(
                left + plain_text + seq![' '],
                spec_repeat(seq![' '], pad_right(align, padding)),
            );
        },
        _ => {},
    }
}

/// Plain-rendered row cells are escape-free.
proof fn pure_row_cells(cells: Seq<Node>, header: bool, all_rows: Seq<Node>, aligns: Seq<Alignment>)
    requires
        esc_free_nodes(cells),
    ensures
        esc_free_text(sp_row_cells(cells, header, all_rows, aligns, true)),
    decreases cells, 8int,
{
    if cells.len() != 0 {
        pure_row_cells(cells.drop_last(), header, all_rows, aligns);
        let col = cells.len() - 1;
        if cells.last() is TableCell {
            pure_cell(cells.last(), header, col_width(all_rows, col), aligns[col]);
        } else {
            pure_placeholder();
        }
        let piece = if cells.last() is TableCell {
            sp_cell(cells.last(), header, col_width(all_rows, col), aligns[col], true)
        } else {
            placeholder()
        };
        pure_concat(sp_row_cells(cells.drop_last(), header, all_rows, aligns, true), piece);
    }
}

/// One plain-rendered table child is escape-free.
proof fn pure_row_node(row: Node, all_rows: Seq<Node>, aligns: Seq<Alignment>)
    requires
        esc_free_node(row),
    ensures
        esc_free_text(sp_row_node(row, all_rows, aligns, true)),
    decreases row, 9int,
{
    match row {
        Node::TableRow { header, children } => {
            pure_row_cells(children@, header, all_rows, aligns);
            pure_concat(sp_row_cells(children@, header, all_rows, aligns, true), nl());
        },
        _ => pure_placeholder(),
    }
}

/// Plain-rendered table rows are escape-free.
proof fn pure_rows(rs: Seq<Node>, all_rows: Seq<Node>, aligns: Seq<Alignment>)
    requires
        esc_free_nodes(rs),
    ensures
        esc_free_text(sp_rows(rs, all_rows, aligns, true)),
    decreases rs, 10int,
{
    if rs.len() != 0 {
        pure_rows(rs.drop_last(), all_rows, aligns);
        pure_row_node(rs.last(), all_rows, aligns);
        pure_concat(
            sp_rows(rs.drop_last(), all_rows, aligns, true),
            sp_row_node(rs.last(), all_rows, aligns, true),
        );
    }
}

/// Plain-rendered tables are escape-free.
proof fn pure_table(n: Node)
    requires
        esc_free_node(n),
    ensures
        esc_free_text(sp_table(n, true)),
    decreases n, 11int,
{
    match n {
        Node::Table { alignments, children, .. } => {
            pure_rows(children@, children@, alignments@);
            pure_concat(sp_rows(children@, children@, alignments@, true), nl());
        },
        _ => {},
    }
}

/// Plain-rendered code lines are escape-free.
proof fn pure_code_lines(lines: Seq<Seq<char>>)
    requires
        forall|k: int| 0 <= k < lines.len() ==> esc_free_text(#[trigger] lines[k]),
    ensures
        esc_free_text(sp_code_lines(lines, true)),
    decreases lines.len(),
{
    if lines.len() != 0 {
        assert(lines.last() == lines[lines.len() - 1]);
        pure_concat(code_lead(), lines.last());
        if lines.len() > 1 {
            pure_code_lines(lines.drop_last());
            pure_concat(sp_code_lines(lines.drop_last(), true), nl());
            pure_concat(sp_code_lines(lines.drop_last(), true) + nl(), sp_code_line(lines.last(), true));
        }
    }
}

/// Plain-rendered code blocks are escape-free.
proof fn pure_code_block(info: Seq<char>, literal: Seq<char>)
    requires
        esc_free_text(info),
        esc_free_text(literal),
    ensures
        esc_free_text(sp_code_block(info, literal, true)),
{
    let banner = if info.len() == 0 {
        Seq::<char>::empty()
    } else {
        sp_wrap(crate::style::seq_reverse(), seq!['['] + info + seq![']'] + nl(), true)
    };
    if info.len() > 0 {
        pure_concat(seq!['['], info);
        pure_concat(seq!['['] + info, seq![']']);
        pure_concat(seq!['['] + info + seq![']'], nl());
    }
    pure_lines(literal);
    pure_code_lines(spec_lines(literal));
    pure_concat(banner, sp_code_lines(spec_lines(literal), true));
    pure_concat(banner + sp_code_lines(spec_lines(literal), true), nl());
    pure_concat(banner + sp_code_lines(spec_lines(literal), true) + nl(), nl());
}

/// One plain-rendered top-level block is escape-free.
proof fn pure_block(n: Node)
    requires
        esc_free_node(n),
    ensures
        esc_free_text(sp_block(n, true)),
{
    match n {
        Node::Paragraph { children } => {
            pure_inlines(children@);
            pure_concat(sp_inlines(children@, true), nl());
            pure_concat(sp_inlines(children@, true) + nl(), nl());
        },
        Node::Heading { children, .. } => {
            pure_inlines(children@);
            pure_concat(sp_inlines(children@, true), nl());
            pure_concat(sp_inlines(children@, true) + nl(), nl());
        },
        Node::List { .. } => pure_list(n, 0),
        Node::BlockQuote { .. } => pure_quote(n, 0),
        Node::CodeBlock { info, literal } => pure_code_block(info@, literal@),
        Node::ThematicBreak => {},
        Node::HtmlBlock { literal } => pure_concat(literal@, nl()),
        Node::Table { .. } => pure_table(n),
        _ => pure_placeholder(),
    }
}

/// Plain-rendered block sequences are escape-free.
proof fn pure_blocks(ns: Seq<Node>)
    requires
        esc_free_nodes(ns),
    ensures
        esc_free_text(sp_blocks(ns, true)),
    decreases ns.len(),
{
    if ns.len() != 0 {
        pure_blocks(ns.drop_last());
        pure_block(ns.last());
        pure_concat(sp_blocks(ns.drop_last(), true), sp_block(ns.last(), true));
    }
}

/// Plain-mode purity: rendering an escape-free tree in plain mode yields
/// text with no escape character in it, so no terminal attribute sequence.
/// (A literal that itself carries an escape character is passed through
/// verbatim, which is why the law asks the tree to be escape-free.)
pub proof fn lemma_plain_mode_purity(n: Node)
    requires
        esc_free_node(n),
    ensures
        esc_free_text(sp_document(n, true)),
{
    pure_children_of(n);
    pure_blocks(children_of(n));
}

} // verus!
