//! The document tree that the renderer consumes.
//!
//! The tree is built by a caller (typically from the output of a Markdown
//! parser), handed to the renderer by shared reference, and never mutated.
//! Every node kind carries exactly the fields the renderer reads.

use vstd::prelude::*;

verus! {

/// The delimiter that follows an ordered list marker's number.
#[derive(Clone, Copy, PartialEq, Eq, Structural, Debug)]
pub enum Delim {
    /// `.` as in `1.`
    Period,
    /// `)` as in `1)`
    Paren,
}

/// How the content of a table column is aligned within its column width.
#[derive(Clone, Copy, PartialEq, Eq, Structural, Debug)]
pub enum Alignment {
    /// No alignment was given; behaves as `Left`.
    Unspecified,
    Left,
    Center,
    Right,
}

/// The list-related fields carried by both `List` and `Item` nodes.
#[derive(Clone, Copy, PartialEq, Eq, Structural, Debug)]
pub struct ListData {
    /// `true` for a bullet list, `false` for an ordered list.
    pub bullet: bool,
    /// The number of the first item of an ordered list; unused for bullets.
    pub start: u64,
    /// The delimiter after an ordered item's number; unused for bullets.
    pub delim: Delim,
}

/// One node of the document tree: blocks, inlines and table parts share one
/// type, so that a node standing in a position where the renderer does not
/// expect it can be detected and replaced by a placeholder rather than
/// refused up front.
pub enum Node {
    /// The root; its children are top-level blocks.
    Document { children: Vec<Node> },
    /// A paragraph of inline content.
    Paragraph { children: Vec<Node> },
    /// A heading with its level (1 and up) and inline content.
    Heading { level: u8, children: Vec<Node> },
    /// A bullet or ordered list; its children are `Item` nodes.
    List { list: ListData, children: Vec<Node> },
    /// One list item; carries its own copy of the list fields.
    Item { list: ListData, children: Vec<Node> },
    /// A block quote; its children are blocks, possibly nested quotes.
    BlockQuote { children: Vec<Node> },
    /// A leaf block of raw code text; `info` is the fence info string.
    CodeBlock { info: String, literal: String },
    /// A leaf block of raw HTML, passed through verbatim.
    HtmlBlock { literal: String },
    /// A horizontal rule.
    ThematicBreak,
    /// A table; its children are `TableRow` nodes.
    Table { num_columns: usize, alignments: Vec<Alignment>, children: Vec<Node> },
    /// One table row; its children are `TableCell` nodes.
    TableRow { header: bool, children: Vec<Node> },
    /// One table cell of inline content.
    TableCell { children: Vec<Node> },
    /// Emphasis (italic) around inline children.
    Emph { children: Vec<Node> },
    /// Strong emphasis (bold) around inline children.
    Strong { children: Vec<Node> },
    /// Underline around inline children.
    Underline { children: Vec<Node> },
    /// Strikethrough around inline children.
    Strikethrough { children: Vec<Node> },
    /// An inline code span holding its literal text.
    Code { literal: String },
    /// A link around inline children, with destination and optional title.
    Link { url: String, title: String, children: Vec<Node> },
    /// An image, rendered exactly as a link.
    Image { url: String, title: String, children: Vec<Node> },
    /// Literal text.
    Text { literal: String },
    /// A soft line break, rendered as a single space.
    SoftBreak,
    /// A hard line break, rendered as a newline.
    LineBreak,
    /// A leaf of raw inline HTML, passed through verbatim.
    HtmlInline { literal: String },
}

/// The children of a node, or the empty sequence for a leaf.
pub open spec fn children_of(n: Node) -> Seq<Node> {
    match n {
        Node::Document { children } => children@,
        Node::Paragraph { children } => children@,
        Node::Heading { children, .. } => children@,
        Node::List { children, .. } => children@,
        Node::Item { children, .. } => children@,
        Node::BlockQuote { children } => children@,
        Node::Table { children, .. } => children@,
        Node::TableRow { children, .. } => children@,
        Node::TableCell { children } => children@,
        Node::Emph { children } => children@,
        Node::Strong { children } => children@,
        Node::Underline { children } => children@,
        Node::Strikethrough { children } => children@,
        Node::Link { children, .. } => children@,
        Node::Image { children, .. } => children@,
        Node::CodeBlock { .. } => Seq::empty(),
        Node::HtmlBlock { .. } => Seq::empty(),
        Node::ThematicBreak => Seq::empty(),
        Node::Code { .. } => Seq::empty(),
        Node::Text { .. } => Seq::empty(),
        Node::SoftBreak => Seq::empty(),
        Node::LineBreak => Seq::empty(),
        Node::HtmlInline { .. } => Seq::empty(),
    }
}

/// The height of a node: 1 for a leaf, 1 more than the tallest child
/// otherwise.  It bounds the nesting level a recursive renderer can reach.
pub open spec fn node_height(n: Node) -> nat
    decreases n, 1int,
{
    match n {
        Node::Document { children } => 1 + seq_height(children@),
        Node::Paragraph { children } => 1 + seq_height(children@),
        Node::Heading { children, .. } => 1 + seq_height(children@),
        Node::List { children, .. } => 1 + seq_height(children@),
        Node::Item { children, .. } => 1 + seq_height(children@),
        Node::BlockQuote { children } => 1 + seq_height(children@),
        Node::Table { children, .. } => 1 + seq_height(children@),
        Node::TableRow { children, .. } => 1 + seq_height(children@),
        Node::TableCell { children } => 1 + seq_height(children@),
        Node::Emph { children } => 1 + seq_height(children@),
        Node::Strong { children } => 1 + seq_height(children@),
        Node::Underline { children } => 1 + seq_height(children@),
        Node::Strikethrough { children } => 1 + seq_height(children@),
        Node::Link { children, .. } => 1 + seq_height(children@),
        Node::Image { children, .. } => 1 + seq_height(children@),
        _ => 1,
    }
}

/// `node_height` unfolded through `children_of`, for reasoning at call sites.
pub proof fn lemma_node_height(n: Node)
    ensures
        node_height(n) == 1 + seq_height(children_of(n)),
{
}

/// The tallest height among a sequence of nodes, 0 for the empty sequence.
pub open spec fn seq_height(ns: Seq<Node>) -> nat
    decreases ns, 0int,
{
    if ns.len() == 0 {
        0
    } else {
        let rest = seq_height(ns.drop_last());
        let last = node_height(ns.last());
        if last > rest {
            last
        } else {
            rest
        }
    }
}

/// Every member of a sequence is at most as tall as the sequence's height.
pub proof fn lemma_seq_height_member(ns: Seq<Node>, i: int)
    requires
        0 <= i < ns.len(),
    ensures
        node_height(ns[i]) <= seq_height(ns),
    decreases ns.len(),
{
    if i == ns.len() - 1 {
        assert(ns.last() == ns[i]);
    } else {
        lemma_seq_height_member(ns.drop_last(), i);
        assert(ns.drop_last()[i] == ns[i]);
    }
}

/// A child is strictly lower than its parent.
pub proof fn lemma_child_height(n: Node, i: int)
    requires
        0 <= i < children_of(n).len(),
    ensures
        node_height(children_of(n)[i]) < node_height(n),
{
    lemma_node_height(n);
    lemma_seq_height_member(children_of(n), i);
}

/// A tree is well formed when every table in it keeps the invariants the
/// renderer relies on: the alignment list is as long as the column count,
/// and every row holds exactly that many children.
pub open spec fn wf_node(n: Node) -> bool
    decreases n, 1int,
{
    match n {
        Node::Table { num_columns, alignments, children } => {
            &&& alignments@.len() == num_columns
            &&& forall|i: int|
                0 <= i < children@.len() && children@[i] is TableRow ==> children_of(
                    #[trigger] children@[i],
                ).len() == num_columns
            &&& wf_nodes(children@)
        },
        Node::Document { children } => wf_nodes(children@),
        Node::Paragraph { children } => wf_nodes(children@),
        Node::Heading { children, .. } => wf_nodes(children@),
        Node::List { children, .. } => wf_nodes(children@),
        Node::Item { children, .. } => wf_nodes(children@),
        Node::BlockQuote { children } => wf_nodes(children@),
        Node::TableRow { children, .. } => wf_nodes(children@),
        Node::TableCell { children } => wf_nodes(children@),
        Node::Emph { children } => wf_nodes(children@),
        Node::Strong { children } => wf_nodes(children@),
        Node::Underline { children } => wf_nodes(children@),
        Node::Strikethrough { children } => wf_nodes(children@),
        Node::Link { children, .. } => wf_nodes(children@),
        Node::Image { children, .. } => wf_nodes(children@),
        _ => true,
    }
}

/// Every node of the sequence is well formed.
pub open spec fn wf_nodes(ns: Seq<Node>) -> bool
    decreases ns, 0int,
{
    ns.len() == 0 || (wf_nodes(ns.drop_last()) && wf_node(ns.last()))
}

/// A member of a well-formed sequence is well formed.
pub proof fn lemma_wf_member(ns: Seq<Node>, i: int)
    requires
        wf_nodes(ns),
        0 <= i < ns.len(),
    ensures
        wf_node(ns[i]),
    decreases ns.len(),
{
    if i == ns.len() - 1 {
        assert(ns.last() == ns[i]);
    } else {
        lemma_wf_member(ns.drop_last(), i);
        assert(ns.drop_last()[i] == ns[i]);
    }
}

/// A well-formed node has well-formed children.
pub proof fn lemma_wf_children(n: Node)
    requires
        wf_node(n),
    ensures
        wf_nodes(children_of(n)),
{
}

/// Decides `wf_node`, so that a caller that received a tree from outside can
/// establish the renderer's precondition.
#[verifier::loop_isolation(false)]
pub fn tree_well_formed(n: &Node) -> (b: bool)
    ensures
        b == wf_node(*n),
    decreases *n, 1int,
{
    match n {
        Node::Table { num_columns, alignments, children } => {
            if alignments.len() != *num_columns {
                return false;
            }
            for i in 0..children.len()
                invariant
                    forall|j: int|
                        0 <= j < i && children@[j] is TableRow ==> children_of(
                            #[trigger] children@[j],
                        ).len() == *num_columns,
                    alignments@.len() == *num_columns,
            {
                match &children[i] {
                    Node::TableRow { children: row_children, .. } => {
                        if row_children.len() != *num_columns {
                            proof {
                                assert(children_of(children@[i as int]) == row_children@);
                                assert(!wf_node(*n));
                            }
                            return false;
                        }
                    },
                    _ => {},
                }
            }
            nodes_well_formed(children)
        },
        Node::Document { children } => nodes_well_formed(children),
        Node::Paragraph { children } => nodes_well_formed(children),
        Node::Heading { children, .. } => nodes_well_formed(children),
        Node::List { children, .. } => nodes_well_formed(children),
        Node::Item { children, .. } => nodes_well_formed(children),
        Node::BlockQuote { children } => nodes_well_formed(children),
        Node::TableRow { children, .. } => nodes_well_formed(children),
        Node::TableCell { children } => nodes_well_formed(children),
        Node::Emph { children } => nodes_well_formed(children),
        Node::Strong { children } => nodes_well_formed(children),
        Node::Underline { children } => nodes_well_formed(children),
        Node::Strikethrough { children } => nodes_well_formed(children),
        Node::Link { children, .. } => nodes_well_formed(children),
        Node::Image { children, .. } => nodes_well_formed(children),
        _ => true,
    }
}

/// Decides `wf_nodes` for a vector of nodes.
#[verifier::loop_isolation(false)]
pub fn nodes_well_formed(ns: &Vec<Node>) -> (b: bool)
    ensures
        b == wf_nodes(ns@),
    decreases ns@, 0int,
{
    for i in 0..ns.len()
        invariant
            wf_nodes(ns@.take(i as int)),
    {
        if !tree_well_formed(&ns[i]) {
            proof {
                lemma_wf_not_member(ns@, i as int);
            }
            return false;
        }
        proof {
            assert(ns@.take(i + 1 as int).drop_last() =~= ns@.take(i as int));
            assert(ns@.take(i + 1 as int).last() == ns@[i as int]);
        }
    }
    proof {
        assert(ns@.take(ns@.len() as int) =~= ns@);
    }
    true
}

/// Computes a node's height, or `None` where it does not fit `usize` (no
/// tree held in memory is that deep, but the type admits one).
pub fn tree_height(n: &Node) -> (h: Option<usize>)
    ensures
        h matches Some(v) ==> v == node_height(*n),
        h is None ==> node_height(*n) > usize::MAX,
    decreases *n, 1int,
{
    proof {
        lemma_node_height(*n);
    }
    match n {
        Node::Document { children } => children_height_plus_one(children),
        Node::Paragraph { children } => children_height_plus_one(children),
        Node::Heading { children, .. } => children_height_plus_one(children),
        Node::List { children, .. } => children_height_plus_one(children),
        Node::Item { children, .. } => children_height_plus_one(children),
        Node::BlockQuote { children } => children_height_plus_one(children),
        Node::Table { children, .. } => children_height_plus_one(children),
        Node::TableRow { children, .. } => children_height_plus_one(children),
        Node::TableCell { children } => children_height_plus_one(children),
        Node::Emph { children } => children_height_plus_one(children),
        Node::Strong { children } => children_height_plus_one(children),
        Node::Underline { children } => children_height_plus_one(children),
        Node::Strikethrough { children } => children_height_plus_one(children),
        Node::Link { children, .. } => children_height_plus_one(children),
        Node::Image { children, .. } => children_height_plus_one(children),
        _ => Some(1),
    }
}

/// One more than the tallest of the given nodes, when that fits `usize`.
#[verifier::loop_isolation(false)]
fn children_height_plus_one(ns: &Vec<Node>) -> (h: Option<usize>)
    ensures
        h matches Some(v) ==> v == 1 + seq_height(ns@),
        h is None ==> 1 + seq_height(ns@) > usize::MAX,
    decreases ns@, 0int,
{
    let mut tallest: usize = 0;
    proof {
        assert(ns@.take(0) =~= Seq::<Node>::empty());
    }
    for i in 0..ns.len()
        invariant
            tallest == seq_height(ns@.take(i as int)),
    {
        match tree_height(&ns[i]) {
            Some(v) => {
                if v > tallest {
                    tallest = v;
                }
            },
            Option::None => {
                proof {
                    lemma_seq_height_member(ns@, i as int);
                }
                return Option::None;
            },
        }
        proof {
            assert(ns@.take(i + 1).drop_last() =~= ns@.take(i as int));
            assert(ns@.take(i + 1).last() == ns@[i as int]);
        }
    }
    proof {
        assert(ns@.take(ns@.len() as int) =~= ns@);
    }
    if tallest == usize::MAX {
        Option::None
    } else {
        Some(tallest + 1)
    }
}

/// A sequence with an ill-formed member is not well formed.
proof fn lemma_wf_not_member(ns: Seq<Node>, i: int)
    requires
        0 <= i < ns.len(),
        !wf_node(ns[i]),
    ensures
        !wf_nodes(ns),
{
    if wf_nodes(ns) {
        lemma_wf_member(ns, i);
    }
}

} // verus!
