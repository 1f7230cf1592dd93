//! The document tree that queries run on, and the Markdown parser that
//! produces it.
//!
//! Parsing Markdown is the work of the `markdown` crate. The library keeps its
//! own tree, [`DocNode`], which records of every node its kind, its children
//! and, for text, its value: that is all a query reads.

use vstd::prelude::*;

verus! {

/// A node of a document tree.
#[derive(Debug)]
pub enum DocNode {
    /// The document itself, or a nested container of the same kind.
    Root(Vec<DocNode>),
    Heading(Vec<DocNode>),
    Paragraph(Vec<DocNode>),
    /// Literal text.
    Text(String),
    /// A node of any other kind, with its children if it has any.
    Other(Vec<DocNode>),
}

/// The model of a [`DocNode`].
pub enum SpecNode {
    Root(Seq<SpecNode>),
    Heading(Seq<SpecNode>),
    Paragraph(Seq<SpecNode>),
    Text(Seq<char>),
    Other(Seq<SpecNode>),
}

/// The model of one node.
pub open spec fn node_view(node: DocNode) -> SpecNode
    decreases node,
{
    match node {
        DocNode::Root(children) => SpecNode::Root(nodes_view(children@)),
        DocNode::Heading(children) => SpecNode::Heading(nodes_view(children@)),
        DocNode::Paragraph(children) => SpecNode::Paragraph(nodes_view(children@)),
        DocNode::Text(value) => SpecNode::Text(value@),
        DocNode::Other(children) => SpecNode::Other(nodes_view(children@)),
    }
}

/// The models of a sequence of nodes, in order.
pub open spec fn nodes_view(nodes: Seq<DocNode>) -> Seq<SpecNode>
    decreases nodes,
{
    if nodes.len() == 0 {
        Seq::empty()
    } else {
        nodes_view(nodes.drop_last()).push(node_view(nodes.last()))
    }
}

impl View for DocNode {
    type V = SpecNode;

    open spec fn view(&self) -> SpecNode {
        node_view(*self)
    }
}

/// The model of the first `count + 1` nodes is the model of the first
/// `count` with the model of the next one behind it.
pub proof fn lemma_nodes_view_take(nodes: Seq<DocNode>, count: int)
    requires
        0 <= count < nodes.len(),
    ensures
        nodes_view(nodes.take(count + 1)).len() > 0,
        nodes_view(nodes.take(count + 1)).drop_last() == nodes_view(nodes.take(count)),
        nodes_view(nodes.take(count + 1)).last() == node_view(nodes[count]),
{
    assert(nodes.take(count + 1).drop_last() == nodes.take(count));
}

/// The children of a node of the model; text has none.
pub open spec fn children_of(tree: SpecNode) -> Seq<SpecNode> {
    match tree {
        SpecNode::Root(children) => children,
        SpecNode::Heading(children) => children,
        SpecNode::Paragraph(children) => children,
        SpecNode::Text(_) => Seq::empty(),
        SpecNode::Other(children) => children,
    }
}

/// Trusted: the syntax tree type of the `markdown` crate. Nothing is known
/// of a value of it but what the contracts below say through
/// [`mdast_tree`].
#[verifier::external_type_specification]
#[verifier::external_body]
pub struct ExMdastNode(markdown::mdast::Node);

/// The document tree that a syntax tree of the `markdown` crate stands for:
/// `Root`, `Heading`, `Paragraph` and `Text` nodes keep their kind, every
/// other node is `Other`, and children keep their order.
pub uninterp spec fn mdast_tree(node: markdown::mdast::Node) -> SpecNode;

/// What the `markdown` crate makes of a text with its GitHub-flavoured
/// options: the document tree, or the message of its failure.
pub uninterp spec fn markdown_tree(text: Seq<char>) -> Result<SpecNode, Seq<char>>;

/// What a syntax node is, apart from its children.
enum Label {
    Root,
    Heading,
    Paragraph,
    Text(String),
    Other,
}

/// Trusted: `markdown::to_mdast` with `ParseOptions::gfm()` is a function of
/// the text alone.
#[verifier::external_body]
fn to_mdast(text: &str) -> (parsed: Result<markdown::mdast::Node, String>)
    ensures
        match parsed {
            Ok(node) => markdown_tree(text@) == Ok::<SpecNode, Seq<char>>(mdast_tree(node)),
            Err(message) => markdown_tree(text@) == Err::<SpecNode, Seq<char>>(message@),
        },
{
    markdown::to_mdast(text, &markdown::ParseOptions::gfm())
}

/// Trusted: tells the variants of `markdown::mdast::Node` apart. The tree
/// that the node stands for has the kind of the variant, and a text node
/// has the variant's `value`.
#[verifier::external_body]
fn label_of(node: &markdown::mdast::Node) -> (label: Label)
    ensures
        match label {
            Label::Root => mdast_tree(*node) is Root,
            Label::Heading => mdast_tree(*node) is Heading,
            Label::Paragraph => mdast_tree(*node) is Paragraph,
            Label::Text(value) => mdast_tree(*node) == SpecNode::Text(value@),
            Label::Other => mdast_tree(*node) is Other,
        },
{
    match node {
        markdown::mdast::Node::Root(_) => Label::Root,
        markdown::mdast::Node::Heading(_) => Label::Heading,
        markdown::mdast::Node::Paragraph(_) => Label::Paragraph,
        markdown::mdast::Node::Text(text) => Label::Text(text.value.clone()),
        _ => Label::Other,
    }
}

/// Trusted: `Node::children` hands out the children of a parent in order,
/// and `None` for a node that cannot have any, which is taken as no
/// children. The trees that the children stand for are the children of the
/// tree that the node stands for.
#[verifier::external_body]
fn mdast_children(node: &markdown::mdast::Node) -> (children: &[markdown::mdast::Node])
    ensures
        children@.len() == children_of(mdast_tree(*node)).len(),
        forall|i: int|
            0 <= i < children@.len() ==> mdast_tree(#[trigger] children@[i]) == children_of(
                mdast_tree(*node),
            )[i],
{
    match node.children() {
        Some(children) => children.as_slice(),
        None => &[],
    }
}

/// Copies a syntax tree of the `markdown` crate into a [`DocNode`].
fn from_mdast(node: &markdown::mdast::Node) -> (tree: DocNode)
    ensures
        tree@ == mdast_tree(*node),
    decreases mdast_tree(*node),
{
    let sources = mdast_children(node);
    let ghost targets = children_of(mdast_tree(*node));
    let mut children: Vec<DocNode> = Vec::new();
    let mut i: usize = 0;
    while i < sources.len()
        invariant
            i <= sources.len(),
            sources@.len() == targets.len(),
            targets == children_of(mdast_tree(*node)),
            forall|k: int|
                0 <= k < sources@.len() ==> mdast_tree(#[trigger] sources@[k]) == targets[k],
            nodes_view(children@) == targets.take(i as int),
        decreases sources.len() - i,
    {
        let child = from_mdast(&sources[i]);
        let ghost before = children@;
        children.push(child);
        assert(children@.drop_last() == before);
        i = i + 1;
    }
    assert(targets.take(i as int) == targets);
    match label_of(node) {
        Label::Root => DocNode::Root(children),
        Label::Heading => DocNode::Heading(children),
        Label::Paragraph => DocNode::Paragraph(children),
        Label::Text(value) => DocNode::Text(value),
        Label::Other => DocNode::Other(children),
    }
}

/// Parses a Markdown text into a document tree.
///
/// The tree, or the failure, is the one that [`markdown_tree`] names for
/// this text.
pub fn parse_document(text: &str) -> (parsed: Result<DocNode, String>)
    ensures
        match markdown_tree(text@) {
            Ok(tree) => parsed matches Ok(document) && document@ == tree,
            Err(message) => parsed matches Err(reported) && reported@ == message,
        },
{
    match to_mdast(text) {
        Ok(node) => Ok(from_mdast(&node)),
        Err(message) => Err(message),
    }
}

} // verus!
