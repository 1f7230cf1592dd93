//! The executor: runs a [`Query`] against a document.
//!
//! Headings and paragraphs are looked for among the children of the root and
//! of roots nested in it, never inside any other container. Text is looked
//! for in the whole tree. Both walks are in document order, parents before
//! children.

use crate::document::{
    lemma_nodes_view_take, markdown_tree, nodes_view, parse_document, DocNode, SpecNode,
};
use crate::parser::{Element, Query, SpecElement};
use crate::text::{contains_text, occurs_in};
use vstd::prelude::*;
use vstd::string::*;

verus! {

/// Trusted: the error type of `std::io`, carried through unread.
#[verifier::external_type_specification]
#[verifier::external_body]
pub struct ExIoError(std::io::Error);

/// Why a query could not be run.
#[derive(Debug)]
pub enum ExecutorError {
    /// The document could not be read; the cause is kept as it came.
    FileReadError(std::io::Error),
    /// The document is no Markdown; the parser's message is kept.
    MarkdownParseError(String),
    /// An element that cannot be run. Every element can, so the executor
    /// never reports this.
    InvalidElement(String),
}

/// What a query found, by kind, in the order it was found.
#[derive(Debug)]
pub struct QueryResult {
    pub headings: Vec<String>,
    pub paragraphs: Vec<String>,
    pub matching_text: Vec<String>,
}

/// The model of a [`QueryResult`].
pub struct SpecResult {
    pub headings: Seq<Seq<char>>,
    pub paragraphs: Seq<Seq<char>>,
    pub matching_text: Seq<Seq<char>>,
}

impl View for QueryResult {
    type V = SpecResult;

    open spec fn view(&self) -> SpecResult {
        SpecResult {
            headings: self.headings.deep_view(),
            paragraphs: self.paragraphs.deep_view(),
            matching_text: self.matching_text.deep_view(),
        }
    }
}

/// The values of the text nodes among `children`, joined in order. Children
/// of other kinds are skipped, and nothing below a child is looked at.
pub open spec fn direct_text(children: Seq<SpecNode>) -> Seq<char>
    decreases children.len(),
{
    if children.len() == 0 {
        Seq::empty()
    } else {
        direct_text(children.drop_last()) + match children.last() {
            SpecNode::Text(value) => value,
            _ => Seq::empty(),
        }
    }
}

/// The headings found from `node`: a heading gives its direct text, a root
/// gives what its children give, anything else gives nothing.
pub open spec fn headings_in(node: SpecNode) -> Seq<Seq<char>>
    decreases node,
{
    match node {
        SpecNode::Heading(children) => seq![direct_text(children)],
        SpecNode::Root(children) => headings_among(children),
        _ => Seq::empty(),
    }
}

/// The headings found from each of `nodes`, in order.
pub open spec fn headings_among(nodes: Seq<SpecNode>) -> Seq<Seq<char>>
    decreases nodes,
{
    if nodes.len() == 0 {
        Seq::empty()
    } else {
        headings_among(nodes.drop_last()) + headings_in(nodes.last())
    }
}

/// The paragraphs found from `node`: a paragraph gives its direct text, a
/// root gives what its children give, anything else gives nothing.
pub open spec fn paragraphs_in(node: SpecNode) -> Seq<Seq<char>>
    decreases node,
{
    match node {
        SpecNode::Paragraph(children) => seq![direct_text(children)],
        SpecNode::Root(children) => paragraphs_among(children),
        _ => Seq::empty(),
    }
}

/// The paragraphs found from each of `nodes`, in order.
pub open spec fn paragraphs_among(nodes: Seq<SpecNode>) -> Seq<Seq<char>>
    decreases nodes,
{
    if nodes.len() == 0 {
        Seq::empty()
    } else {
        paragraphs_among(nodes.drop_last()) + paragraphs_in(nodes.last())
    }
}

/// The values of the text nodes in the tree under `node` that contain
/// `pattern`, in document order. Every container is searched.
pub open spec fn matching_in(node: SpecNode, pattern: Seq<char>) -> Seq<Seq<char>>
    decreases node,
{
    match node {
        SpecNode::Text(value) => if occurs_in(pattern, value) {
            seq![value]
        } else {
            Seq::empty()
        },
        SpecNode::Root(children) => matching_among(children, pattern),
        SpecNode::Heading(children) => matching_among(children, pattern),
        SpecNode::Paragraph(children) => matching_among(children, pattern),
        SpecNode::Other(children) => matching_among(children, pattern),
    }
}

/// The matching text found under each of `nodes`, in order.
pub open spec fn matching_among(nodes: Seq<SpecNode>, pattern: Seq<char>) -> Seq<Seq<char>>
    decreases nodes,
{
    if nodes.len() == 0 {
        Seq::empty()
    } else {
        matching_among(nodes.drop_last(), pattern) + matching_in(nodes.last(), pattern)
    }
}

/// The result before any element has been looked for.
pub open spec fn empty_result() -> SpecResult {
    SpecResult { headings: Seq::empty(), paragraphs: Seq::empty(), matching_text: Seq::empty() }
}

/// Adds to `result` what `element` finds in the tree under `root`.
pub open spec fn collect(result: SpecResult, element: SpecElement, root: SpecNode) -> SpecResult {
    match element {
        SpecElement::Headings => SpecResult {
            headings: result.headings + headings_in(root),
            ..result
        },
        SpecElement::Paragraphs => SpecResult {
            paragraphs: result.paragraphs + paragraphs_in(root),
            ..result
        },
        SpecElement::Text(pattern) => SpecResult {
            matching_text: result.matching_text + matching_in(root, pattern),
            ..result
        },
        SpecElement::All => SpecResult {
            headings: result.headings + headings_in(root),
            paragraphs: result.paragraphs + paragraphs_in(root),
            ..result
        },
    }
}

/// What `elements` find in the tree under `root`: each element adds its
/// finds behind those of the elements before it. Nothing is removed, so an
/// element that occurs twice adds its finds twice.
pub open spec fn run(elements: Seq<SpecElement>, root: SpecNode) -> SpecResult
    decreases elements.len(),
{
    if elements.len() == 0 {
        empty_result()
    } else {
        collect(run(elements.drop_last(), root), elements.last(), root)
    }
}

/// Puts the finds of `second` behind those of `first`, kind by kind.
pub open spec fn joined(first: SpecResult, second: SpecResult) -> SpecResult {
    SpecResult {
        headings: first.headings + second.headings,
        paragraphs: first.paragraphs + second.paragraphs,
        matching_text: first.matching_text + second.matching_text,
    }
}

/// Results accumulate: what two lists of elements find one after the other
/// is what the first finds with what the second finds behind it. Nothing is
/// merged or dropped.
pub proof fn lemma_run_accumulates(first: Seq<SpecElement>, second: Seq<SpecElement>, root: SpecNode)
    ensures
        run(first + second, root) == joined(run(first, root), run(second, root)),
    decreases second.len(),
{
    if second.len() == 0 {
        assert(first + second == first);
    } else {
        lemma_run_accumulates(first, second.drop_last(), root);
        assert((first + second).drop_last() == first + second.drop_last());
        let a = run(first, root);
        let b = run(second.drop_last(), root);
        assert((a.headings + b.headings) + headings_in(root) == a.headings + (b.headings
            + headings_in(root)));
        assert((a.paragraphs + b.paragraphs) + paragraphs_in(root) == a.paragraphs + (b.paragraphs
            + paragraphs_in(root)));
        match second.last() {
            SpecElement::Text(pattern) => {
                assert((a.matching_text + b.matching_text) + matching_in(root, pattern)
                    == a.matching_text + (b.matching_text + matching_in(root, pattern)));
            },
            _ => {},
        }
    }
}

/// What a single element finds.
pub proof fn lemma_run_single(element: SpecElement, root: SpecNode)
    ensures
        run(seq![element], root) == collect(empty_result(), element, root),
{
    reveal_with_fuel(run, 2);
}

/// Selecting everything finds the headings that selecting headings finds and
/// the paragraphs that selecting paragraphs finds, each in the same order,
/// and no text.
pub proof fn lemma_all_is_headings_and_paragraphs(root: SpecNode)
    ensures
        run(seq![SpecElement::All], root).headings == run(
            seq![SpecElement::Headings],
            root,
        ).headings,
        run(seq![SpecElement::All], root).paragraphs == run(
            seq![SpecElement::Paragraphs],
            root,
        ).paragraphs,
        run(seq![SpecElement::All], root).matching_text == Seq::<Seq<char>>::empty(),
        run(seq![SpecElement::All], root) == joined(
            run(seq![SpecElement::Headings], root),
            run(seq![SpecElement::Paragraphs], root),
        ),
{
    lemma_run_single(SpecElement::All, root);
    lemma_run_single(SpecElement::Headings, root);
    lemma_run_single(SpecElement::Paragraphs, root);
}

/// Only text elements find text: a query without one has no matching text.
pub proof fn lemma_text_only_from_text_elements(elements: Seq<SpecElement>, root: SpecNode)
    requires
        forall|i: int| 0 <= i < elements.len() ==> !(#[trigger] elements[i] is Text),
    ensures
        run(elements, root).matching_text == Seq::<Seq<char>>::empty(),
    decreases elements.len(),
{
    if elements.len() > 0 {
        lemma_text_only_from_text_elements(elements.drop_last(), root);
    }
}

/// Runs queries against Markdown documents.
pub struct MarkdownQueryExecutor;

impl MarkdownQueryExecutor {
    /// Runs `query` against a document, given what reading the file at the
    /// query's path gave: its text, or the failure.
    ///
    /// A failure to read comes back as `FileReadError` with the same cause.
    /// A text that the Markdown parser rejects comes back as
    /// `MarkdownParseError` with the parser's message. Otherwise the result
    /// is what the query's elements find in the parsed tree.
    pub fn execute_query(query: Query, loaded: Result<String, std::io::Error>) -> (outcome: Result<
        QueryResult,
        ExecutorError,
    >)
        ensures
            match loaded {
                Err(cause) => outcome matches Err(ExecutorError::FileReadError(kept)) && kept
                    == cause,
                Ok(text) => match markdown_tree(text@) {
                    Err(message) => outcome matches Err(ExecutorError::MarkdownParseError(kept))
                        && kept@ == message,
                    Ok(root) => outcome matches Ok(result) && result@ == run(
                        query@.elements,
                        root,
                    ),
                },
            },
    {
        match loaded {
            Ok(text) => Self::execute_on_parsed(&query, parse_document(text.as_str())),
            Err(cause) => Err(ExecutorError::FileReadError(cause)),
        }
    }

    /// Runs `query` against what parsing the document gave: its tree, or the
    /// parser's message, which comes back as `MarkdownParseError`.
    pub fn execute_on_parsed(query: &Query, parsed: Result<DocNode, String>) -> (outcome: Result<
        QueryResult,
        ExecutorError,
    >)
        ensures
            match parsed {
                Ok(root) => outcome matches Ok(result) && result@ == run(query@.elements, root@),
                Err(message) => outcome matches Err(ExecutorError::MarkdownParseError(kept))
                    && kept == message,
            },
    {
        match parsed {
            Ok(root) => Ok(Self::execute_on_tree(query, &root)),
            Err(message) => Err(ExecutorError::MarkdownParseError(message)),
        }
    }

    /// Runs `query` against a document tree.
    pub fn execute_on_tree(query: &Query, root: &DocNode) -> (result: QueryResult)
        ensures
            result@ == run(query@.elements, root@),
    {
        let mut headings: Vec<String> = Vec::new();
        let mut paragraphs: Vec<String> = Vec::new();
        let mut matching_text: Vec<String> = Vec::new();
        let ghost elements = query@.elements;
        let mut i: usize = 0;
        assert(headings.deep_view() == Seq::<Seq<char>>::empty());
        assert(paragraphs.deep_view() == Seq::<Seq<char>>::empty());
        assert(matching_text.deep_view() == Seq::<Seq<char>>::empty());
        while i < query.elements.len()
            invariant
                i <= query.elements.len(),
                elements == query@.elements,
                (SpecResult {
                    headings: headings.deep_view(),
                    paragraphs: paragraphs.deep_view(),
                    matching_text: matching_text.deep_view(),
                }) == run(elements.take(i as int), root@),
            decreases query.elements.len() - i,
        {
            assert(elements.take(i + 1).drop_last() == elements.take(i as int));
            match &query.elements[i] {
                Element::Headings => {
                    Self::extract_headings_recursive(root, &mut headings);
                },
                Element::Paragraphs => {
                    Self::extract_paragraphs_recursive(root, &mut paragraphs);
                },
                Element::Text(text) => {
                    Self::extract_matching_text_recursive(
                        root,
                        text.as_str(),
                        &mut matching_text,
                    );
                },
                Element::All => {
                    Self::extract_headings_recursive(root, &mut headings);
                    Self::extract_paragraphs_recursive(root, &mut paragraphs);
                },
            }
            i = i + 1;
        }
        assert(elements.take(i as int) == elements);
        QueryResult { headings, paragraphs, matching_text }
    }

    /// The headings of a document, in order.
    pub fn extract_headings(root: &DocNode) -> (headings: Vec<String>)
        ensures
            headings.deep_view() == headings_in(root@),
    {
        let mut headings: Vec<String> = Vec::new();
        Self::extract_headings_recursive(root, &mut headings);
        headings
    }

    fn extract_headings_recursive(node: &DocNode, headings: &mut Vec<String>)
        ensures
            final(headings).deep_view() == old(headings).deep_view() + headings_in(node@),
        decreases node,
    {
        let ghost before = headings.deep_view();
        match node {
            DocNode::Heading(children) => {
                let text = Self::heading_to_string(children);
                headings.push(text);
            },
            DocNode::Root(children) => {
                let mut i: usize = 0;
                while i < children.len()
                    invariant
                        i <= children.len(),
                        decreases_to!(node => children),
                        headings.deep_view() == before + headings_among(
                            nodes_view(children@.take(i as int)),
                        ),
                    decreases children.len() - i,
                {
                    proof {
                        lemma_nodes_view_take(children@, i as int);
                    }
                    Self::extract_headings_recursive(&children[i], headings);
                    i = i + 1;
                }
                assert(children@.take(i as int) == children@);
            },
            _ => {},
        }
    }

    /// The paragraphs of a document, in order.
    pub fn extract_paragraphs(root: &DocNode) -> (paragraphs: Vec<String>)
        ensures
            paragraphs.deep_view() == paragraphs_in(root@),
    {
        let mut paragraphs: Vec<String> = Vec::new();
        Self::extract_paragraphs_recursive(root, &mut paragraphs);
        paragraphs
    }

    fn extract_paragraphs_recursive(node: &DocNode, paragraphs: &mut Vec<String>)
        ensures
            final(paragraphs).deep_view() == old(paragraphs).deep_view() + paragraphs_in(node@),
        decreases node,
    {
        let ghost before = paragraphs.deep_view();
        match node {
            DocNode::Paragraph(children) => {
                let text = Self::paragraph_to_string(children);
                paragraphs.push(text);
            },
            DocNode::Root(children) => {
                let mut i: usize = 0;
                while i < children.len()
                    invariant
                        i <= children.len(),
                        decreases_to!(node => children),
                        paragraphs.deep_view() == before + paragraphs_among(
                            nodes_view(children@.take(i as int)),
                        ),
                    decreases children.len() - i,
                {
                    proof {
                        lemma_nodes_view_take(children@, i as int);
                    }
                    Self::extract_paragraphs_recursive(&children[i], paragraphs);
                    i = i + 1;
                }
                assert(children@.take(i as int) == children@);
            },
            _ => {},
        }
    }

    /// The text of a document that contains `text`, in order.
    pub fn extract_matching_text(root: &DocNode, text: &str) -> (matching_text: Vec<String>)
        ensures
            matching_text.deep_view() == matching_in(root@, text@),
    {
        let mut matching_text: Vec<String> = Vec::new();
        Self::extract_matching_text_recursive(root, text, &mut matching_text);
        matching_text
    }

    fn extract_matching_text_recursive(node: &DocNode, text: &str, matching_text: &mut Vec<String>)
        ensures
            final(matching_text).deep_view() == old(matching_text).deep_view() + matching_in(
                node@,
                text@,
            ),
        decreases node,
    {
        let ghost before = matching_text.deep_view();
        match node {
            DocNode::Text(value) => {
                if contains_text(value.as_str(), text) {
                    matching_text.push(value.clone());
                } else {
                }
            },
            DocNode::Root(children) | DocNode::Heading(children) | DocNode::Paragraph(children)
            | DocNode::Other(children) => {
                let mut i: usize = 0;
                while i < children.len()
                    invariant
                        i <= children.len(),
                        decreases_to!(node => children),
                        matching_text.deep_view() == before + matching_among(
                            nodes_view(children@.take(i as int)),
                            text@,
                        ),
                    decreases children.len() - i,
                {
                    proof {
                        lemma_nodes_view_take(children@, i as int);
                    }
                    Self::extract_matching_text_recursive(&children[i], text, matching_text);
                    i = i + 1;
                }
                assert(children@.take(i as int) == children@);
            },
        }
    }

    /// The text of a heading: the values of its direct text children.
    fn heading_to_string(children: &Vec<DocNode>) -> (text: String)
        ensures
            text@ == direct_text(nodes_view(children@)),
    {
        Self::children_to_string(children)
    }

    /// The text of a paragraph: the values of its direct text children.
    fn paragraph_to_string(children: &Vec<DocNode>) -> (text: String)
        ensures
            text@ == direct_text(nodes_view(children@)),
    {
        Self::children_to_string(children)
    }

    fn children_to_string(children: &Vec<DocNode>) -> (text: String)
        ensures
            text@ == direct_text(nodes_view(children@)),
    {
        let mut result = String::new();
        let mut i: usize = 0;
        while i < children.len()
            invariant
                i <= children.len(),
                result@ == direct_text(nodes_view(children@.take(i as int))),
            decreases children.len() - i,
        {
            proof {
                lemma_nodes_view_take(children@, i as int);
            }
            match &children[i] {
                DocNode::Text(value) => {
                    result.append(value.as_str());
                },
                _ => {},
            }
            i = i + 1;
        }
        assert(children@.take(i as int) == children@);
        result
    }
}

} // verus!
