use markdownql::document::{parse_document, DocNode};
use markdownql::executor::{ExecutorError, MarkdownQueryExecutor, QueryResult};
use markdownql::parser::{parse_query, Element, Query};
use markdownql::tokenizer::tokenize;

fn text(value: &str) -> DocNode {
    DocNode::Text(String::from(value))
}

fn query_of(line: &str) -> Query {
    parse_query(&tokenize(line).unwrap()).unwrap()
}

fn run_on_text(line: &str, content: &str) -> QueryResult {
    MarkdownQueryExecutor::execute_query(query_of(line), Ok(String::from(content))).unwrap()
}

fn strings(values: &[&str]) -> Vec<String> {
    values.iter().map(|value| String::from(*value)).collect()
}

fn sample_tree() -> DocNode {
    DocNode::Root(vec![
        DocNode::Heading(vec![text("One")]),
        DocNode::Paragraph(vec![text("first "), DocNode::Other(vec![text("em")]), text("para")]),
        DocNode::Other(vec![
            DocNode::Heading(vec![text("hidden heading")]),
            DocNode::Paragraph(vec![text("hidden paragraph")]),
        ]),
        DocNode::Root(vec![DocNode::Heading(vec![text("Two")]), DocNode::Paragraph(vec![])]),
        text("loose"),
    ])
}

#[test]
fn select_all_from_a_small_document() {
    let result = run_on_text("SELECT * FROM \"doc.md\"", "# Title\n\nSome text here.\n");
    assert_eq!(result.headings, strings(&["Title"]));
    assert_eq!(result.paragraphs, strings(&["Some text here."]));
    assert_eq!(result.matching_text, Vec::<String>::new());
}

#[test]
fn text_pattern_matches_by_substring() {
    let root = DocNode::Root(vec![text("hello world"), text("goodbye")]);
    assert_eq!(
        MarkdownQueryExecutor::extract_matching_text(&root, "wor"),
        strings(&["hello world"])
    );
    assert_eq!(MarkdownQueryExecutor::extract_matching_text(&root, "o"), strings(&["hello world", "goodbye"]));
    assert_eq!(MarkdownQueryExecutor::extract_matching_text(&root, "xyz"), Vec::<String>::new());
}

#[test]
fn text_pattern_is_case_sensitive() {
    let root = DocNode::Root(vec![text("hello world"), text("goodbye")]);
    assert_eq!(MarkdownQueryExecutor::extract_matching_text(&root, "WOR"), Vec::<String>::new());
    assert_eq!(MarkdownQueryExecutor::extract_matching_text(&root, "Hello"), Vec::<String>::new());
}

#[test]
fn empty_pattern_matches_every_text() {
    let root = DocNode::Root(vec![text("a"), text(""), text("b")]);
    assert_eq!(MarkdownQueryExecutor::extract_matching_text(&root, ""), strings(&["a", "", "b"]));
}

#[test]
fn pattern_longer_than_the_text_does_not_match() {
    let root = DocNode::Root(vec![text("ab")]);
    assert_eq!(MarkdownQueryExecutor::extract_matching_text(&root, "abc"), Vec::<String>::new());
    assert_eq!(MarkdownQueryExecutor::extract_matching_text(&root, "ab"), strings(&["ab"]));
}

#[test]
fn text_is_found_in_every_container() {
    let found = MarkdownQueryExecutor::extract_matching_text(&sample_tree(), "");
    assert_eq!(
        found,
        strings(&[
            "One",
            "first ",
            "em",
            "para",
            "hidden heading",
            "hidden paragraph",
            "Two",
            "loose"
        ])
    );
}

#[test]
fn text_of_a_lone_text_node_is_found() {
    assert_eq!(MarkdownQueryExecutor::extract_matching_text(&text("abc"), "b"), strings(&["abc"]));
}

#[test]
fn headings_are_found_through_roots_only() {
    assert_eq!(MarkdownQueryExecutor::extract_headings(&sample_tree()), strings(&["One", "Two"]));
}

#[test]
fn paragraphs_are_found_through_roots_only() {
    assert_eq!(
        MarkdownQueryExecutor::extract_paragraphs(&sample_tree()),
        strings(&["first para", ""])
    );
}

#[test]
fn a_heading_that_is_the_whole_tree_is_found() {
    let heading = DocNode::Heading(vec![text("a"), text("b")]);
    assert_eq!(MarkdownQueryExecutor::extract_headings(&heading), strings(&["ab"]));
    assert_eq!(MarkdownQueryExecutor::extract_paragraphs(&heading), Vec::<String>::new());
}

#[test]
fn text_and_other_nodes_have_no_headings() {
    assert_eq!(MarkdownQueryExecutor::extract_headings(&text("a")), Vec::<String>::new());
    let other = DocNode::Other(vec![DocNode::Heading(vec![text("a")])]);
    assert_eq!(MarkdownQueryExecutor::extract_headings(&other), Vec::<String>::new());
    assert_eq!(MarkdownQueryExecutor::extract_paragraphs(&other), Vec::<String>::new());
}

#[test]
fn all_is_headings_and_paragraphs_and_no_text() {
    let root = sample_tree();
    let all = MarkdownQueryExecutor::execute_on_tree(&query_of("SELECT * "), &root);
    let headings = MarkdownQueryExecutor::execute_on_tree(&query_of("SELECT headings "), &root);
    let paragraphs = MarkdownQueryExecutor::execute_on_tree(&query_of("SELECT paragraphs "), &root);
    assert_eq!(all.headings, headings.headings);
    assert_eq!(all.paragraphs, paragraphs.paragraphs);
    assert_eq!(all.headings, strings(&["One", "Two"]));
    assert_eq!(all.paragraphs, strings(&["first para", ""]));
    assert_eq!(all.matching_text, Vec::<String>::new());
    assert_eq!(headings.paragraphs, Vec::<String>::new());
    assert_eq!(paragraphs.headings, Vec::<String>::new());
}

#[test]
fn results_accumulate_without_deduplication() {
    let root = sample_tree();
    let query = Query {
        elements: vec![
            Element::Headings,
            Element::Text(String::from("T")),
            Element::All,
            Element::Text(String::from("loose")),
            Element::Headings,
        ],
        file_path: String::new(),
        condition: None,
    };
    let result = MarkdownQueryExecutor::execute_on_tree(&query, &root);
    assert_eq!(result.headings, strings(&["One", "Two", "One", "Two", "One", "Two"]));
    assert_eq!(result.paragraphs, strings(&["first para", ""]));
    assert_eq!(result.matching_text, strings(&["Two", "loose"]));
}

#[test]
fn empty_query_finds_nothing() {
    let query = Query { elements: vec![], file_path: String::new(), condition: None };
    let result = MarkdownQueryExecutor::execute_on_tree(&query, &sample_tree());
    assert_eq!(result.headings, Vec::<String>::new());
    assert_eq!(result.paragraphs, Vec::<String>::new());
    assert_eq!(result.matching_text, Vec::<String>::new());
}

#[test]
fn unreadable_file_is_a_file_read_error() {
    let cause = std::io::Error::new(std::io::ErrorKind::NotFound, "no such file");
    let outcome = MarkdownQueryExecutor::execute_query(query_of("SELECT * FROM \"x.md\""), Err(cause));
    match outcome {
        Err(ExecutorError::FileReadError(kept)) => {
            assert_eq!(kept.kind(), std::io::ErrorKind::NotFound);
            assert_eq!(format!("{}", kept), "no such file");
        }
        other => panic!("not a file read error: {:?}", other),
    }
}

#[test]
fn parser_failure_is_a_markdown_parse_error() {
    let query = query_of("SELECT * FROM \"x.md\"");
    let outcome =
        MarkdownQueryExecutor::execute_on_parsed(&query, Err(String::from("unexpected end")));
    match outcome {
        Err(ExecutorError::MarkdownParseError(message)) => assert_eq!(message, "unexpected end"),
        other => panic!("not a parse error: {:?}", other),
    }
}

#[test]
fn parsed_tree_is_queried() {
    let query = query_of("SELECT headings FROM \"x.md\"");
    let result = MarkdownQueryExecutor::execute_on_parsed(&query, Ok(sample_tree())).unwrap();
    assert_eq!(result.headings, strings(&["One", "Two"]));
    assert_eq!(result.paragraphs, Vec::<String>::new());
}

#[test]
fn heading_text_skips_nested_markup() {
    let result = run_on_text("SELECT headings FROM \"doc.md\"", "# Hey, *you*!\n");
    assert_eq!(result.headings, strings(&["Hey, !"]));
}

#[test]
fn nested_blocks_are_not_found_but_their_text_is() {
    let content = "# Top\n\n- item one\n- item two\n\n> ## Quoted\n\nlast\n";
    let result = run_on_text("SELECT * , text \"item\", text \"Quoted\" FROM \"doc.md\"", content);
    assert_eq!(result.headings, strings(&["Top"]));
    assert_eq!(result.paragraphs, strings(&["last"]));
    assert_eq!(result.matching_text, strings(&["item one", "item two", "Quoted"]));
}

#[test]
fn text_is_found_in_a_parsed_document() {
    let result = run_on_text("SELECT text \"wor\" FROM \"doc.md\"", "hello world\n\ngoodbye\n");
    assert_eq!(result.matching_text, strings(&["hello world"]));
    assert_eq!(result.headings, Vec::<String>::new());
    assert_eq!(result.paragraphs, Vec::<String>::new());
}

#[test]
fn empty_document_has_an_empty_root() {
    match parse_document("").unwrap() {
        DocNode::Root(children) => assert!(children.is_empty()),
        other => panic!("not a root: {:?}", other),
    }
    let result = run_on_text("SELECT * FROM \"doc.md\"", "");
    assert_eq!(result.headings, Vec::<String>::new());
    assert_eq!(result.paragraphs, Vec::<String>::new());
}

#[test]
fn parsed_document_keeps_kinds_and_order() {
    let document = parse_document("# A\n\nb *c* d\n\n---\n").unwrap();
    let children = match document {
        DocNode::Root(children) => children,
        other => panic!("not a root: {:?}", other),
    };
    assert_eq!(children.len(), 3);
    match &children[0] {
        DocNode::Heading(parts) => {
            assert_eq!(parts.len(), 1);
            assert!(matches!(&parts[0], DocNode::Text(value) if value == "A"));
        }
        other => panic!("not a heading: {:?}", other),
    }
    match &children[1] {
        DocNode::Paragraph(parts) => {
            assert_eq!(parts.len(), 3);
            assert!(matches!(&parts[0], DocNode::Text(value) if value == "b "));
            match &parts[1] {
                DocNode::Other(inner) => {
                    assert_eq!(inner.len(), 1);
                    assert!(matches!(&inner[0], DocNode::Text(value) if value == "c"));
                }
                other => panic!("not emphasis: {:?}", other),
            }
            assert!(matches!(&parts[2], DocNode::Text(value) if value == " d"));
        }
        other => panic!("not a paragraph: {:?}", other),
    }
    assert!(matches!(&children[2], DocNode::Other(inner) if inner.is_empty()));
}

#[test]
fn gfm_tables_are_parsed_as_other_nodes() {
    let document = parse_document("| a | b |\n| - | - |\n| c | d |\n").unwrap();
    let found = MarkdownQueryExecutor::extract_matching_text(&document, "");
    assert_eq!(found, strings(&["a", "b", "c", "d"]));
    assert_eq!(MarkdownQueryExecutor::extract_paragraphs(&document), Vec::<String>::new());
}
