use markdownql::parser::{
    parse_condition, parse_file_path, parse_query, parse_select, Element, ParseError, Query,
};
use markdownql::tokenizer::{tokenize, Keyword, Token};

fn parse_text(text: &str) -> Result<Query, ParseError> {
    parse_query(&tokenize(text).unwrap())
}

#[test]
fn test_parse_query_simple() {
    let tokens = vec![
        Token::Keyword(Keyword::SELECT, 1, 1),
        Token::Keyword(Keyword::ALL, 1, 8),
        Token::Keyword(Keyword::FROM, 1, 10),
        Token::StringLiteral(String::from("examples/posts/hello-world.md"), 1, 16),
    ];

    let expected_query = Query {
        elements: vec![Element::All],
        file_path: String::from("examples/posts/hello-world.md"),
        condition: None,
    };

    assert_eq!(parse_query(&tokens).unwrap(), expected_query);
}

#[test]
fn no_tokens_make_the_empty_query() {
    let expected = Query { elements: vec![], file_path: String::new(), condition: None };
    assert_eq!(parse_query(&[]).unwrap(), expected);
}

#[test]
fn selectors_keep_their_order() {
    let query = parse_text("SELECT headings, paragraphs FROM \"x.md\"").unwrap();
    assert_eq!(query.elements, vec![Element::Headings, Element::Paragraphs]);
    assert_eq!(query.file_path, "x.md");
    assert_eq!(query.condition, None);

    let query = parse_text("SELECT paragraphs, headings FROM \"x.md\"").unwrap();
    assert_eq!(query.elements, vec![Element::Paragraphs, Element::Headings]);
}

#[test]
fn repeated_selectors_are_kept() {
    let query = parse_text("SELECT headings, * , headings FROM \"x.md\"").unwrap();
    assert_eq!(query.elements, vec![Element::Headings, Element::All, Element::Headings]);
}

#[test]
fn unknown_selector_is_a_text_pattern() {
    let query = parse_text("SELECT foo FROM \"x.md\"").unwrap();
    assert_eq!(query.elements, vec![Element::Text(String::from("foo"))]);
    assert_eq!(query.file_path, "x.md");
}

#[test]
fn selector_names_are_case_sensitive() {
    let query = parse_text("SELECT Headings, TEXT FROM \"x.md\"").unwrap();
    assert_eq!(
        query.elements,
        vec![Element::Text(String::from("Headings")), Element::Text(String::from("TEXT"))]
    );
}

#[test]
fn text_takes_the_string_after_it() {
    let query = parse_text("SELECT headings, text \"draft\" FROM \"notes.md\"").unwrap();
    assert_eq!(query.elements, vec![Element::Headings, Element::Text(String::from("draft"))]);
    assert_eq!(query.file_path, "notes.md");
}

#[test]
fn text_without_a_string_is_an_end_of_input_error() {
    assert_eq!(parse_text("SELECT text FROM \"x.md\"").unwrap_err(), ParseError::UnexpectedEndOfInput);
    assert_eq!(parse_text("SELECT text, headings").unwrap_err(), ParseError::UnexpectedEndOfInput);
    let tokens = vec![
        Token::Keyword(Keyword::SELECT, 1, 1),
        Token::Identifier(String::from("text"), 1, 8),
    ];
    assert_eq!(parse_query(&tokens).unwrap_err(), ParseError::UnexpectedEndOfInput);
}

#[test]
fn star_directly_before_a_comma_is_a_text_pattern() {
    let query = parse_text("SELECT *, headings FROM \"x.md\"").unwrap();
    assert_eq!(query.elements, vec![Element::Text(String::from("*")), Element::Headings]);
}

#[test]
fn later_select_adds_to_an_earlier_one() {
    let query = parse_text("SELECT headings SELECT foo, * FROM \"x.md\"").unwrap();
    assert_eq!(
        query.elements,
        vec![Element::Headings, Element::Text(String::from("foo")), Element::All]
    );
}

#[test]
fn later_from_replaces_an_earlier_one() {
    let query = parse_text("FROM \"a.md\" SELECT * FROM \"b.md\"").unwrap();
    assert_eq!(query.elements, vec![Element::All]);
    assert_eq!(query.file_path, "b.md");
}

#[test]
fn query_without_from_has_an_empty_path() {
    let query = parse_text("SELECT headings ").unwrap();
    assert_eq!(query.elements, vec![Element::Headings]);
    assert_eq!(query.file_path, "");
}

#[test]
fn star_between_clauses_is_skipped() {
    let query = parse_text("* SELECT headings * FROM \"x.md\" * ").unwrap();
    assert_eq!(query.elements, vec![Element::Headings]);
    assert_eq!(query.file_path, "x.md");
}

#[test]
fn select_list_may_be_empty_or_end_in_a_comma() {
    let tokens = vec![Token::Keyword(Keyword::SELECT, 1, 1)];
    assert_eq!(parse_query(&tokens).unwrap().elements, vec![]);

    let tokens = vec![
        Token::Keyword(Keyword::SELECT, 1, 1),
        Token::Identifier(String::from("a"), 1, 8),
        Token::Punctuation(',', 1, 9),
    ];
    assert_eq!(parse_query(&tokens).unwrap().elements, vec![Element::Text(String::from("a"))]);
}

#[test]
fn token_that_starts_no_clause_is_unexpected() {
    assert_eq!(
        parse_text("foo ").unwrap_err(),
        ParseError::UnexpectedToken(Token::Identifier(String::from("foo"), 1, 1))
    );
    assert_eq!(
        parse_text("\"x.md\"").unwrap_err(),
        ParseError::UnexpectedToken(Token::StringLiteral(String::from("x.md"), 1, 2))
    );
    assert_eq!(
        parse_text("SELECT a . b").unwrap_err(),
        ParseError::UnexpectedToken(Token::Punctuation('.', 1, 10))
    );
}

#[test]
fn token_that_is_no_selector_is_unexpected() {
    assert_eq!(
        parse_text("SELECT , a").unwrap_err(),
        ParseError::UnexpectedToken(Token::Punctuation(',', 1, 8))
    );
    assert_eq!(
        parse_text("SELECT FROM \"x.md\"").unwrap_err(),
        ParseError::UnexpectedToken(Token::Keyword(Keyword::FROM, 1, 8))
    );
    assert_eq!(
        parse_text("SELECT a, FROM \"x.md\"").unwrap_err(),
        ParseError::UnexpectedToken(Token::Keyword(Keyword::FROM, 1, 11))
    );
    assert_eq!(
        parse_text("SELECT \"a\" ").unwrap_err(),
        ParseError::UnexpectedToken(Token::StringLiteral(String::from("a"), 1, 9))
    );
}

#[test]
fn from_needs_a_string_literal() {
    assert_eq!(
        parse_text("SELECT * FROM x ").unwrap_err(),
        ParseError::UnexpectedToken(Token::Identifier(String::from("x"), 1, 15))
    );
    assert_eq!(parse_text("SELECT * FROM ").unwrap_err(), ParseError::UnexpectedEndOfInput);
}

#[test]
fn where_clause_is_not_supported() {
    assert_eq!(
        parse_text("SELECT * FROM \"x.md\" WHERE a ").unwrap_err(),
        ParseError::UnsupportedFeature
    );
    assert_eq!(parse_text("WHERE ").unwrap_err(), ParseError::UnsupportedFeature);
}

#[test]
fn the_first_error_is_reported() {
    assert_eq!(
        parse_text("SELECT * FROM x WHERE y ").unwrap_err(),
        ParseError::UnexpectedToken(Token::Identifier(String::from("x"), 1, 15))
    );
}

#[test]
fn parse_select_stops_before_the_next_clause() {
    let tokens = tokenize("SELECT headings, foo FROM \"x.md\"").unwrap();
    let (elements, next) = parse_select(&tokens, 1).unwrap();
    assert_eq!(elements, vec![Element::Headings, Element::Text(String::from("foo"))]);
    assert_eq!(next, 4);
    assert_eq!(tokens[next], Token::Keyword(Keyword::FROM, 1, 22));
}

#[test]
fn parse_select_at_the_end_is_empty() {
    let tokens = tokenize("SELECT headings ").unwrap();
    assert_eq!(parse_select(&tokens, 2).unwrap(), (vec![], 2));
    assert_eq!(parse_select(&tokens, 7).unwrap(), (vec![], 7));
}

#[test]
fn parse_file_path_reads_one_string() {
    let tokens = tokenize("FROM \"x.md\" SELECT").unwrap();
    assert_eq!(parse_file_path(&tokens, 1).unwrap(), (String::from("x.md"), 2));
    assert_eq!(
        parse_file_path(&tokens, 0).unwrap_err(),
        ParseError::UnexpectedToken(Token::Keyword(Keyword::FROM, 1, 1))
    );
    assert_eq!(parse_file_path(&tokens, 3).unwrap_err(), ParseError::UnexpectedEndOfInput);
}

#[test]
fn parse_condition_always_fails() {
    let tokens = tokenize("WHERE a b ").unwrap();
    assert_eq!(parse_condition(&tokens, 1).unwrap_err(), ParseError::UnsupportedFeature);
    assert_eq!(parse_condition(&[], 0).unwrap_err(), ParseError::UnsupportedFeature);
}

#[test]
fn query_and_element_clone_are_equal() {
    let query = parse_text("SELECT headings, text \"a\" FROM \"x.md\"").unwrap();
    assert_eq!(query.clone(), query);
    let element = Element::Text(String::from("a"));
    assert_eq!(element.clone(), element);
}

#[test]
fn tokenize_then_parse_gives_back_what_was_written() {
    let query = parse_text("select * , headings, paragraphs, text \"a \\\"b\\\"\", other from \"dir/my file.md\"")
        .unwrap();
    assert_eq!(
        query,
        Query {
            elements: vec![
                Element::All,
                Element::Headings,
                Element::Paragraphs,
                Element::Text(String::from("a \"b\"")),
                Element::Text(String::from("other")),
            ],
            file_path: String::from("dir/my file.md"),
            condition: None,
        }
    );
}
