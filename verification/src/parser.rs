//! The parser: a token sequence in, a [`Query`] out.
//!
//! The grammar is given by the recursive functions [`select_elements`] and
//! [`parse_from`]; [`parse_query`] is proved to compute [`parse`].

use crate::tokenizer::{Keyword, SpecToken, Token};
use vstd::prelude::*;

verus! {

/// Why a token sequence is no query.
#[derive(Debug, PartialEq)]
pub enum ParseError {
    /// A token stands where the grammar has no use for it.
    UnexpectedToken(Token),
    /// The tokens ended where one more was needed; also reported where
    /// `text` is followed by something other than a string literal.
    UnexpectedEndOfInput,
    /// The query has a `WHERE` clause. Conditions are part of the syntax but
    /// are not evaluated.
    UnsupportedFeature,
}

/// The model of a [`ParseError`].
pub enum SpecParseError {
    UnexpectedToken(SpecToken),
    UnexpectedEndOfInput,
    UnsupportedFeature,
}

impl View for ParseError {
    type V = SpecParseError;

    open spec fn view(&self) -> SpecParseError {
        match *self {
            ParseError::UnexpectedToken(token) => SpecParseError::UnexpectedToken(token@),
            ParseError::UnexpectedEndOfInput => SpecParseError::UnexpectedEndOfInput,
            ParseError::UnsupportedFeature => SpecParseError::UnsupportedFeature,
        }
    }
}

/// One thing a query asks for.
#[derive(Debug, PartialEq)]
pub enum Element {
    Headings,
    Paragraphs,
    /// The text nodes that contain this pattern.
    Text(String),
    /// Headings and paragraphs.
    All,
}

/// The model of an [`Element`].
pub enum SpecElement {
    Headings,
    Paragraphs,
    Text(Seq<char>),
    All,
}

impl View for Element {
    type V = SpecElement;

    open spec fn view(&self) -> SpecElement {
        match *self {
            Element::Headings => SpecElement::Headings,
            Element::Paragraphs => SpecElement::Paragraphs,
            Element::Text(pattern) => SpecElement::Text(pattern@),
            Element::All => SpecElement::All,
        }
    }
}

impl DeepView for Element {
    type V = SpecElement;

    open spec fn deep_view(&self) -> SpecElement {
        self@
    }
}

impl Clone for Element {
    fn clone(&self) -> (copy: Self)
        ensures
            copy == *self,
    {
        match self {
            Element::Headings => Element::Headings,
            Element::Paragraphs => Element::Paragraphs,
            Element::Text(pattern) => Element::Text(pattern.clone()),
            Element::All => Element::All,
        }
    }
}

/// A parsed query: what to select, from which file, and under which
/// condition. The path is empty where the query has no `FROM` clause.
#[derive(Debug, PartialEq)]
pub struct Query {
    pub elements: Vec<Element>,
    pub file_path: String,
    pub condition: Option<String>,
}

/// The model of a [`Query`].
pub struct SpecQuery {
    pub elements: Seq<SpecElement>,
    pub file_path: Seq<char>,
    pub condition: Option<Seq<char>>,
}

impl View for Query {
    type V = SpecQuery;

    open spec fn view(&self) -> SpecQuery {
        SpecQuery {
            elements: self.elements.deep_view(),
            file_path: self.file_path@,
            condition: match self.condition {
                Some(text) => Some(text@),
                None => None,
            },
        }
    }
}

impl Clone for Query {
    fn clone(&self) -> (copy: Self)
        ensures
            copy@ == self@,
    {
        let elements = self.elements.clone();
        let condition = match &self.condition {
            Some(text) => Some(text.clone()),
            None => None,
        };
        Query { elements, file_path: self.file_path.clone(), condition }
    }
}

/// The query before any clause has been read.
pub open spec fn empty_query() -> SpecQuery {
    SpecQuery { elements: Seq::empty(), file_path: Seq::empty(), condition: None }
}

/// `token` is the comma that separates two selectors.
pub open spec fn is_comma(token: SpecToken) -> bool {
    token matches SpecToken::Punctuation(mark, _, _) && mark == ','
}

/// The selector that starts at `pos`, with the position after it.
///
/// `*` selects everything; `headings` and `paragraphs` select by kind; `text`
/// takes the string literal after it as its pattern; any other identifier is
/// itself a text pattern.
pub open spec fn selector_at(tokens: Seq<SpecToken>, pos: int) -> Result<
    (SpecElement, int),
    SpecParseError,
>
    recommends
        0 <= pos < tokens.len(),
{
    match tokens[pos] {
        SpecToken::Keyword(Keyword::ALL, _, _) => Ok((SpecElement::All, pos + 1)),
        SpecToken::Identifier(name, _, _) => {
            if name == "headings"@ {
                Ok((SpecElement::Headings, pos + 1))
            } else if name == "paragraphs"@ {
                Ok((SpecElement::Paragraphs, pos + 1))
            } else if name == "text"@ {
                if pos + 1 < tokens.len() {
                    match tokens[pos + 1] {
                        SpecToken::StringLiteral(pattern, _, _) => Ok(
                            (SpecElement::Text(pattern), pos + 2),
                        ),
                        _ => Err(SpecParseError::UnexpectedEndOfInput),
                    }
                } else {
                    Err(SpecParseError::UnexpectedEndOfInput)
                }
            } else {
                Ok((SpecElement::Text(name), pos + 1))
            }
        },
        other => Err(SpecParseError::UnexpectedToken(other)),
    }
}

/// The selector list that starts at `pos`, with the position after it.
///
/// The list is a run of selectors, each followed by a comma except possibly
/// the last. It ends after a selector that no comma follows, or where the
/// tokens end (so it may be empty, and may end in a comma).
pub open spec fn select_elements(tokens: Seq<SpecToken>, pos: int) -> Result<
    (Seq<SpecElement>, int),
    SpecParseError,
>
    decreases tokens.len() - pos,
{
    if pos < 0 || pos >= tokens.len() {
        Ok((Seq::empty(), pos))
    } else {
        match selector_at(tokens, pos) {
            Err(error) => Err(error),
            Ok((element, next)) => {
                if next < tokens.len() && is_comma(tokens[next]) {
                    match select_elements(tokens, next + 1) {
                        Ok((rest, end)) => Ok((seq![element] + rest, end)),
                        Err(error) => Err(error),
                    }
                } else {
                    Ok((seq![element], next))
                }
            },
        }
    }
}

/// The file path that a `FROM` at `pos - 1` names: the token at `pos` must
/// be a string literal.
pub open spec fn file_path_at(tokens: Seq<SpecToken>, pos: int) -> Result<
    (Seq<char>, int),
    SpecParseError,
> {
    if 0 <= pos < tokens.len() {
        match tokens[pos] {
            SpecToken::StringLiteral(path, _, _) => Ok((path, pos + 1)),
            other => Err(SpecParseError::UnexpectedToken(other)),
        }
    } else {
        Err(SpecParseError::UnexpectedEndOfInput)
    }
}

/// A selector list ends after where it began.
pub proof fn lemma_select_advances(tokens: Seq<SpecToken>, pos: int)
    ensures
        select_elements(tokens, pos) matches Ok((_, end)) ==> pos <= end && (pos <= tokens.len()
            ==> end <= tokens.len()),
    decreases tokens.len() - pos,
{
    if 0 <= pos < tokens.len() {
        match selector_at(tokens, pos) {
            Err(_) => {},
            Ok((_, next)) => {
                if next < tokens.len() && is_comma(tokens[next]) {
                    lemma_select_advances(tokens, next + 1);
                }
            },
        }
    }
}

/// The query that the clauses from `pos` on make of `query`.
///
/// Each clause starts with a keyword. `SELECT` appends its selectors,
/// `FROM` replaces the path, `WHERE` fails, and a `*` between clauses is
/// skipped. Any other token between clauses is an error.
pub open spec fn parse_from(tokens: Seq<SpecToken>, pos: int, query: SpecQuery) -> Result<
    SpecQuery,
    SpecParseError,
>
    decreases tokens.len() - pos,
{
    if pos < 0 || pos >= tokens.len() {
        Ok(query)
    } else {
        match tokens[pos] {
            SpecToken::Keyword(Keyword::SELECT, _, _) => match select_elements(tokens, pos + 1) {
                Ok((elements, next)) => {
                    proof {
                        lemma_select_advances(tokens, pos + 1);
                    }
                    parse_from(
                        tokens,
                        next,
                        SpecQuery { elements: query.elements + elements, ..query },
                    )
                },
                Err(error) => Err(error),
            },
            SpecToken::Keyword(Keyword::FROM, _, _) => match file_path_at(tokens, pos + 1) {
                Ok((path, next)) => parse_from(tokens, next, SpecQuery { file_path: path, ..query }),
                Err(error) => Err(error),
            },
            SpecToken::Keyword(Keyword::WHERE, _, _) => Err(SpecParseError::UnsupportedFeature),
            SpecToken::Keyword(Keyword::ALL, _, _) => parse_from(tokens, pos + 1, query),
            other => Err(SpecParseError::UnexpectedToken(other)),
        }
    }
}

/// The query that `tokens` spell, or the first error.
pub open spec fn parse(tokens: Seq<SpecToken>) -> Result<SpecQuery, SpecParseError> {
    parse_from(tokens, 0, empty_query())
}

/// The clauses leave the condition of a query as it was.
pub proof fn lemma_parse_from_keeps_condition(tokens: Seq<SpecToken>, pos: int, query: SpecQuery)
    ensures
        parse_from(tokens, pos, query) matches Ok(parsed) ==> parsed.condition == query.condition,
    decreases tokens.len() - pos,
{
    if 0 <= pos < tokens.len() {
        match tokens[pos] {
            SpecToken::Keyword(Keyword::SELECT, _, _) => match select_elements(tokens, pos + 1) {
                Ok((elements, next)) => {
                    lemma_select_advances(tokens, pos + 1);
                    lemma_parse_from_keeps_condition(
                        tokens,
                        next,
                        SpecQuery { elements: query.elements + elements, ..query },
                    );
                },
                Err(_) => {},
            },
            SpecToken::Keyword(Keyword::FROM, _, _) => match file_path_at(tokens, pos + 1) {
                Ok((path, next)) => {
                    lemma_parse_from_keeps_condition(
                        tokens,
                        next,
                        SpecQuery { file_path: path, ..query },
                    );
                },
                Err(_) => {},
            },
            SpecToken::Keyword(Keyword::ALL, _, _) => {
                lemma_parse_from_keeps_condition(tokens, pos + 1, query);
            },
            _ => {},
        }
    }
}

/// A query that parses has no condition: a `WHERE` clause is an error.
pub proof fn lemma_parse_has_no_condition(tokens: Seq<SpecToken>)
    ensures
        parse(tokens) matches Ok(query) ==> query.condition is None,
{
    lemma_parse_from_keeps_condition(tokens, 0, empty_query());
}

/// Puts the selectors already read in front of a result for the rest.
pub open spec fn prepend(
    done: Seq<SpecElement>,
    rest: Result<(Seq<SpecElement>, int), SpecParseError>,
) -> Result<(Seq<SpecElement>, int), SpecParseError> {
    match rest {
        Ok((more, end)) => Ok((done + more, end)),
        Err(error) => Err(error),
    }
}

/// Parses the one selector that starts at `pos` and returns it with the
/// position after it.
fn parse_selector(tokens: &[Token], pos: usize) -> (outcome: Result<(Element, usize), ParseError>)
    requires
        pos < tokens.len(),
    ensures
        match selector_at(tokens.deep_view(), pos as int) {
            Ok((element, end)) => outcome matches Ok((parsed, next)) && parsed@ == element && next
                == end,
            Err(error) => outcome matches Err(reported) && reported@ == error,
        },
{
    match &tokens[pos] {
        Token::Keyword(Keyword::ALL, _, _) => Ok((Element::All, pos + 1)),
        Token::Identifier(name, _, _) => {
            if name.as_str().eq("headings") {
                Ok((Element::Headings, pos + 1))
            } else if name.as_str().eq("paragraphs") {
                Ok((Element::Paragraphs, pos + 1))
            } else if name.as_str().eq("text") {
                if pos + 1 >= tokens.len() {
                    return Err(ParseError::UnexpectedEndOfInput);
                }
                match &tokens[pos + 1] {
                    Token::StringLiteral(pattern, _, _) => Ok(
                        (Element::Text(pattern.clone()), pos + 2),
                    ),
                    _ => Err(ParseError::UnexpectedEndOfInput),
                }
            } else {
                Ok((Element::Text(name.clone()), pos + 1))
            }
        },
        other => Err(ParseError::UnexpectedToken(other.clone())),
    }
}

/// Whether a comma stands at `pos`.
fn comma_at(tokens: &[Token], pos: usize) -> (found: bool)
    ensures
        found == (pos < tokens.len() && is_comma(tokens.deep_view()[pos as int])),
{
    if pos < tokens.len() {
        match &tokens[pos] {
            Token::Punctuation(mark, _, _) => *mark == ',',
            _ => false,
        }
    } else {
        false
    }
}

/// Parses the selector list that starts at `start` and returns it with the
/// position of the first token after it.
pub fn parse_select(tokens: &[Token], start: usize) -> (outcome: Result<
    (Vec<Element>, usize),
    ParseError,
>)
    ensures
        match select_elements(tokens.deep_view(), start as int) {
            Ok((elements, end)) => outcome matches Ok((parsed, next)) && parsed.deep_view()
                == elements && next == end,
            Err(error) => outcome matches Err(reported) && reported@ == error,
        },
{
    let ghost model = tokens.deep_view();
    let mut elements: Vec<Element> = Vec::new();
    let mut pos: usize = start;
    assert(select_elements(model, start as int) == prepend(
        elements.deep_view(),
        select_elements(model, pos as int),
    )) by {
        match select_elements(model, pos as int) {
            Ok((more, end)) => assert(elements.deep_view() + more =~= more),
            Err(_) => {},
        }
    }
    while pos < tokens.len()
        invariant
            model == tokens.deep_view(),
            select_elements(model, start as int) == prepend(
                elements.deep_view(),
                select_elements(model, pos as int),
            ),
        decreases tokens.len() - pos,
    {
        let ghost before = elements.deep_view();
        let (element, next) = match parse_selector(tokens, pos) {
            Ok(selected) => selected,
            Err(error) => {
                return Err(error);
            },
        };
        let ghost added = element@;
        elements.push(element);
        assert(elements.deep_view() =~= before + seq![added]);
        if !comma_at(tokens, next) {
            return Ok((elements, next));
        }
        proof {
            match select_elements(model, next + 1) {
                Ok((rest, end)) => assert(before + (seq![added] + rest) =~= (before + seq![
                    added,
                ]) + rest),
                Err(_) => {},
            }
        }
        pos = next + 1;
    }
    Ok((elements, pos))
}

/// Reads the path after `FROM`: the token at `pos` must be a string literal.
pub fn parse_file_path(tokens: &[Token], pos: usize) -> (outcome: Result<
    (String, usize),
    ParseError,
>)
    ensures
        match file_path_at(tokens.deep_view(), pos as int) {
            Ok((path, end)) => outcome matches Ok((parsed, next)) && parsed@ == path && next
                == end,
            Err(error) => outcome matches Err(reported) && reported@ == error,
        },
{
    if pos < tokens.len() {
        match &tokens[pos] {
            Token::StringLiteral(path, _, _) => Ok((path.clone(), pos + 1)),
            other => Err(ParseError::UnexpectedToken(other.clone())),
        }
    } else {
        Err(ParseError::UnexpectedEndOfInput)
    }
}

/// Reads the condition after `WHERE`. Conditions are not supported, so this
/// fails on every input.
pub fn parse_condition(tokens: &[Token], pos: usize) -> (outcome: Result<
    (Option<String>, usize),
    ParseError,
>)
    ensures
        outcome matches Err(reported) && reported@ == SpecParseError::UnsupportedFeature,
{
    Err(ParseError::UnsupportedFeature)
}

/// Parses a token sequence into a query.
///
/// The result is exactly [`parse`] of the tokens. Selectors keep the order
/// they were written in, and a later `SELECT` adds to an earlier one.
pub fn parse_query(tokens: &[Token]) -> (outcome: Result<Query, ParseError>)
    ensures
        match parse(tokens.deep_view()) {
            Ok(query) => outcome matches Ok(parsed) && parsed@ == query,
            Err(error) => outcome matches Err(reported) && reported@ == error,
        },
{
    let ghost model = tokens.deep_view();
    let mut query = Query { elements: Vec::new(), file_path: String::new(), condition: None };
    let mut pos: usize = 0;
    assert(query.elements.deep_view() =~= Seq::<SpecElement>::empty());
    while pos < tokens.len()
        invariant
            model == tokens.deep_view(),
            parse(model) == parse_from(model, pos as int, query@),
        decreases tokens.len() - pos,
    {
        match &tokens[pos] {
            Token::Keyword(Keyword::SELECT, _, _) => {
                proof {
                    lemma_select_advances(model, pos + 1);
                }
                match parse_select(tokens, pos + 1) {
                    Ok((mut elements, next)) => {
                        let ghost before = query@;
                        let ghost added = elements.deep_view();
                        query.elements.append(&mut elements);
                        assert(query.elements.deep_view() =~= before.elements + added);
                        pos = next;
                    },
                    Err(error) => {
                        return Err(error);
                    },
                }
            },
            Token::Keyword(Keyword::FROM, _, _) => {
                match parse_file_path(tokens, pos + 1) {
                    Ok((path, next)) => {
                        query.file_path = path;
                        pos = next;
                    },
                    Err(error) => {
                        return Err(error);
                    },
                }
            },
            Token::Keyword(Keyword::WHERE, _, _) => {
                match parse_condition(tokens, pos + 1) {
                    Ok((condition, next)) => {
                        query.condition = condition;
                        pos = next;
                    },
                    Err(error) => {
                        return Err(error);
                    },
                }
            },
            Token::Keyword(Keyword::ALL, _, _) => {
                pos = pos + 1;
            },
            other => {
                return Err(ParseError::UnexpectedToken(other.clone()));
            },
        }
    }
    Ok(query)
}

} // verus!
