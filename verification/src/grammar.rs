//! The written form of queries, and the law that ties the lexer and the
//! parser together: a query that is written down by the grammar is read back
//! as the same query.
//!
//! ```text
//! <select> <selector>[, <selector>...] <from> "<path>"
//! selector := '*' | headings | paragraphs | text "<pattern>" | <identifier>
//! ```
//!
//! Keywords may be spelled in any case and white space may be any run of
//! white-space characters; [`WrittenQuery`] records both.

use crate::parser::{
    empty_query, file_path_at, is_comma, parse, parse_from, select_elements, selector_at,
    SpecElement, SpecParseError, SpecQuery,
};
use crate::text::{unicode_uppercase, unicode_whitespace};
use crate::tokenizer::{
    advance, escaped_char, keyword_named, lex, lex_run, lex_start, lex_step, start_column,
    word_token, Keyword, LexState, SpecToken,
};
use vstd::prelude::*;

verus! {

/// A token without its position.
pub enum Lexeme {
    Keyword(Keyword),
    Identifier(Seq<char>),
    Punctuation(char),
    StringLiteral(Seq<char>),
}

/// The token without its position.
pub open spec fn lexeme_of(token: SpecToken) -> Lexeme {
    match token {
        SpecToken::Keyword(keyword, _, _) => Lexeme::Keyword(keyword),
        SpecToken::Identifier(text, _, _) => Lexeme::Identifier(text),
        SpecToken::Punctuation(mark, _, _) => Lexeme::Punctuation(mark),
        SpecToken::StringLiteral(text, _, _) => Lexeme::StringLiteral(text),
    }
}

/// The tokens without their positions.
pub open spec fn lexemes_of(tokens: Seq<SpecToken>) -> Seq<Lexeme> {
    Seq::new(tokens.len(), |i: int| lexeme_of(tokens[i]))
}

/// What white space makes of the word `word`: a keyword or an identifier.
pub open spec fn word_lexeme(word: Seq<char>) -> Lexeme {
    match keyword_named(unicode_uppercase(word)) {
        Some(keyword) => Lexeme::Keyword(keyword),
        None => Lexeme::Identifier(word),
    }
}

/// What white space makes of the buffer: nothing if it is empty.
pub open spec fn flushed_word(buffer: Seq<char>) -> Seq<Lexeme> {
    if buffer.len() > 0 {
        seq![word_lexeme(buffer)]
    } else {
        Seq::empty()
    }
}

/// What a comma makes of the buffer: an identifier, or nothing if it is
/// empty.
pub open spec fn flushed_identifier(buffer: Seq<char>) -> Seq<Lexeme> {
    if buffer.len() > 0 {
        seq![Lexeme::Identifier(buffer)]
    } else {
        Seq::empty()
    }
}

/// `c` separates lexemes: it is white space, and none of the quote, the
/// comma and the period, which the lexer recognises first.
pub open spec fn is_space_char(c: char) -> bool {
    unicode_whitespace(c) && c != '"' && c != ',' && c != '.'
}

/// Every character of `text` is a separator.
pub open spec fn is_space(text: Seq<char>) -> bool {
    forall|i: int| 0 <= i < text.len() ==> is_space_char(#[trigger] text[i])
}

/// `c` can stand in a word: it is no white space, quote, comma or period.
pub open spec fn is_word_char(c: char) -> bool {
    !unicode_whitespace(c) && c != '"' && c != ',' && c != '.'
}

/// `text` is a word: a non-empty run of word characters.
pub open spec fn is_word(text: Seq<char>) -> bool {
    text.len() > 0 && forall|i: int| 0 <= i < text.len() ==> is_word_char(#[trigger] text[i])
}

/// The lexer is between two lexemes of the default mode or inside a word:
/// no string is open.
pub open spec fn in_default_mode(state: LexState) -> bool {
    !state.in_string && !state.escape
}

/// From `before`, the lexer has emitted `emitted` and now holds `buffer`,
/// outside or inside a string; positions are left open.
pub open spec fn reaches(
    before: LexState,
    after: LexState,
    emitted: Seq<Lexeme>,
    buffer: Seq<char>,
    in_string: bool,
) -> bool {
    &&& lexemes_of(after.tokens) == lexemes_of(before.tokens) + emitted
    &&& after.buffer == buffer
    &&& after.in_string == in_string
    &&& !after.escape
}

/// Reading a text in two parts is reading the first and then the second.
pub proof fn lemma_run_concat(state: LexState, first: Seq<char>, second: Seq<char>)
    ensures
        lex_run(state, first + second) == match lex_run(state, first) {
            Ok(middle) => lex_run(middle, second),
            Err(error) => Err(error),
        },
    decreases second.len(),
{
    if second.len() == 0 {
        assert(first + second == first);
    } else {
        assert((first + second).drop_last() == first + second.drop_last());
        lemma_run_concat(state, first, second.drop_last());
    }
}

/// Reading one character is one step.
pub proof fn lemma_run_one(state: LexState, c: char)
    ensures
        lex_run(state, seq![c]) == lex_step(state, c, unicode_whitespace(c)),
{
    reveal_with_fuel(lex_run, 2);
}

/// Emitting a token adds its lexeme.
pub proof fn lemma_lexemes_push(tokens: Seq<SpecToken>, token: SpecToken)
    ensures
        lexemes_of(tokens.push(token)) == lexemes_of(tokens).push(lexeme_of(token)),
{
}

/// A word is collected in the buffer and emits nothing.
pub proof fn lemma_run_word(state: LexState, word: Seq<char>)
    requires
        in_default_mode(state),
        forall|i: int| 0 <= i < word.len() ==> is_word_char(#[trigger] word[i]),
    ensures
        lex_run(state, word) matches Ok(after) && reaches(
            state,
            after,
            Seq::empty(),
            state.buffer + word,
            false,
        ),
    decreases word.len(),
{
    if word.len() == 0 {
        assert(state.buffer + word == state.buffer);
    } else {
        lemma_run_word(state, word.drop_last());
        let before = lex_run(state, word.drop_last())->Ok_0;
        assert(before.buffer.push(word.last()) == state.buffer + word);
    }
}

/// White space ends the word in the buffer, if there is one, and is
/// otherwise skipped.
pub proof fn lemma_run_space(state: LexState, space: Seq<char>)
    requires
        in_default_mode(state),
        is_space(space),
    ensures
        lex_run(state, space) matches Ok(after) && reaches(
            state,
            after,
            if space.len() > 0 {
                flushed_word(state.buffer)
            } else {
                Seq::empty()
            },
            if space.len() > 0 {
                Seq::empty()
            } else {
                state.buffer
            },
            false,
        ),
    decreases space.len(),
{
    if space.len() > 0 {
        lemma_run_space(state, space.drop_last());
        let before = lex_run(state, space.drop_last())->Ok_0;
        let at = advance(before, space.last());
        if before.buffer.len() > 0 {
            // Only the first white-space character finds a word to end.
            let token = word_token(at.buffer, at.line, start_column(at.column, at.buffer));
            lemma_lexemes_push(before.tokens, token);
        } else {
            assert(before.buffer == Seq::<char>::empty());
        }
    }
}

/// A comma ends the word in the buffer as an identifier, if there is one,
/// and is emitted itself.
pub proof fn lemma_run_comma(state: LexState)
    requires
        in_default_mode(state),
    ensures
        lex_run(state, seq![',']) matches Ok(after) && reaches(
            state,
            after,
            flushed_identifier(state.buffer).push(Lexeme::Punctuation(',')),
            Seq::empty(),
            false,
        ),
{
    lemma_run_one(state, ',');
    let at = advance(state, ',');
    let word = SpecToken::Identifier(
        at.buffer,
        at.line,
        start_column(at.column, at.buffer),
    );
    let mark = SpecToken::Punctuation(',', at.line, at.column);
    if state.buffer.len() > 0 {
        lemma_lexemes_push(state.tokens, word);
        lemma_lexemes_push(state.tokens.push(word), mark);
        assert(lexemes_of(state.tokens).push(lexeme_of(word)).push(lexeme_of(mark))
            == lexemes_of(state.tokens) + flushed_identifier(state.buffer).push(
            Lexeme::Punctuation(','),
        ));
    } else {
        lemma_lexemes_push(state.tokens, mark);
        assert(lexemes_of(state.tokens).push(lexeme_of(mark)) == lexemes_of(state.tokens)
            + flushed_identifier(state.buffer).push(Lexeme::Punctuation(',')));
    }
}

/// One character of a string literal as it is written: by itself, or as a
/// backslash and a letter.
pub enum Piece {
    Plain(char),
    Escaped(char),
}

impl Piece {
    /// A plain piece is neither a quote nor a backslash; an escaped piece has
    /// one of the four letters that may follow a backslash.
    pub open spec fn well_formed(self) -> bool {
        match self {
            Piece::Plain(c) => c != '"' && c != '\\',
            Piece::Escaped(letter) => escaped_char(letter) is Some,
        }
    }

    /// The character the piece stands for.
    pub open spec fn value(self) -> char {
        match self {
            Piece::Plain(c) => c,
            Piece::Escaped(letter) => escaped_char(letter)->0,
        }
    }

    /// The characters the piece is written with.
    pub open spec fn text(self) -> Seq<char> {
        match self {
            Piece::Plain(c) => seq![c],
            Piece::Escaped(letter) => seq!['\\', letter],
        }
    }
}

/// Every piece is well formed.
pub open spec fn pieces_well_formed(pieces: Seq<Piece>) -> bool {
    forall|i: int| 0 <= i < pieces.len() ==> (#[trigger] pieces[i]).well_formed()
}

/// The string that the pieces stand for.
pub open spec fn pieces_value(pieces: Seq<Piece>) -> Seq<char> {
    Seq::new(pieces.len(), |i: int| pieces[i].value())
}

/// The characters that the pieces are written with, in order.
pub open spec fn pieces_text(pieces: Seq<Piece>) -> Seq<char>
    decreases pieces.len(),
{
    if pieces.len() == 0 {
        Seq::empty()
    } else {
        pieces_text(pieces.drop_last()) + pieces.last().text()
    }
}

/// A string literal as it is written: the pieces between two quotes.
pub open spec fn quoted(pieces: Seq<Piece>) -> Seq<char> {
    seq!['"'] + pieces_text(pieces) + seq!['"']
}

/// Inside a string, the pieces add the characters they stand for to the
/// buffer.
pub proof fn lemma_run_pieces(state: LexState, pieces: Seq<Piece>)
    requires
        state.in_string,
        !state.escape,
        pieces_well_formed(pieces),
    ensures
        lex_run(state, pieces_text(pieces)) matches Ok(after) && reaches(
            state,
            after,
            Seq::empty(),
            state.buffer + pieces_value(pieces),
            true,
        ),
    decreases pieces.len(),
{
    if pieces.len() == 0 {
        assert(state.buffer + pieces_value(pieces) == state.buffer);
    } else {
        let front = pieces.drop_last();
        let last = pieces.last();
        lemma_run_pieces(state, front);
        lemma_run_concat(state, pieces_text(front), last.text());
        let before = lex_run(state, pieces_text(front))->Ok_0;
        assert((state.buffer + pieces_value(front)).push(last.value()) == state.buffer
            + pieces_value(pieces));
        match last {
            Piece::Plain(c) => {
                lemma_run_one(before, c);
            },
            Piece::Escaped(letter) => {
                assert(seq!['\\', letter] == seq!['\\'] + seq![letter]);
                lemma_run_concat(before, seq!['\\'], seq![letter]);
                lemma_run_one(before, '\\');
                let slashed = lex_run(before, seq!['\\'])->Ok_0;
                lemma_run_one(slashed, letter);
            },
        }
    }
}

/// A string literal is emitted with the characters its pieces stand for,
/// behind what the buffer held when the quote opened.
pub proof fn lemma_run_quoted(state: LexState, pieces: Seq<Piece>)
    requires
        in_default_mode(state),
        pieces_well_formed(pieces),
    ensures
        lex_run(state, quoted(pieces)) matches Ok(after) && reaches(
            state,
            after,
            seq![Lexeme::StringLiteral(state.buffer + pieces_value(pieces))],
            Seq::empty(),
            false,
        ),
{
    let open = seq!['"'];
    lemma_run_concat(state, open + pieces_text(pieces), open);
    lemma_run_concat(state, open, pieces_text(pieces));
    lemma_run_one(state, '"');
    let opened = lex_run(state, open)->Ok_0;
    lemma_run_pieces(opened, pieces);
    let filled = lex_run(opened, pieces_text(pieces))->Ok_0;
    lemma_run_one(filled, '"');
    let at = advance(filled, '"');
    let token = SpecToken::StringLiteral(
        at.buffer,
        at.line,
        start_column(at.column, at.buffer),
    );
    lemma_lexemes_push(filled.tokens, token);
}

/// A string that is opened and never closed is an error, whatever it holds:
/// where a text can be read up to a point outside any string, and a quote
/// and well formed pieces follow, the whole text fails as unterminated.
pub proof fn lemma_open_string_is_unterminated(before: Seq<char>, pieces: Seq<Piece>)
    requires
        lex_run(lex_start(), before) matches Ok(state) && in_default_mode(state),
        pieces_well_formed(pieces),
    ensures
        lex(before + seq!['"'] + pieces_text(pieces)) matches Err(error) && error
            is UnterminatedStringLiteral,
{
    let state = lex_run(lex_start(), before)->Ok_0;
    lemma_run_concat(lex_start(), before + seq!['"'], pieces_text(pieces));
    lemma_run_concat(lex_start(), before, seq!['"']);
    lemma_run_one(state, '"');
    let opened = lex_run(state, seq!['"'])->Ok_0;
    lemma_run_pieces(opened, pieces);
}

/// A selector as it is written.
pub enum Selector {
    /// `*`
    All,
    /// `headings`
    Headings,
    /// `paragraphs`
    Paragraphs,
    /// `text`, white space, and the pattern in quotes.
    Text { gap: Seq<char>, pattern: Seq<Piece> },
    /// Any other word: a text pattern by itself.
    Name(Seq<char>),
}

impl Selector {
    /// The word the selector starts with.
    pub open spec fn word(self) -> Seq<char> {
        match self {
            Selector::All => "*"@,
            Selector::Headings => "headings"@,
            Selector::Paragraphs => "paragraphs"@,
            Selector::Text { .. } => "text"@,
            Selector::Name(name) => name,
        }
    }

    /// The characters the selector is written with.
    pub open spec fn text(self) -> Seq<char> {
        match self {
            Selector::Text { gap, pattern } => "text"@ + gap + quoted(pattern),
            _ => self.word(),
        }
    }

    /// The lexemes the selector is meant to be read as.
    pub open spec fn lexemes(self) -> Seq<Lexeme> {
        match self {
            Selector::All => seq![Lexeme::Keyword(Keyword::ALL)],
            Selector::Text { gap, pattern } => seq![
                Lexeme::Identifier("text"@),
                Lexeme::StringLiteral(pieces_value(pattern)),
            ],
            _ => seq![Lexeme::Identifier(self.word())],
        }
    }

    /// The element the selector asks for.
    pub open spec fn element(self) -> SpecElement {
        match self {
            Selector::All => SpecElement::All,
            Selector::Headings => SpecElement::Headings,
            Selector::Paragraphs => SpecElement::Paragraphs,
            Selector::Text { gap, pattern } => SpecElement::Text(pieces_value(pattern)),
            Selector::Name(name) => SpecElement::Text(name),
        }
    }
}

/// A selector with the white space before and after it.
pub struct Item {
    pub lead: Seq<char>,
    pub selector: Selector,
    pub trail: Seq<char>,
}

impl Item {
    /// The characters the item is written with.
    pub open spec fn text(self) -> Seq<char> {
        self.lead + self.selector.text() + self.trail
    }

    /// The item ends with its last lexeme emitted: it ends in a string
    /// literal or in white space.
    pub open spec fn closed(self) -> bool {
        self.selector is Text || self.trail.len() > 0
    }

    /// The item is written by the grammar and read as it is meant.
    ///
    /// Its word is a word and the runs around it are white space. A word
    /// that white space ends goes through the keyword table, so `*` needs
    /// white space behind it and must be read as the keyword, and any other
    /// word that has white space behind it must be read as an identifier.
    /// A name is none of the three reserved words.
    pub open spec fn well_formed(self) -> bool {
        &&& is_space(self.lead)
        &&& is_space(self.trail)
        &&& is_word(self.selector.word())
        &&& match self.selector {
            Selector::All => self.trail.len() > 0 && word_lexeme("*"@) == Lexeme::Keyword(
                Keyword::ALL,
            ),
            Selector::Text { gap, pattern } => {
                &&& is_space(gap)
                &&& gap.len() > 0
                &&& word_lexeme("text"@) == Lexeme::Identifier("text"@)
                &&& pieces_well_formed(pattern)
            },
            Selector::Name(name) => {
                &&& name != "headings"@
                &&& name != "paragraphs"@
                &&& name != "text"@
                &&& self.trail.len() > 0 ==> word_lexeme(name) == Lexeme::Identifier(name)
            },
            _ => self.trail.len() > 0 ==> word_lexeme(self.selector.word()) == Lexeme::Identifier(
                self.selector.word(),
            ),
        }
    }
}

/// An item is read as its lexemes; where it ends in its word, the word is
/// still in the buffer.
pub proof fn lemma_run_item(state: LexState, item: Item)
    requires
        in_default_mode(state),
        state.buffer.len() == 0,
        item.well_formed(),
    ensures
        lex_run(state, item.text()) matches Ok(after) && reaches(
            state,
            after,
            if item.closed() {
                item.selector.lexemes()
            } else {
                Seq::empty()
            },
            if item.closed() {
                Seq::empty()
            } else {
                item.selector.word()
            },
            false,
        ),
{
    let start = lexemes_of(state.tokens);
    let word = item.selector.word();
    lemma_run_concat(state, item.lead + item.selector.text(), item.trail);
    lemma_run_concat(state, item.lead, item.selector.text());
    lemma_run_space(state, item.lead);
    let led = lex_run(state, item.lead)->Ok_0;
    match item.selector {
        Selector::Text { gap, pattern } => {
            lemma_run_concat(led, "text"@ + gap, quoted(pattern));
            lemma_run_concat(led, "text"@, gap);
            lemma_run_word(led, "text"@);
            let worded = lex_run(led, "text"@)->Ok_0;
            lemma_run_space(worded, gap);
            let gapped = lex_run(worded, gap)->Ok_0;
            lemma_run_quoted(gapped, pattern);
            let literal = lex_run(gapped, quoted(pattern))->Ok_0;
            lemma_run_space(literal, item.trail);
            assert((start + seq![Lexeme::Identifier("text"@)]) + seq![
                Lexeme::StringLiteral(pieces_value(pattern)),
            ] == start + item.selector.lexemes());
        },
        _ => {
            lemma_run_word(led, word);
            let worded = lex_run(led, word)->Ok_0;
            lemma_run_space(worded, item.trail);
        },
    }
}

/// The characters a list of items is written with: the items with commas
/// between them.
pub open spec fn list_text(items: Seq<Item>) -> Seq<char>
    decreases items.len(),
{
    if items.len() == 0 {
        Seq::empty()
    } else if items.len() == 1 {
        items[0].text()
    } else {
        items[0].text() + seq![','] + list_text(items.drop_first())
    }
}

/// The lexemes a list of items is meant to be read as.
pub open spec fn list_lexemes(items: Seq<Item>) -> Seq<Lexeme>
    decreases items.len(),
{
    if items.len() == 0 {
        Seq::empty()
    } else if items.len() == 1 {
        items[0].selector.lexemes()
    } else {
        items[0].selector.lexemes() + seq![Lexeme::Punctuation(',')] + list_lexemes(
            items.drop_first(),
        )
    }
}

/// The elements a list of items asks for, in the order written.
pub open spec fn list_elements(items: Seq<Item>) -> Seq<SpecElement> {
    Seq::new(items.len(), |i: int| items[i].selector.element())
}

/// A list is written by the grammar: it has an item, every item is well
/// formed, and the last one is closed.
pub open spec fn list_well_formed(items: Seq<Item>) -> bool {
    &&& items.len() > 0
    &&& forall|i: int| 0 <= i < items.len() ==> (#[trigger] items[i]).well_formed()
    &&& items.last().closed()
}

/// What is left of a well formed list behind its first item is a well
/// formed list.
proof fn lemma_rest_well_formed(items: Seq<Item>)
    requires
        list_well_formed(items),
        items.len() > 1,
    ensures
        list_well_formed(items.drop_first()),
{
    let rest = items.drop_first();
    assert forall|i: int| 0 <= i < rest.len() implies (#[trigger] rest[i]).well_formed() by {
        assert(rest[i] == items[i + 1]);
    }
    assert(rest.last() == items.last());
}

/// A list of items is read as its lexemes.
pub proof fn lemma_run_list(state: LexState, items: Seq<Item>)
    requires
        in_default_mode(state),
        state.buffer.len() == 0,
        list_well_formed(items),
    ensures
        lex_run(state, list_text(items)) matches Ok(after) && reaches(
            state,
            after,
            list_lexemes(items),
            Seq::empty(),
            false,
        ),
    decreases items.len(),
{
    let first = items[0];
    let start = lexemes_of(state.tokens);
    lemma_run_item(state, first);
    if items.len() > 1 {
        let rest = items.drop_first();
        lemma_rest_well_formed(items);
        lemma_run_concat(state, first.text() + seq![','], list_text(rest));
        lemma_run_concat(state, first.text(), seq![',']);
        let read = lex_run(state, first.text())->Ok_0;
        lemma_run_comma(read);
        let marked = lex_run(read, seq![','])->Ok_0;
        lemma_run_list(marked, rest);
        let comma = Lexeme::Punctuation(',');
        assert(lexemes_of(marked.tokens) == start + (first.selector.lexemes() + seq![comma])) by {
            if !first.closed() {
                // The comma ends the word that the item left in the buffer.
                assert(first.selector.lexemes() == seq![Lexeme::Identifier(first.selector.word())]);
            }
        }
        assert((start + (first.selector.lexemes() + seq![comma])) + list_lexemes(rest) == start
            + list_lexemes(items));
    }
}

/// The three reserved selector words differ from each other.
proof fn lemma_reserved_words_differ()
    ensures
        "headings"@ != "paragraphs"@,
        "headings"@ != "text"@,
        "paragraphs"@ != "text"@,
{
    reveal_strlit("headings");
    reveal_strlit("paragraphs");
    reveal_strlit("text");
    assert("headings"@.len() == 8);
    assert("paragraphs"@.len() == 10);
}

/// A selector that stands at `pos` by its lexemes is parsed as its element.
proof fn lemma_selector_at(tokens: Seq<SpecToken>, pos: int, item: Item)
    requires
        0 <= pos,
        item.well_formed(),
        pos + item.selector.lexemes().len() <= tokens.len(),
        forall|i: int|
            0 <= i < item.selector.lexemes().len() ==> lexeme_of(#[trigger] tokens[pos + i])
                == item.selector.lexemes()[i],
    ensures
        selector_at(tokens, pos) == Ok::<(SpecElement, int), SpecParseError>(
            (item.selector.element(), pos + item.selector.lexemes().len()),
        ),
{
    lemma_reserved_words_differ();
    assert(lexeme_of(tokens[pos + 0]) == item.selector.lexemes()[0]);
    if item.selector is Text {
        assert(lexeme_of(tokens[pos + 1]) == item.selector.lexemes()[1]);
    }
}

/// A list of items that stands at `pos` by its lexemes, with no comma
/// behind it, is parsed as its elements, in order.
pub proof fn lemma_select_list(tokens: Seq<SpecToken>, pos: int, items: Seq<Item>)
    requires
        0 <= pos,
        list_well_formed(items),
        pos + list_lexemes(items).len() <= tokens.len(),
        forall|i: int|
            0 <= i < list_lexemes(items).len() ==> lexeme_of(#[trigger] tokens[pos + i])
                == list_lexemes(items)[i],
        pos + list_lexemes(items).len() < tokens.len() ==> !is_comma(
            tokens[pos + list_lexemes(items).len()],
        ),
    ensures
        select_elements(tokens, pos) == Ok::<(Seq<SpecElement>, int), SpecParseError>(
            (list_elements(items), pos + list_lexemes(items).len()),
        ),
    decreases items.len(),
{
    let first = items[0];
    let own = first.selector.lexemes();
    let all = list_lexemes(items);
    let next = pos + own.len();
    assert forall|i: int| 0 <= i < own.len() implies lexeme_of(#[trigger] tokens[pos + i])
        == own[i] by {
        assert(all[i] == own[i]);
    }
    lemma_selector_at(tokens, pos, first);
    if items.len() == 1 {
        assert(list_elements(items) == seq![first.selector.element()]);
    } else {
        let rest = items.drop_first();
        lemma_rest_well_formed(items);
        assert(is_comma(tokens[next])) by {
            assert(all[own.len() as int] == Lexeme::Punctuation(','));
        }
        assert forall|i: int| 0 <= i < list_lexemes(rest).len() implies lexeme_of(
            #[trigger] tokens[next + 1 + i],
        ) == list_lexemes(rest)[i] by {
            assert(all[own.len() + 1 + i] == list_lexemes(rest)[i]);
            assert(tokens[next + 1 + i] == tokens[pos + (own.len() + 1 + i)]);
        }
        lemma_select_list(tokens, next + 1, rest);
        assert(seq![first.selector.element()] + list_elements(rest) == list_elements(items));
    }
}

/// The lexemes of a query with these selectors and this path.
pub open spec fn query_lexemes(items: Seq<Item>, path: Seq<char>) -> Seq<Lexeme> {
    seq![Lexeme::Keyword(Keyword::SELECT)] + list_lexemes(items) + seq![
        Lexeme::Keyword(Keyword::FROM),
        Lexeme::StringLiteral(path),
    ]
}

/// Tokens that spell `SELECT`, a list of selectors, `FROM` and a path are
/// parsed as the query with those elements, in the order written, and that
/// path. The positions of the tokens do not matter.
pub proof fn lemma_parse_written(tokens: Seq<SpecToken>, items: Seq<Item>, path: Seq<char>)
    requires
        list_well_formed(items),
        lexemes_of(tokens) == query_lexemes(items, path),
    ensures
        parse(tokens) == Ok::<SpecQuery, SpecParseError>(
            SpecQuery { elements: list_elements(items), file_path: path, condition: None },
        ),
{
    let list = list_lexemes(items);
    let count = list.len() as int;
    let all = query_lexemes(items, path);
    assert(tokens.len() == lexemes_of(tokens).len());
    assert forall|i: int| 0 <= i < tokens.len() implies lexeme_of(#[trigger] tokens[i])
        == all[i] by {
        assert(lexemes_of(tokens)[i] == lexeme_of(tokens[i]));
    }
    // `SELECT` at 0, the selectors from 1, `FROM` behind them, then the path.
    assert(lexeme_of(tokens[0]) == Lexeme::Keyword(Keyword::SELECT));
    assert forall|i: int| 0 <= i < count implies lexeme_of(#[trigger] tokens[1 + i])
        == list[i] by {
        assert(all[1 + i] == list[i]);
    }
    assert(lexeme_of(tokens[count + 1]) == Lexeme::Keyword(Keyword::FROM));
    assert(lexeme_of(tokens[count + 2]) == Lexeme::StringLiteral(path));
    lemma_select_list(tokens, 1, items);
    let selected = SpecQuery { elements: list_elements(items), ..empty_query() };
    let located = SpecQuery { file_path: path, ..selected };
    assert(empty_query().elements + list_elements(items) == list_elements(items));
    assert(parse_from(tokens, count + 3, located) == Ok::<SpecQuery, SpecParseError>(located));
    assert(parse_from(tokens, count + 1, selected) == Ok::<SpecQuery, SpecParseError>(located));
}

/// A query as it is written, with the spelling of its keywords and the
/// white space between its parts.
pub struct WrittenQuery {
    /// White space before the query.
    pub lead: Seq<char>,
    /// The spelling of `SELECT`.
    pub select: Seq<char>,
    /// White space after `SELECT`.
    pub after_select: Seq<char>,
    /// The selectors, with the white space around each.
    pub items: Seq<Item>,
    /// The spelling of `FROM`.
    pub from: Seq<char>,
    /// White space after `FROM`.
    pub after_from: Seq<char>,
    /// The path, as written between its quotes.
    pub path: Seq<Piece>,
    /// White space after the query.
    pub trail: Seq<char>,
}

impl WrittenQuery {
    /// The characters the query is written with.
    pub open spec fn text(self) -> Seq<char> {
        self.lead + self.select + self.after_select + list_text(self.items) + self.from
            + self.after_from + quoted(self.path) + self.trail
    }

    /// The lexemes the query is meant to be read as.
    pub open spec fn lexemes(self) -> Seq<Lexeme> {
        query_lexemes(self.items, pieces_value(self.path))
    }

    /// The query that is written.
    pub open spec fn query(self) -> SpecQuery {
        SpecQuery {
            elements: list_elements(self.items),
            file_path: pieces_value(self.path),
            condition: None,
        }
    }

    /// The query is written by the grammar and read as it is meant: the two
    /// keywords are words that the keyword table reads as `SELECT` and
    /// `FROM`, each with white space behind it; the selectors are a well
    /// formed list; the path is well formed; and the rest is white space.
    pub open spec fn well_formed(self) -> bool {
        &&& is_space(self.lead)
        &&& is_word(self.select)
        &&& word_lexeme(self.select) == Lexeme::Keyword(Keyword::SELECT)
        &&& is_space(self.after_select)
        &&& self.after_select.len() > 0
        &&& list_well_formed(self.items)
        &&& is_word(self.from)
        &&& word_lexeme(self.from) == Lexeme::Keyword(Keyword::FROM)
        &&& is_space(self.after_from)
        &&& self.after_from.len() > 0
        &&& pieces_well_formed(self.path)
        &&& is_space(self.trail)
    }
}

/// The lexer reads a written query as its lexemes.
pub proof fn lemma_lex_written(written: WrittenQuery)
    requires
        written.well_formed(),
    ensures
        lex(written.text()) matches Ok(tokens) && lexemes_of(tokens) == written.lexemes(),
{
    let none = Seq::<Lexeme>::empty();
    let select = seq![Lexeme::Keyword(Keyword::SELECT)];
    let list = list_lexemes(written.items);
    let from = seq![Lexeme::Keyword(Keyword::FROM)];
    let path = seq![Lexeme::StringLiteral(pieces_value(written.path))];
    // The text in the order it is read, and the state after each part.
    let t1 = written.lead;
    let t2 = t1 + written.select;
    let t3 = t2 + written.after_select;
    let t4 = t3 + list_text(written.items);
    let t5 = t4 + written.from;
    let t6 = t5 + written.after_from;
    let t7 = t6 + quoted(written.path);
    let s0 = lex_start();
    lemma_run_concat(s0, t7, written.trail);
    lemma_run_concat(s0, t6, quoted(written.path));
    lemma_run_concat(s0, t5, written.after_from);
    lemma_run_concat(s0, t4, written.from);
    lemma_run_concat(s0, t3, list_text(written.items));
    lemma_run_concat(s0, t2, written.after_select);
    lemma_run_concat(s0, t1, written.select);
    lemma_run_space(s0, written.lead);
    let s1 = lex_run(s0, written.lead)->Ok_0;
    lemma_run_word(s1, written.select);
    let s2 = lex_run(s1, written.select)->Ok_0;
    lemma_run_space(s2, written.after_select);
    let s3 = lex_run(s2, written.after_select)->Ok_0;
    assert(lexemes_of(s3.tokens) == select) by {
        assert(s2.buffer == written.select);
        assert(lexemes_of(s0.tokens) == none);
    }
    lemma_run_list(s3, written.items);
    let s4 = lex_run(s3, list_text(written.items))->Ok_0;
    lemma_run_word(s4, written.from);
    let s5 = lex_run(s4, written.from)->Ok_0;
    lemma_run_space(s5, written.after_from);
    let s6 = lex_run(s5, written.after_from)->Ok_0;
    assert(lexemes_of(s6.tokens) == (select + list) + from) by {
        assert(s5.buffer == written.from);
    }
    lemma_run_quoted(s6, written.path);
    let s7 = lex_run(s6, quoted(written.path))->Ok_0;
    assert(lexemes_of(s7.tokens) == ((select + list) + from) + path) by {
        assert(s6.buffer + pieces_value(written.path) == pieces_value(written.path));
    }
    lemma_run_space(s7, written.trail);
    let s8 = lex_run(s7, written.trail)->Ok_0;
    assert(lexemes_of(s8.tokens) == written.lexemes());
    assert(s8.buffer.len() == 0);
}

/// Round trip: a query that is written by the grammar, however its keywords
/// are cased and however it is spaced, is split into tokens and parsed
/// without error, and the result is the query that was written: the same
/// elements in the same order, the same path, and no condition.
pub proof fn lemma_round_trip(written: WrittenQuery)
    requires
        written.well_formed(),
    ensures
        lex(written.text()) matches Ok(tokens) && parse(tokens) == Ok::<
            SpecQuery,
            SpecParseError,
        >(written.query()),
{
    lemma_lex_written(written);
    let tokens = lex(written.text())->Ok_0;
    lemma_parse_written(tokens, written.items, pieces_value(written.path));
}

} // verus!
