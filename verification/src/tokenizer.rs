//! The lexer: query text in, positioned tokens out.
//!
//! The lexer is a state machine that reads one character at a time. Its
//! mathematical model is [`lex`], and [`tokenize`] is proved to compute it.

use crate::text::{unicode_uppercase, unicode_whitespace};
use vstd::prelude::*;
use vstd::string::*;

verus! {

/// Why a query text could not be split into tokens. Every variant carries the
/// line and column the lexer had reached.
#[derive(Debug, Clone, Copy, PartialEq, Eq)]
pub enum TokenizationError {
    /// A character that cannot stand where it does. The lexer accepts every
    /// character outside escape sequences, so it never reports this.
    UnexpectedCharacter { character: char, line: usize, column: usize },
    /// Inside a string, a backslash is followed by a character other than
    /// `n`, `t`, a backslash or a quote.
    UnexpectedEscapeSequence { character: char, line: usize, column: usize },
    /// The text ends inside a string.
    UnterminatedStringLiteral { line: usize, column: usize },
}

/// The model of a [`TokenizationError`]: positions are unbounded naturals.
pub enum SpecTokenizationError {
    UnexpectedCharacter { character: char, line: nat, column: nat },
    UnexpectedEscapeSequence { character: char, line: nat, column: nat },
    UnterminatedStringLiteral { line: nat, column: nat },
}

impl View for TokenizationError {
    type V = SpecTokenizationError;

    open spec fn view(&self) -> SpecTokenizationError {
        match *self {
            TokenizationError::UnexpectedCharacter { character, line, column } => {
                SpecTokenizationError::UnexpectedCharacter {
                    character,
                    line: line as nat,
                    column: column as nat,
                }
            },
            TokenizationError::UnexpectedEscapeSequence { character, line, column } => {
                SpecTokenizationError::UnexpectedEscapeSequence {
                    character,
                    line: line as nat,
                    column: column as nat,
                }
            },
            TokenizationError::UnterminatedStringLiteral { line, column } => {
                SpecTokenizationError::UnterminatedStringLiteral {
                    line: line as nat,
                    column: column as nat,
                }
            },
        }
    }
}

/// A position in the query text. Lines count from 1.
#[derive(Debug, Clone, Copy)]
pub struct Location {
    pub line: usize,
    pub column: usize,
}

/// The reserved words of the query language. `ALL` is written `*`.
#[derive(Debug, PartialEq, Eq, Clone, Copy)]
pub enum Keyword {
    SELECT,
    FROM,
    WHERE,
    ALL,
}

/// The smallest unit of a query: a tagged value with the line and column it
/// was read at.
#[derive(Debug, PartialEq)]
pub enum Token {
    Keyword(Keyword, usize, usize),
    Identifier(String, usize, usize),
    Punctuation(char, usize, usize),
    StringLiteral(String, usize, usize),
}

/// The model of a [`Token`].
pub enum SpecToken {
    Keyword(Keyword, nat, nat),
    Identifier(Seq<char>, nat, nat),
    Punctuation(char, nat, nat),
    StringLiteral(Seq<char>, nat, nat),
}

impl View for Token {
    type V = SpecToken;

    open spec fn view(&self) -> SpecToken {
        match *self {
            Token::Keyword(keyword, line, column) => SpecToken::Keyword(
                keyword,
                line as nat,
                column as nat,
            ),
            Token::Identifier(text, line, column) => SpecToken::Identifier(
                text@,
                line as nat,
                column as nat,
            ),
            Token::Punctuation(mark, line, column) => SpecToken::Punctuation(
                mark,
                line as nat,
                column as nat,
            ),
            Token::StringLiteral(text, line, column) => SpecToken::StringLiteral(
                text@,
                line as nat,
                column as nat,
            ),
        }
    }
}

impl DeepView for Token {
    type V = SpecToken;

    open spec fn deep_view(&self) -> SpecToken {
        self@
    }
}

impl SpecToken {
    /// The line the token was read at.
    pub open spec fn line(self) -> nat {
        match self {
            SpecToken::Keyword(_, line, _) => line,
            SpecToken::Identifier(_, line, _) => line,
            SpecToken::Punctuation(_, line, _) => line,
            SpecToken::StringLiteral(_, line, _) => line,
        }
    }

    /// The column reported for the token.
    pub open spec fn column(self) -> nat {
        match self {
            SpecToken::Keyword(_, _, column) => column,
            SpecToken::Identifier(_, _, column) => column,
            SpecToken::Punctuation(_, _, column) => column,
            SpecToken::StringLiteral(_, _, column) => column,
        }
    }
}

impl Clone for Token {
    fn clone(&self) -> (copy: Self)
        ensures
            copy == *self,
    {
        match self {
            Token::Keyword(keyword, line, column) => Token::Keyword(*keyword, *line, *column),
            Token::Identifier(text, line, column) => Token::Identifier(
                text.clone(),
                *line,
                *column,
            ),
            Token::Punctuation(mark, line, column) => Token::Punctuation(*mark, *line, *column),
            Token::StringLiteral(text, line, column) => Token::StringLiteral(
                text.clone(),
                *line,
                *column,
            ),
        }
    }
}

impl Keyword {
    /// The spelling of the keyword in upper case.
    pub open spec fn name(self) -> Seq<char> {
        match self {
            Keyword::SELECT => "SELECT"@,
            Keyword::FROM => "FROM"@,
            Keyword::WHERE => "WHERE"@,
            Keyword::ALL => "ALL"@,
        }
    }

    /// Renders the keyword by its upper-case name.
    pub fn to_string(&self) -> (text: String)
        ensures
            text@ == self.name(),
    {
        match self {
            Keyword::SELECT => String::from_str("SELECT"),
            Keyword::FROM => String::from_str("FROM"),
            Keyword::WHERE => String::from_str("WHERE"),
            Keyword::ALL => String::from_str("ALL"),
        }
    }
}

impl Token {
    /// The text that [`Token::to_string`] produces: the kind of the token, then
    /// its payload, with no position.
    pub open spec fn rendering(token: SpecToken) -> Seq<char> {
        match token {
            SpecToken::Keyword(keyword, _, _) => "Keyword: "@ + keyword.name(),
            SpecToken::Identifier(text, _, _) => "Identifier: "@ + text,
            SpecToken::Punctuation(mark, _, _) => "Punctuation: '"@.push(mark) + "'"@,
            SpecToken::StringLiteral(text, _, _) => "String Literal: \""@ + text + "\""@,
        }
    }

    /// Where the token was read.
    pub fn location(&self) -> (location: Location)
        ensures
            location.line == self@.line(),
            location.column == self@.column(),
    {
        match self {
            Token::Keyword(_, line, column) => Location { line: *line, column: *column },
            Token::Identifier(_, line, column) => Location { line: *line, column: *column },
            Token::Punctuation(_, line, column) => Location { line: *line, column: *column },
            Token::StringLiteral(_, line, column) => Location { line: *line, column: *column },
        }
    }

    /// Renders the token for diagnostics.
    pub fn to_string(&self) -> (text: String)
        ensures
            text@ == Token::rendering(self@),
    {
        match self {
            Token::Keyword(keyword, _, _) => {
                let name = keyword.to_string();
                String::from_str("Keyword: ").concat(name.as_str())
            },
            Token::Identifier(identifier, _, _) => {
                String::from_str("Identifier: ").concat(identifier.as_str())
            },
            Token::Punctuation(mark, _, _) => {
                let mut text = String::from_str("Punctuation: '");
                text.push(*mark);
                text.concat("'")
            },
            Token::StringLiteral(literal, _, _) => {
                String::from_str("String Literal: \"").concat(literal.as_str()).concat("\"")
            },
        }
    }
}

/// The keyword that an upper-cased word spells, if any. `*` spells `ALL`; the
/// word `ALL` itself is no keyword.
pub open spec fn keyword_named(upper: Seq<char>) -> Option<Keyword> {
    if upper == "SELECT"@ {
        Some(Keyword::SELECT)
    } else if upper == "FROM"@ {
        Some(Keyword::FROM)
    } else if upper == "WHERE"@ {
        Some(Keyword::WHERE)
    } else if upper == "*"@ {
        Some(Keyword::ALL)
    } else {
        None
    }
}

/// Looks an upper-cased word up in the keyword table.
pub fn keyword_of(upper: &str) -> (keyword: Option<Keyword>)
    ensures
        keyword == keyword_named(upper@),
{
    if upper.eq("SELECT") {
        Some(Keyword::SELECT)
    } else if upper.eq("FROM") {
        Some(Keyword::FROM)
    } else if upper.eq("WHERE") {
        Some(Keyword::WHERE)
    } else if upper.eq("*") {
        Some(Keyword::ALL)
    } else {
        None
    }
}

/// What the lexer remembers between two characters.
pub struct LexState {
    /// The tokens emitted so far.
    pub tokens: Seq<SpecToken>,
    /// The characters of the lexeme being read.
    pub buffer: Seq<char>,
    /// Inside a string literal.
    pub in_string: bool,
    /// The previous character was a backslash inside a string literal.
    pub escape: bool,
    /// The line of the last character read; 1 before any.
    pub line: nat,
    /// The column of the last character read; 0 before any.
    pub column: nat,
}

/// The state before the first character.
pub open spec fn lex_start() -> LexState {
    LexState {
        tokens: Seq::empty(),
        buffer: Seq::empty(),
        in_string: false,
        escape: false,
        line: 1,
        column: 0,
    }
}

/// The column reported for a lexeme that ends at `column`: the column minus
/// the number of characters collected, and 0 where the lexeme is longer than
/// the column (it then began on an earlier line).
pub open spec fn start_column(column: nat, lexeme: Seq<char>) -> nat {
    if column >= lexeme.len() {
        (column - lexeme.len()) as nat
    } else {
        0
    }
}

/// The character that a backslash followed by `c` stands for, if the pair is
/// an escape sequence.
pub open spec fn escaped_char(c: char) -> Option<char> {
    if c == 'n' {
        Some('\n')
    } else if c == 't' {
        Some('\t')
    } else if c == '\\' {
        Some('\\')
    } else if c == '"' {
        Some('"')
    } else {
        None
    }
}

/// Decodes the character after a backslash.
pub fn unescape(c: char) -> (plain: Option<char>)
    ensures
        plain == escaped_char(c),
{
    if c == 'n' {
        Some('\n')
    } else if c == 't' {
        Some('\t')
    } else if c == '\\' {
        Some('\\')
    } else if c == '"' {
        Some('"')
    } else {
        None
    }
}

/// The token for a word that white space ended: a keyword if its upper-case
/// form is in the keyword table, an identifier otherwise.
pub open spec fn word_token(word: Seq<char>, line: nat, column: nat) -> SpecToken {
    match keyword_named(unicode_uppercase(word)) {
        Some(keyword) => SpecToken::Keyword(keyword, line, column),
        None => SpecToken::Identifier(word, line, column),
    }
}

/// Moves the position over `c`: a line feed starts the next line at column 1,
/// any other character is one column further.
pub open spec fn advance(state: LexState, c: char) -> LexState {
    if c == '\n' {
        LexState { line: state.line + 1, column: 1, ..state }
    } else {
        LexState { column: state.column + 1, ..state }
    }
}

/// One step of the lexer on the character `c`, where `whitespace` says
/// whether `c` is white space.
///
/// Inside a string, a backslash announces an escape, a quote ends the
/// string, and every other character is kept. Outside, a quote opens a
/// string (what the buffer holds becomes the start of the literal), a comma
/// or a period ends a word as an identifier and is a token itself, white
/// space ends a word as a keyword or an identifier, and every other
/// character is added to the word. The quote, the comma and the period are
/// recognised before white space is.
pub open spec fn lex_step(state: LexState, c: char, whitespace: bool) -> Result<
    LexState,
    SpecTokenizationError,
> {
    let at = advance(state, c);
    if at.escape {
        match escaped_char(c) {
            Some(plain) => Ok(LexState { buffer: at.buffer.push(plain), escape: false, ..at }),
            None => Err(
                SpecTokenizationError::UnexpectedEscapeSequence {
                    character: c,
                    line: at.line,
                    column: at.column,
                },
            ),
        }
    } else if at.in_string {
        if c == '\\' {
            Ok(LexState { escape: true, ..at })
        } else if c == '"' {
            Ok(
                LexState {
                    tokens: at.tokens.push(
                        SpecToken::StringLiteral(
                            at.buffer,
                            at.line,
                            start_column(at.column, at.buffer),
                        ),
                    ),
                    buffer: Seq::empty(),
                    in_string: false,
                    ..at
                },
            )
        } else {
            Ok(LexState { buffer: at.buffer.push(c), ..at })
        }
    } else if c == '"' {
        Ok(LexState { in_string: true, ..at })
    } else if c == ',' || c == '.' {
        let flushed = if at.buffer.len() > 0 {
            at.tokens.push(
                SpecToken::Identifier(at.buffer, at.line, start_column(at.column, at.buffer)),
            )
        } else {
            at.tokens
        };
        Ok(
            LexState {
                tokens: flushed.push(SpecToken::Punctuation(c, at.line, at.column)),
                buffer: Seq::empty(),
                ..at
            },
        )
    } else if whitespace {
        if at.buffer.len() > 0 {
            Ok(
                LexState {
                    tokens: at.tokens.push(
                        word_token(at.buffer, at.line, start_column(at.column, at.buffer)),
                    ),
                    buffer: Seq::empty(),
                    ..at
                },
            )
        } else {
            Ok(at)
        }
    } else {
        Ok(LexState { buffer: at.buffer.push(c), ..at })
    }
}

/// The state after reading all of `input` from `state`, or the first error.
pub open spec fn lex_run(state: LexState, input: Seq<char>) -> Result<
    LexState,
    SpecTokenizationError,
>
    decreases input.len(),
{
    if input.len() == 0 {
        Ok(state)
    } else {
        match lex_run(state, input.drop_last()) {
            Ok(before) => lex_step(before, input.last(), unicode_whitespace(input.last())),
            Err(error) => Err(error),
        }
    }
}

/// The end of input: an open string literal is an error, a pending word
/// becomes an identifier (never a keyword).
pub open spec fn lex_finish(state: LexState) -> Result<Seq<SpecToken>, SpecTokenizationError> {
    if state.escape || state.in_string {
        Err(
            SpecTokenizationError::UnterminatedStringLiteral {
                line: state.line,
                column: state.column,
            },
        )
    } else if state.buffer.len() > 0 {
        Ok(
            state.tokens.push(
                SpecToken::Identifier(
                    state.buffer,
                    state.line,
                    start_column(state.column, state.buffer),
                ),
            ),
        )
    } else {
        Ok(state.tokens)
    }
}

/// The tokens of `input`, or the first error met while reading it.
pub open spec fn lex(input: Seq<char>) -> Result<Seq<SpecToken>, SpecTokenizationError> {
    match lex_run(lex_start(), input) {
        Ok(state) => lex_finish(state),
        Err(error) => Err(error),
    }
}


/// The lexer refuses no character: while reading, the only error is an
/// unknown escape sequence.
pub proof fn lemma_lex_run_errors(state: LexState, input: Seq<char>)
    ensures
        lex_run(state, input) matches Err(error) ==> error is UnexpectedEscapeSequence,
    decreases input.len(),
{
    if input.len() > 0 {
        lemma_lex_run_errors(state, input.drop_last());
    }
}

/// The lexer fails only on an unknown escape sequence or on a string that
/// is still open where the text ends; it never reports an unexpected
/// character.
pub proof fn lemma_lex_errors(input: Seq<char>)
    ensures
        lex(input) matches Err(error) ==> (error is UnexpectedEscapeSequence || error
            is UnterminatedStringLiteral),
{
    lemma_lex_run_errors(lex_start(), input);
}

/// The state is on line 1 or later, and so is every token emitted so far.
pub open spec fn lines_from_one(state: LexState) -> bool {
    &&& state.line >= 1
    &&& forall|i: int| 0 <= i < state.tokens.len() ==> (#[trigger] state.tokens[i]).line() >= 1
}

/// Reading keeps the lines at 1 or later.
pub proof fn lemma_lex_run_lines(state: LexState, input: Seq<char>)
    requires
        lines_from_one(state),
    ensures
        lex_run(state, input) matches Ok(after) ==> lines_from_one(after),
    decreases input.len(),
{
    if input.len() > 0 {
        lemma_lex_run_lines(state, input.drop_last());
    }
}

/// Lines count from 1: every token of a text carries a line of at least 1.
pub proof fn lemma_lex_lines(input: Seq<char>)
    ensures
        lex(input) matches Ok(tokens) ==> forall|i: int|
            0 <= i < tokens.len() ==> (#[trigger] tokens[i]).line() >= 1,
{
    lemma_lex_run_lines(lex_start(), input);
}

/// On one line no column is cut off: while a text without line feeds is
/// read, the lexer stays on line 1, the column is the number of characters
/// read, and the buffer is never longer than the column, so every reported
/// column is the plain difference.
pub proof fn lemma_lex_run_one_line(input: Seq<char>)
    requires
        forall|i: int| 0 <= i < input.len() ==> input[i] != '\n',
    ensures
        lex_run(lex_start(), input) matches Ok(state) ==> {
            &&& state.line == 1
            &&& state.column == input.len()
            &&& state.buffer.len() <= state.column
        },
    decreases input.len(),
{
    if input.len() > 0 {
        lemma_lex_run_one_line(input.drop_last());
    }
}

impl LexState {
    /// A word or a string literal is under way: the next step may report the
    /// current line in a token or an error.
    pub open spec fn pending(self) -> bool {
        self.in_string || self.escape || self.buffer.len() > 0
    }
}

/// A lexer that is fed one character at a time.
pub struct Lexer {
    tokens: Vec<Token>,
    buffer: String,
    in_string: bool,
    escape: bool,
    /// The line feeds read so far, one less than the line.
    line_feeds: usize,
    column: usize,
}

impl View for Lexer {
    type V = LexState;

    closed spec fn view(&self) -> LexState {
        LexState {
            tokens: self.tokens.deep_view(),
            buffer: self.buffer@,
            in_string: self.in_string,
            escape: self.escape,
            line: (self.line_feeds + 1) as nat,
            column: self.column as nat,
        }
    }
}

impl Lexer {
    /// The position counters can take one more character, and a line that may
    /// have to be reported fits in a `usize`.
    pub open spec fn has_room(&self) -> bool {
        &&& self@.column < usize::MAX
        &&& self@.line <= usize::MAX
        &&& self@.pending() ==> self@.line < usize::MAX
    }

    /// A lexer that has read nothing.
    pub fn new() -> (lexer: Lexer)
        ensures
            lexer@ == lex_start(),
    {
        let lexer = Lexer {
            tokens: Vec::new(),
            buffer: String::new(),
            in_string: false,
            escape: false,
            line_feeds: 0,
            column: 0,
        };
        assert(lexer.tokens.deep_view() =~= Seq::<SpecToken>::empty());
        lexer
    }

    /// The column to report for the lexeme in the buffer.
    fn lexeme_column(&self) -> (column: usize)
        ensures
            column == start_column(self@.column, self@.buffer),
    {
        let length = self.buffer.as_str().unicode_len();
        if self.column >= length {
            self.column - length
        } else {
            0
        }
    }

    /// Appends `token` to the emitted tokens and empties the buffer.
    fn emit(&mut self, token: Token)
        ensures
            final(self)@ == (LexState {
                tokens: old(self)@.tokens.push(token@),
                buffer: Seq::empty(),
                ..old(self)@
            }),
    {
        self.tokens.push(token);
        self.buffer = String::new();
        assert(self.tokens.deep_view() =~= old(self).tokens.deep_view().push(token@));
    }

    /// Reads the character `c`, where `whitespace` says whether `c` is white
    /// space. On an error the position has moved over `c` and nothing else
    /// has changed.
    pub fn scan(&mut self, c: char, whitespace: bool) -> (outcome: Result<(), TokenizationError>)
        requires
            old(self).has_room(),
        ensures
            match lex_step(old(self)@, c, whitespace) {
                Ok(next) => outcome is Ok && final(self)@ == next,
                Err(error) => outcome matches Err(reported) && reported@ == error && final(self)@
                    == advance(old(self)@, c),
            },
    {
        if c == '\n' {
            self.line_feeds = self.line_feeds + 1;
            self.column = 1;
        } else {
            self.column = self.column + 1;
        }
        if self.escape {
            match unescape(c) {
                Some(plain) => {
                    self.buffer.push(plain);
                    self.escape = false;
                },
                None => {
                    return Err(
                        TokenizationError::UnexpectedEscapeSequence {
                            character: c,
                            line: self.line_feeds + 1,
                            column: self.column,
                        },
                    );
                },
            }
        } else if self.in_string {
            if c == '\\' {
                self.escape = true;
            } else if c == '"' {
                let column = self.lexeme_column();
                let literal = Token::StringLiteral(
                    self.buffer.clone(),
                    self.line_feeds + 1,
                    column,
                );
                self.emit(literal);
                self.in_string = false;
            } else {
                self.buffer.push(c);
            }
        } else if c == '"' {
            self.in_string = true;
        } else if c == ',' || c == '.' {
            if !self.buffer.as_str().is_empty() {
                let column = self.lexeme_column();
                let word = Token::Identifier(self.buffer.clone(), self.line_feeds + 1, column);
                self.emit(word);
            }
            let mark = Token::Punctuation(c, self.line_feeds + 1, self.column);
            self.emit(mark);
        } else if whitespace {
            if !self.buffer.as_str().is_empty() {
                let column = self.lexeme_column();
                let upper = self.buffer.as_str().to_uppercase();
                let word = match keyword_of(upper.as_str()) {
                    Some(keyword) => Token::Keyword(keyword, self.line_feeds + 1, column),
                    None => Token::Identifier(self.buffer.clone(), self.line_feeds + 1, column),
                };
                self.emit(word);
            }
        } else {
            self.buffer.push(c);
        }
        Ok(())
    }

    /// Ends the input and hands out the tokens.
    pub fn finish(self) -> (outcome: Result<Vec<Token>, TokenizationError>)
        requires
            self@.pending() ==> self@.line <= usize::MAX,
        ensures
            match lex_finish(self@) {
                Ok(tokens) => outcome matches Ok(emitted) && emitted.deep_view() == tokens,
                Err(error) => outcome matches Err(reported) && reported@ == error,
            },
    {
        let mut lexer = self;
        if lexer.escape || lexer.in_string {
            return Err(
                TokenizationError::UnterminatedStringLiteral {
                    line: lexer.line_feeds + 1,
                    column: lexer.column,
                },
            );
        }
        if !lexer.buffer.as_str().is_empty() {
            let column = lexer.lexeme_column();
            let word = Token::Identifier(lexer.buffer.clone(), lexer.line_feeds + 1, column);
            lexer.emit(word);
        }
        Ok(lexer.tokens)
    }
}

/// Once a prefix of the input fails, the whole input fails with the same
/// error.
pub proof fn lemma_lex_run_extends(input: Seq<char>, length: int)
    requires
        0 <= length <= input.len(),
        lex_run(lex_start(), input.take(length)) is Err,
    ensures
        lex_run(lex_start(), input) == lex_run(lex_start(), input.take(length)),
    decreases input.len() - length,
{
    if length < input.len() {
        assert(input.take(length + 1).drop_last() == input.take(length));
        lemma_lex_run_extends(input, length + 1);
    } else {
        assert(input.take(length) == input);
    }
}

/// A text has at most as many characters as its UTF-8 encoding has bytes, so
/// a counter of characters fits where the byte length fits.
proof fn lemma_chars_within_bytes(text: Seq<char>)
    ensures
        text.len() <= vstd::utf8::encode_utf8(text).len(),
    decreases text.len(),
{
    if text.len() > 0 {
        lemma_chars_within_bytes(text.drop_first());
    }
}

/// Splits a query text into tokens.
///
/// The result is exactly [`lex`] of the text: the tokens in the order they
/// were read, or the first error.
pub fn tokenize(input: &str) -> (outcome: Result<Vec<Token>, TokenizationError>)
    ensures
        match lex(input@) {
            Ok(tokens) => outcome matches Ok(emitted) && emitted.deep_view() == tokens,
            Err(error) => outcome matches Err(reported) && reported@ == error,
        },
{
    let bytes = input.as_bytes().len();
    proof {
        lemma_chars_within_bytes(input@);
    }
    let mut lexer = Lexer::new();
    for c in it: input.chars()
        invariant
            it.seq() == input@,
            input@.len() <= bytes,
            lex_run(lex_start(), input@.take(it.index())) == Ok::<
                LexState,
                SpecTokenizationError,
            >(lexer@),
            lexer@.column <= it.index(),
            lexer@.line <= it.index() + 1,
            lexer@.pending() ==> lexer@.line <= it.index(),
    {
        assert(input@.take(it.index() + 1).drop_last() == input@.take(it.index()));
        let whitespace = c.is_whitespace();
        match lexer.scan(c, whitespace) {
            Ok(()) => {},
            Err(error) => {
                proof {
                    lemma_lex_run_extends(input@, it.index() + 1);
                }
                return Err(error);
            },
        }
    }
    assert(input@.take(input@.len() as int) == input@);
    lexer.finish()
}

} // verus!
