//! The lexer: from characters to tokens.

use crate::text::{parse_decimal, parse_number, string_of};
use vstd::prelude::*;

verus! {

/// The reserved words.
#[derive(Clone, Copy, Debug, PartialEq, Eq, Structural)]
pub enum Keyword {
    Fn,
    Let,
    Match,
    Apply,
    Papp,
}

/// The characters of which operators and separators are made.
#[derive(Clone, Copy, Debug, PartialEq, Eq, Structural)]
pub enum Symbol {
    LAngle,
    RAngle,
    Semicolon,
    Equal,
    Plus,
    Minus,
    Star,
    Slash,
    Percentage,
    And,
    Pipe,
    Caret,
    Underscore,
}

/// The brackets.
#[derive(Clone, Copy, Debug, PartialEq, Eq, Structural)]
pub enum Bracket {
    LBrace,
    RBrace,
    LParen,
    RParen,
}

/// The symbol that a character is, if it is one.
pub open spec fn symbol_of(c: char) -> Option<Symbol> {
    if c == '<' {
        Some(Symbol::LAngle)
    } else if c == '>' {
        Some(Symbol::RAngle)
    } else if c == ';' {
        Some(Symbol::Semicolon)
    } else if c == '=' {
        Some(Symbol::Equal)
    } else if c == '+' {
        Some(Symbol::Plus)
    } else if c == '-' {
        Some(Symbol::Minus)
    } else if c == '*' {
        Some(Symbol::Star)
    } else if c == '/' {
        Some(Symbol::Slash)
    } else if c == '%' {
        Some(Symbol::Percentage)
    } else if c == '&' {
        Some(Symbol::And)
    } else if c == '|' {
        Some(Symbol::Pipe)
    } else if c == '^' {
        Some(Symbol::Caret)
    } else if c == '_' {
        Some(Symbol::Underscore)
    } else {
        None
    }
}

/// The bracket that a character is, if it is one.
pub open spec fn bracket_of(c: char) -> Option<Bracket> {
    if c == '{' {
        Some(Bracket::LBrace)
    } else if c == '}' {
        Some(Bracket::RBrace)
    } else if c == '(' {
        Some(Bracket::LParen)
    } else if c == ')' {
        Some(Bracket::RParen)
    } else {
        None
    }
}

/// The character that is a symbol.
pub open spec fn symbol_char(symbol: Symbol) -> char {
    match symbol {
        Symbol::LAngle => '<',
        Symbol::RAngle => '>',
        Symbol::Semicolon => ';',
        Symbol::Equal => '=',
        Symbol::Plus => '+',
        Symbol::Minus => '-',
        Symbol::Star => '*',
        Symbol::Slash => '/',
        Symbol::Percentage => '%',
        Symbol::And => '&',
        Symbol::Pipe => '|',
        Symbol::Caret => '^',
        Symbol::Underscore => '_',
    }
}

/// The character that is a bracket.
pub open spec fn bracket_char(bracket: Bracket) -> char {
    match bracket {
        Bracket::LBrace => '{',
        Bracket::RBrace => '}',
        Bracket::LParen => '(',
        Bracket::RParen => ')',
    }
}

/// The lexer reads the character of a symbol as that symbol, and that of a
/// bracket as that bracket.
pub proof fn lemma_chars_read_back(symbol: Symbol, bracket: Bracket)
    ensures
        symbol_of(symbol_char(symbol)) == Some(symbol),
        bracket_of(bracket_char(bracket)) == Some(bracket),
        symbol_of(bracket_char(bracket)) is None,
        bracket_of(symbol_char(symbol)) is None,
{
}

impl Symbol {
    /// The character that is this symbol.
    pub fn to_char(self) -> (c: char)
        ensures
            c == symbol_char(self),
    {
        match self {
            Symbol::LAngle => '<',
            Symbol::RAngle => '>',
            Symbol::Semicolon => ';',
            Symbol::Equal => '=',
            Symbol::Plus => '+',
            Symbol::Minus => '-',
            Symbol::Star => '*',
            Symbol::Slash => '/',
            Symbol::Percentage => '%',
            Symbol::And => '&',
            Symbol::Pipe => '|',
            Symbol::Caret => '^',
            Symbol::Underscore => '_',
        }
    }
}

impl Bracket {
    /// The character that is this bracket.
    pub fn to_char(self) -> (c: char)
        ensures
            c == bracket_char(self),
    {
        match self {
            Bracket::LBrace => '{',
            Bracket::RBrace => '}',
            Bracket::LParen => '(',
            Bracket::RParen => ')',
        }
    }
}

/// A token.
#[derive(Clone, Debug, PartialEq, Eq)]
pub enum Token {
    Keyword(Keyword),
    Identifier(String),
    Number(usize),
    Symbol(Symbol),
    Paren(Bracket),
}

/// What a [`Token`] denotes, with an identifier as a sequence of characters.
pub enum TokenView {
    Keyword(Keyword),
    Identifier(Seq<char>),
    Number(usize),
    Symbol(Symbol),
    Paren(Bracket),
}

impl View for Token {
    type V = TokenView;

    open spec fn view(&self) -> TokenView {
        match self {
            Token::Keyword(k) => TokenView::Keyword(*k),
            Token::Identifier(s) => TokenView::Identifier(s@),
            Token::Number(n) => TokenView::Number(*n),
            Token::Symbol(s) => TokenView::Symbol(*s),
            Token::Paren(b) => TokenView::Paren(*b),
        }
    }
}

/// Why a text has no next token.
#[derive(Clone, Copy, Debug, PartialEq, Eq, Structural)]
pub enum LexerError {
    /// A word that begins like a number and is no decimal numeral, or is one
    /// too large for a machine word.
    NumErr,
    /// A character with which no token begins.
    UnknownToken(char),
}

/// The classes of characters that the lexer tells apart.
#[derive(Clone, Copy, Debug, PartialEq, Eq, Structural)]
pub enum CharClass {
    Alphabetic,
    Alphanumeric,
    Numeric,
    Whitespace,
}

/// A character of the input with the classes that it belongs to.
#[derive(Clone, Copy, Debug, PartialEq, Eq, Structural)]
pub struct Classified {
    pub ch: char,
    pub alphabetic: bool,
    pub alphanumeric: bool,
    pub numeric: bool,
    pub whitespace: bool,
}

impl Classified {
    /// Whether the character belongs to `class`.
    pub open spec fn is(self, class: CharClass) -> bool {
        match class {
            CharClass::Alphabetic => self.alphabetic,
            CharClass::Alphanumeric => self.alphanumeric,
            CharClass::Numeric => self.numeric,
            CharClass::Whitespace => self.whitespace,
        }
    }

    /// Whether the character belongs to `class`.
    pub fn has(&self, class: CharClass) -> (b: bool)
        ensures
            b == self.is(class),
    {
        match class {
            CharClass::Alphabetic => self.alphabetic,
            CharClass::Alphanumeric => self.alphanumeric,
            CharClass::Numeric => self.numeric,
            CharClass::Whitespace => self.whitespace,
        }
    }
}

/// Whether a character has the Unicode property `Alphabetic`, as
/// `char::is_alphabetic` tells.
pub uninterp spec fn is_alphabetic(c: char) -> bool;

/// Whether a character is alphabetic or numeric, as `char::is_alphanumeric`
/// tells.
pub uninterp spec fn is_alphanumeric(c: char) -> bool;

/// Whether a character has one of the Unicode general categories for
/// numbers, as `char::is_numeric` tells.
pub uninterp spec fn is_numeric(c: char) -> bool;

/// Whether a character has the Unicode property `White_Space`, as
/// `char::is_whitespace` tells.
pub uninterp spec fn is_whitespace(c: char) -> bool;

/// Wraps `char::is_alphabetic`, a function of the character alone, whose
/// result is named [`is_alphabetic`].
#[verifier::external_body]
fn char_is_alphabetic(c: char) -> (b: bool)
    ensures
        b == is_alphabetic(c),
{
    c.is_alphabetic()
}

/// Wraps `char::is_alphanumeric`, a function of the character alone, whose
/// result is named [`is_alphanumeric`].
#[verifier::external_body]
fn char_is_alphanumeric(c: char) -> (b: bool)
    ensures
        b == is_alphanumeric(c),
{
    c.is_alphanumeric()
}

/// Wraps `char::is_numeric`, a function of the character alone, whose result
/// is named [`is_numeric`].
#[verifier::external_body]
fn char_is_numeric(c: char) -> (b: bool)
    ensures
        b == is_numeric(c),
{
    c.is_numeric()
}

/// Wraps `char::is_whitespace`, a function of the character alone, whose
/// result is named [`is_whitespace`].
#[verifier::external_body]
fn char_is_whitespace(c: char) -> (b: bool)
    ensures
        b == is_whitespace(c),
{
    c.is_whitespace()
}

/// A character with its classes.
pub open spec fn classified(c: char) -> Classified {
    Classified {
        ch: c,
        alphabetic: is_alphabetic(c),
        alphanumeric: is_alphanumeric(c),
        numeric: is_numeric(c),
        whitespace: is_whitespace(c),
    }
}

/// Tells the classes of a character.
pub fn classify(c: char) -> (res: Classified)
    ensures
        res == classified(c),
{
    Classified {
        ch: c,
        alphabetic: char_is_alphabetic(c),
        alphanumeric: char_is_alphanumeric(c),
        numeric: char_is_numeric(c),
        whitespace: char_is_whitespace(c),
    }
}

/// The characters of a text, each with its classes.
pub open spec fn classified_text(text: Seq<char>) -> Seq<Classified> {
    text.map_values(|c: char| classified(c))
}

/// The characters of a classified input.
pub open spec fn chars_of(input: Seq<Classified>) -> Seq<char> {
    input.map_values(|c: Classified| c.ch)
}

/// The end of the run of characters of one class that begins at `pos`.
pub open spec fn run_end(input: Seq<Classified>, pos: int, class: CharClass) -> int
    decreases input.len() - pos,
{
    if 0 <= pos < input.len() && input[pos].is(class) {
        run_end(input, pos + 1, class)
    } else {
        pos
    }
}

/// The end of the word that begins at `pos` with a character of the class
/// `first` and goes on with alphanumeric characters; `pos` where no such word
/// begins.
pub open spec fn word_end(input: Seq<Classified>, pos: int, first: CharClass) -> int {
    if 0 <= pos < input.len() && input[pos].is(first) {
        run_end(input, pos + 1, CharClass::Alphanumeric)
    } else {
        pos
    }
}

/// The keyword that a word is, if it is one.
pub open spec fn keyword_of(word: Seq<char>) -> Option<Keyword> {
    if word == "fn"@ {
        Some(Keyword::Fn)
    } else if word == "let"@ {
        Some(Keyword::Let)
    } else if word == "match"@ {
        Some(Keyword::Match)
    } else if word == "apply"@ {
        Some(Keyword::Apply)
    } else if word == "papp"@ {
        Some(Keyword::Papp)
    } else {
        None
    }
}

/// The token that a word is: a keyword, or else an identifier.
pub open spec fn word_token(word: Seq<char>) -> TokenView {
    match keyword_of(word) {
        Some(keyword) => TokenView::Keyword(keyword),
        None => TokenView::Identifier(word),
    }
}

/// The token that a numeral is, if it is a decimal numeral that fits a word.
pub open spec fn number_token(word: Seq<char>) -> Result<TokenView, LexerError> {
    match parse_decimal(word) {
        Some(n) => Ok(TokenView::Number(n)),
        None => Err(LexerError::NumErr),
    }
}

/// What a step of the lexer yields: a token or an error, and the position
/// after it.
pub type Lexed = Option<(Result<TokenView, LexerError>, int)>;

/// The symbol at `pos`.
pub open spec fn symbol_at(input: Seq<Classified>, pos: int) -> Lexed {
    if 0 <= pos < input.len() && symbol_of(input[pos].ch) is Some {
        Some((Ok(TokenView::Symbol(symbol_of(input[pos].ch)->Some_0)), pos + 1))
    } else {
        None
    }
}

/// The bracket at `pos`.
pub open spec fn paren_at(input: Seq<Classified>, pos: int) -> Lexed {
    if 0 <= pos < input.len() && bracket_of(input[pos].ch) is Some {
        Some((Ok(TokenView::Paren(bracket_of(input[pos].ch)->Some_0)), pos + 1))
    } else {
        None
    }
}

/// The keyword or identifier that begins at `pos`.
pub open spec fn identifier_at(input: Seq<Classified>, pos: int) -> Lexed {
    let end = word_end(input, pos, CharClass::Alphabetic);
    if end > pos {
        Some((Ok(word_token(chars_of(input).subrange(pos, end))), end))
    } else {
        None
    }
}

/// The number that begins at `pos`.
pub open spec fn number_at(input: Seq<Classified>, pos: int) -> Lexed {
    let end = word_end(input, pos, CharClass::Numeric);
    if end > pos {
        Some((number_token(chars_of(input).subrange(pos, end)), end))
    } else {
        None
    }
}

/// The token that begins at `pos`, which is not white space: a symbol, or
/// else a bracket, a word or a number; any other character is an error, and
/// is not passed. At the end of the input there is none.
pub open spec fn token_at(input: Seq<Classified>, pos: int) -> Lexed {
    if symbol_at(input, pos) is Some {
        symbol_at(input, pos)
    } else if paren_at(input, pos) is Some {
        paren_at(input, pos)
    } else if identifier_at(input, pos) is Some {
        identifier_at(input, pos)
    } else if number_at(input, pos) is Some {
        number_at(input, pos)
    } else if 0 <= pos < input.len() {
        Some((Err(LexerError::UnknownToken(input[pos].ch)), pos))
    } else {
        None
    }
}

/// The next token from `pos` on, after the white space there.
pub open spec fn next_token(input: Seq<Classified>, pos: int) -> Lexed {
    token_at(input, run_end(input, pos, CharClass::Whitespace))
}

/// A run ends within the input, at or after its beginning.
pub proof fn lemma_run_end_bounds(input: Seq<Classified>, pos: int, class: CharClass)
    requires
        0 <= pos <= input.len(),
    ensures
        pos <= run_end(input, pos, class) <= input.len(),
    decreases input.len() - pos,
{
    if pos < input.len() && input[pos].is(class) {
        lemma_run_end_bounds(input, pos + 1, class);
    }
}

/// A token ends within the input, and after its beginning.
pub proof fn lemma_next_token_advances(input: Seq<Classified>, pos: int)
    requires
        0 <= pos <= input.len(),
    ensures
        next_token(input, pos) matches Some((Ok(_), end)) ==> pos < end <= input.len(),
{
    let p = run_end(input, pos, CharClass::Whitespace);
    lemma_run_end_bounds(input, pos, CharClass::Whitespace);
    if p < input.len() {
        lemma_run_end_bounds(input, p + 1, CharClass::Alphanumeric);
    }
}

/// The lexer over a text.
pub struct Scanner {
    input: Vec<Classified>,
    chars: Vec<char>,
    start: usize,
    pos: usize,
}

impl Scanner {
    /// The text, character by character, each with its classes.
    pub closed spec fn input(&self) -> Seq<Classified> {
        self.input@
    }

    /// The number of characters that the lexer has passed.
    pub closed spec fn position(&self) -> int {
        self.pos as int
    }

    /// Where the word begins that is being scanned.
    pub closed spec fn mark(&self) -> int {
        self.start as int
    }

    /// The lexer stands within its text, and holds the characters of it.
    pub closed spec fn scanning(&self) -> bool {
        &&& self.start <= self.pos <= self.input.len()
        &&& self.chars@ == chars_of(self.input@)
    }

    /// The lexer stands within its text, between two tokens.
    pub open spec fn wf(&self) -> bool {
        self.scanning() && self.mark() == self.position()
    }

    /// A lexer at the beginning of `source_code`.
    pub fn new(source_code: &str) -> (scanner: Scanner)
        ensures
            scanner.wf(),
            scanner.position() == 0,
            scanner.input() == classified_text(source_code@),
    {
        let mut input: Vec<Classified> = Vec::new();
        for c in it: source_code.chars()
            invariant
                it.seq() == source_code@,
                input@ == classified_text(source_code@.take(it.index())),
        {
            input.push(classify(c));
            proof {
                assert(source_code@.take(it.index() + 1).drop_last() == source_code@.take(
                    it.index(),
                ));
                assert(input@ == classified_text(source_code@.take(it.index() + 1)));
            }
        }
        proof {
            assert(source_code@.take(source_code@.len() as int) == source_code@);
        }
        Scanner::from_classified(input)
    }

    /// A lexer at the beginning of a text whose characters come with their
    /// classes.
    pub fn from_classified(input: Vec<Classified>) -> (scanner: Scanner)
        ensures
            scanner.wf(),
            scanner.position() == 0,
            scanner.input() == input@,
    {
        let mut chars: Vec<char> = Vec::with_capacity(input.len());
        let mut i: usize = 0;
        while i < input.len()
            invariant
                i <= input.len(),
                chars@ == chars_of(input@.take(i as int)),
            decreases input.len() - i,
        {
            chars.push(input[i].ch);
            i += 1;
            proof {
                assert(input@.take(i as int).drop_last() == input@.take(i as int - 1));
                assert(chars@ == chars_of(input@.take(i as int)));
            }
        }
        proof {
            assert(input@.take(i as int) == input@);
        }
        Scanner { input, chars, start: 0, pos: 0 }
    }

    /// The next character, if there is one.
    fn peek(&self) -> (res: Option<char>)
        requires
            self.scanning(),
        ensures
            self.position() < self.input().len() ==> res == Some(self.input()[self.position()].ch),
            self.position() >= self.input().len() ==> res is None,
    {
        if self.pos < self.input.len() {
            Some(self.input[self.pos].ch)
        } else {
            None
        }
    }

    /// Whether no word is being scanned.
    fn is_init(&self) -> (b: bool)
        ensures
            b == (self.mark() == self.position()),
    {
        self.start == self.pos
    }

    /// Ends the word that is being scanned, and returns it unless it is empty.
    fn consume_scan(&mut self) -> (res: Option<String>)
        requires
            old(self).scanning(),
        ensures
            final(self).wf(),
            final(self).input() == old(self).input(),
            final(self).position() == old(self).position(),
            old(self).mark() == old(self).position() ==> res is None,
            old(self).mark() < old(self).position() ==> res is Some && res->Some_0@ == chars_of(
                old(self).input(),
            ).subrange(old(self).mark(), old(self).position()),
    {
        if self.start == self.pos {
            return None;
        }
        let res = string_of(&self.chars, self.start, self.pos);
        self.start = self.pos;
        Some(res)
    }

    /// Passes the next character if it belongs to `class`.
    fn scan_char_if(&mut self, class: CharClass) -> (b: bool)
        requires
            old(self).scanning(),
        ensures
            final(self).scanning(),
            final(self).input() == old(self).input(),
            final(self).mark() == old(self).mark(),
            b == (old(self).position() < old(self).input().len() && old(self).input()[old(
                self,
            ).position()].is(class)),
            final(self).position() == old(self).position() + if b {
                1int
            } else {
                0int
            },
    {
        if self.pos < self.input.len() && self.input[self.pos].has(class) {
            self.pos += 1;
            true
        } else {
            false
        }
    }

    /// Passes the run of characters of `class` at which the lexer stands.
    fn scan_run(&mut self, class: CharClass)
        requires
            old(self).scanning(),
        ensures
            final(self).scanning(),
            final(self).input() == old(self).input(),
            final(self).mark() == old(self).mark(),
            final(self).position() == run_end(old(self).input(), old(self).position(), class),
    {
        while self.scan_char_if(class)
            invariant
                self.scanning(),
                self.input() == old(self).input(),
                self.mark() == old(self).mark(),
                run_end(self.input(), self.position(), class) == run_end(
                    old(self).input(),
                    old(self).position(),
                    class,
                ),
            decreases self.input().len() - self.position(),
        {
        }
    }

    /// Passes the word at which the lexer stands, if one begins there.
    fn scan_identifier(&mut self)
        requires
            old(self).scanning(),
        ensures
            final(self).scanning(),
            final(self).input() == old(self).input(),
            final(self).mark() == old(self).mark(),
            final(self).position() == word_end(
                old(self).input(),
                old(self).position(),
                CharClass::Alphabetic,
            ),
    {
        if self.scan_char_if(CharClass::Alphabetic) {
            self.scan_run(CharClass::Alphanumeric);
        }
    }

    /// Passes the number at which the lexer stands, if one begins there.
    fn scan_number(&mut self)
        requires
            old(self).scanning(),
        ensures
            final(self).scanning(),
            final(self).input() == old(self).input(),
            final(self).mark() == old(self).mark(),
            final(self).position() == word_end(
                old(self).input(),
                old(self).position(),
                CharClass::Numeric,
            ),
    {
        if self.scan_char_if(CharClass::Numeric) {
            self.scan_run(CharClass::Alphanumeric);
        }
    }

    /// Passes the white space at which the lexer stands.
    pub fn skip_whitespace(&mut self)
        requires
            old(self).wf(),
        ensures
            final(self).wf(),
            final(self).input() == old(self).input(),
            final(self).position() == run_end(
                old(self).input(),
                old(self).position(),
                CharClass::Whitespace,
            ),
    {
        self.scan_run(CharClass::Whitespace);
        self.start = self.pos;
    }

    /// The keyword or identifier at which the lexer stands, if one begins
    /// there; the lexer passes it.
    pub fn lex_identifier(&mut self) -> (res: Option<Token>)
        requires
            old(self).wf(),
        ensures
            final(self).wf(),
            final(self).input() == old(self).input(),
            match identifier_at(old(self).input(), old(self).position()) {
                Some((token, end)) => res is Some && token == Ok::<TokenView, LexerError>(res->Some_0@)
                    && final(self).position() == end,
                None => res is None && final(self).position() == old(self).position(),
            },
    {
        self.scan_identifier();
        let res = match self.consume_scan() {
            None => {
                return None;
            },
            Some(res) => res,
        };
        Some(
            match keyword(&res) {
                Some(keyword) => Token::Keyword(keyword),
                None => Token::Identifier(res),
            },
        )
    }

    /// The number at which the lexer stands, if one begins there; the lexer
    /// passes it, also where it is no decimal numeral or too large.
    pub fn lex_number(&mut self) -> (res: Option<Result<Token, LexerError>>)
        requires
            old(self).wf(),
        ensures
            final(self).wf(),
            final(self).input() == old(self).input(),
            match number_at(old(self).input(), old(self).position()) {
                Some((token, end)) => res is Some && token == token_view(res->Some_0)
                    && final(self).position() == end,
                None => res is None && final(self).position() == old(self).position(),
            },
    {
        self.scan_number();
        if self.is_init() {
            return None;
        }
        let num = parse_number(&self.chars, self.start, self.pos);
        self.start = self.pos;
        match num {
            Some(n) => Some(Ok(Token::Number(n))),
            None => Some(Err(LexerError::NumErr)),
        }
    }

    /// The bracket at which the lexer stands, if there is one; the lexer
    /// passes it.
    pub fn lex_paren(&mut self) -> (res: Option<Token>)
        requires
            old(self).wf(),
        ensures
            final(self).wf(),
            final(self).input() == old(self).input(),
            match paren_at(old(self).input(), old(self).position()) {
                Some((token, end)) => res is Some && token == Ok::<TokenView, LexerError>(res->Some_0@)
                    && final(self).position() == end,
                None => res is None && final(self).position() == old(self).position(),
            },
    {
        let c = match self.peek() {
            None => {
                return None;
            },
            Some(c) => c,
        };
        let token = match c {
            '{' => Token::Paren(Bracket::LBrace),
            '}' => Token::Paren(Bracket::RBrace),
            '(' => Token::Paren(Bracket::LParen),
            ')' => Token::Paren(Bracket::RParen),
            _ => {
                return None;
            },
        };
        self.pos += 1;
        self.start = self.pos;
        Some(token)
    }

    /// The symbol at which the lexer stands, if there is one; the lexer
    /// passes it.
    pub fn lex_symbol(&mut self) -> (res: Option<Token>)
        requires
            old(self).wf(),
        ensures
            final(self).wf(),
            final(self).input() == old(self).input(),
            match symbol_at(old(self).input(), old(self).position()) {
                Some((token, end)) => res is Some && token == Ok::<TokenView, LexerError>(res->Some_0@)
                    && final(self).position() == end,
                None => res is None && final(self).position() == old(self).position(),
            },
    {
        let c = match self.peek() {
            None => {
                return None;
            },
            Some(c) => c,
        };
        let token = match c {
            '<' => Token::Symbol(Symbol::LAngle),
            '>' => Token::Symbol(Symbol::RAngle),
            ';' => Token::Symbol(Symbol::Semicolon),
            '=' => Token::Symbol(Symbol::Equal),
            '+' => Token::Symbol(Symbol::Plus),
            '-' => Token::Symbol(Symbol::Minus),
            '*' => Token::Symbol(Symbol::Star),
            '/' => Token::Symbol(Symbol::Slash),
            '%' => Token::Symbol(Symbol::Percentage),
            '&' => Token::Symbol(Symbol::And),
            '|' => Token::Symbol(Symbol::Pipe),
            '^' => Token::Symbol(Symbol::Caret),
            '_' => Token::Symbol(Symbol::Underscore),
            _ => {
                return None;
            },
        };
        self.pos += 1;
        self.start = self.pos;
        Some(token)
    }

    /// The next token, after any white space: `None` at the end of the text,
    /// an error where no token begins or a number is none. The lexer passes
    /// the white space and the token, but not a character with which no token
    /// begins.
    pub fn next(&mut self) -> (res: Option<Result<Token, LexerError>>)
        requires
            old(self).wf(),
        ensures
            final(self).wf(),
            final(self).input() == old(self).input(),
            match next_token(old(self).input(), old(self).position()) {
                Some((token, end)) => res is Some && token == token_view(res->Some_0)
                    && final(self).position() == end,
                None => res is None && final(self).position() == run_end(
                    old(self).input(),
                    old(self).position(),
                    CharClass::Whitespace,
                ),
            },
    {
        self.skip_whitespace();
        if let Some(t) = self.lex_symbol() {
            return Some(Ok(t));
        }
        if let Some(t) = self.lex_paren() {
            return Some(Ok(t));
        }
        if let Some(t) = self.lex_identifier() {
            return Some(Ok(t));
        }
        if let Some(m) = self.lex_number() {
            return Some(m);
        }
        if let Some(c) = self.peek() {
            return Some(Err(LexerError::UnknownToken(c)));
        }
        None
    }
}

/// A token or an error, the token taken by its view.
pub open spec fn token_view(res: Result<Token, LexerError>) -> Result<TokenView, LexerError> {
    match res {
        Ok(token) => Ok(token@),
        Err(error) => Err(error),
    }
}

/// The views of a list of tokens, in order.
pub open spec fn tokens_view(tokens: Seq<Token>) -> Seq<TokenView> {
    tokens.map_values(|token: Token| token@)
}

/// The tokens of the input from `pos` on, or the first error met.
pub open spec fn tokens_from(input: Seq<Classified>, pos: int) -> Result<
    Seq<TokenView>,
    LexerError,
>
    decreases input.len() - pos,
    when 0 <= pos <= input.len()
{
    match next_token(input, pos) {
        None => Ok(Seq::empty()),
        Some((Err(error), _)) => Err(error),
        Some((Ok(token), end)) => {
            proof {
                lemma_next_token_advances(input, pos);
            }
            match tokens_from(input, end) {
                Err(error) => Err(error),
                Ok(tokens) => Ok(seq![token] + tokens),
            }
        },
    }
}

/// The tokens of a text, or the first error met.
pub fn tokenize(source_code: &str) -> (res: Result<Vec<Token>, LexerError>)
    ensures
        match tokens_from(classified_text(source_code@), 0) {
            Ok(tokens) => res is Ok && tokens_view(res->Ok_0@) == tokens,
            Err(error) => res == Err::<Vec<Token>, LexerError>(error),
        },
{
    let mut scanner = Scanner::new(source_code);
    let mut tokens: Vec<Token> = Vec::new();
    let ghost input = scanner.input();
    loop
        invariant
            scanner.wf(),
            scanner.input() == input,
            input == classified_text(source_code@),
            0 <= scanner.position() <= input.len(),
            match tokens_from(input, scanner.position()) {
                Ok(rest) => tokens_from(input, 0) == Ok::<Seq<TokenView>, LexerError>(
                    tokens_view(tokens@) + rest,
                ),
                Err(error) => tokens_from(input, 0) == Err::<Seq<TokenView>, LexerError>(error),
            },
        decreases input.len() - scanner.position(),
    {
        proof {
            lemma_next_token_advances(input, scanner.position());
        }
        match scanner.next() {
            None => {
                proof {
                    assert(tokens_view(tokens@) + Seq::<TokenView>::empty() == tokens_view(
                        tokens@,
                    ));
                }
                return Ok(tokens);
            },
            Some(Err(error)) => {
                return Err(error);
            },
            Some(Ok(token)) => {
                let ghost before = tokens@;
                tokens.push(token);
                proof {
                    let rest = tokens_from(input, scanner.position());
                    assert(tokens_view(tokens@) == tokens_view(before).push(token@));
                    if let Ok(rest) = rest {
                        assert(tokens_view(before) + (seq![token@] + rest) == tokens_view(tokens@)
                            + rest);
                    }
                }
            },
        }
    }
}

/// The keyword that a word is, if it is one.
pub fn keyword(word: &String) -> (res: Option<Keyword>)
    ensures
        res == keyword_of(word@),
{
    if str_eq(word, "fn") {
        Some(Keyword::Fn)
    } else if str_eq(word, "let") {
        Some(Keyword::Let)
    } else if str_eq(word, "match") {
        Some(Keyword::Match)
    } else if str_eq(word, "apply") {
        Some(Keyword::Apply)
    } else if str_eq(word, "papp") {
        Some(Keyword::Papp)
    } else {
        None
    }
}

/// Whether a string and a string slice hold the same characters.
pub fn str_eq(a: &String, b: &str) -> (res: bool)
    ensures
        res == (a@ == b@),
{
    let b = b.to_owned();
    *a == b
}

} // verus!
