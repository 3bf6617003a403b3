//! The parser: from tokens to definitions, by recursive descent.

use crate::expr::{atoms_view, names_view, Atom, Definition, Expression, Operation};
use crate::grammar;
use crate::grammar::ParserErrorView;
use crate::lexer::{str_eq, tokens_view, Bracket, Keyword, Symbol, Token, TokenView};
use crate::text::push_char;
use vstd::prelude::*;

verus! {

/// Why a list of tokens is no program.
#[derive(Debug, PartialEq, Eq)]
pub enum ParserError {
    /// What should have stood where the parser stopped.
    Expected(String),
    /// Symbols in the place of an operator that are none.
    UnknownOperation(String),
}

impl View for ParserError {
    type V = ParserErrorView;

    open spec fn view(&self) -> ParserErrorView {
        match self {
            ParserError::Expected(msg) => ParserErrorView::Expected(msg@),
            ParserError::UnknownOperation(symbols) => ParserErrorView::UnknownOperation(symbols@),
        }
    }
}

/// The error that `msg` should have stood where the parser stopped.
fn expected(msg: &str) -> (error: ParserError)
    ensures
        error@ == ParserErrorView::Expected(msg@),
{
    ParserError::Expected(msg.to_owned())
}

/// Whether two tokens are the same.
pub fn token_eq(a: &Token, b: &Token) -> (res: bool)
    ensures
        res == (a@ == b@),
{
    match (a, b) {
        (Token::Keyword(x), Token::Keyword(y)) => *x == *y,
        (Token::Identifier(x), Token::Identifier(y)) => *x == *y,
        (Token::Number(x), Token::Number(y)) => *x == *y,
        (Token::Symbol(x), Token::Symbol(y)) => *x == *y,
        (Token::Paren(x), Token::Paren(y)) => *x == *y,
        _ => false,
    }
}

/// The characters of a list of symbols.
fn symbols_string(symbols: &Vec<Symbol>) -> (s: String)
    ensures
        s@ == grammar::symbols_chars(symbols@),
{
    let mut s = String::new();
    let mut i: usize = 0;
    while i < symbols.len()
        invariant
            i <= symbols.len(),
            s@ == grammar::symbols_chars(symbols@.take(i as int)),
        decreases symbols.len() - i,
    {
        push_char(&mut s, symbols[i].to_char());
        i += 1;
        proof {
            assert(s@ =~= grammar::symbols_chars(symbols@.take(i as int)));
        }
    }
    proof {
        assert(symbols@.take(i as int) == symbols@);
    }
    s
}

/// The operation that a run of symbols writes, if it writes one.
fn operation(text: &String) -> (res: Option<Operation>)
    ensures
        res == grammar::operation_of(text@),
{
    if str_eq(text, "+") {
        Some(Operation::Add)
    } else if str_eq(text, "-") {
        Some(Operation::Sub)
    } else if str_eq(text, "*") {
        Some(Operation::Mul)
    } else if str_eq(text, "/") {
        Some(Operation::Div)
    } else if str_eq(text, "%") {
        Some(Operation::Mod)
    } else if str_eq(text, "==") {
        Some(Operation::Eq)
    } else if str_eq(text, "<") {
        Some(Operation::Lt)
    } else if str_eq(text, "<=") {
        Some(Operation::Le)
    } else if str_eq(text, ">") {
        Some(Operation::Gt)
    } else if str_eq(text, ">=") {
        Some(Operation::Ge)
    } else if str_eq(text, "&&") {
        Some(Operation::And)
    } else if str_eq(text, "||") {
        Some(Operation::Or)
    } else if str_eq(text, "^") {
        Some(Operation::Xor)
    } else if str_eq(text, ">>") {
        Some(Operation::Sr)
    } else if str_eq(text, "<<") {
        Some(Operation::Sl)
    } else {
        None
    }
}

/// What the token promises with which an expression begins.
enum Lead {
    Let,
    Match,
    Bracket,
    Other,
}

/// What stands first in a bracketed expression that is no operation.
enum Head {
    Function,
    Apply,
    Papp,
    Other,
}

/// The parser over a list of tokens.
pub struct Scanner {
    tokens: Vec<Token>,
    pos: usize,
}

impl Scanner {
    /// The tokens.
    pub closed spec fn tokens(&self) -> Seq<TokenView> {
        tokens_view(self.tokens@)
    }

    /// The number of tokens that the parser has passed.
    pub closed spec fn position(&self) -> int {
        self.pos as int
    }

    /// The parser stands within its tokens.
    pub open spec fn wf(&self) -> bool {
        0 <= self.position() <= self.tokens().len()
    }

    /// Whether `other` has the tokens of `self`.
    pub open spec fn same_tokens(&self, other: &Scanner) -> bool {
        self.tokens() == other.tokens()
    }

    /// A parser at the beginning of `tokens`.
    pub fn new(tokens: Vec<Token>) -> (scanner: Scanner)
        ensures
            scanner.wf(),
            scanner.position() == 0,
            scanner.tokens() == tokens_view(tokens@),
    {
        Scanner { tokens, pos: 0 }
    }

    /// Passes the next token.
    fn consume_token(&mut self)
        requires
            old(self).wf(),
            old(self).position() < old(self).tokens().len(),
        ensures
            final(self).wf(),
            final(self).same_tokens(old(self)),
            final(self).position() == old(self).position() + 1,
    {
        proof {
            assert(self.tokens().len() == self.tokens.len());
        }
        self.pos += 1;
    }

    /// The next token, if there is one.
    fn peek(&self) -> (res: Option<&Token>)
        requires
            self.wf(),
        ensures
            match grammar::peek(self.tokens(), self.position()) {
                Some(token) => res is Some && res->Some_0@ == token,
                None => res is None,
            },
    {
        if self.pos < self.tokens.len() {
            Some(&self.tokens[self.pos])
        } else {
            None
        }
    }

    /// Passes the token `t`, which must be the next.
    fn expect_token(&mut self, t: &Token) -> (res: Result<(), ParserError>)
        requires
            old(self).wf(),
        ensures
            final(self).wf(),
            final(self).same_tokens(old(self)),
            match grammar::expect_token(old(self).tokens(), old(self).position(), t@) {
                Ok(end) => res is Ok && final(self).position() == end,
                Err(error) => res is Err && res->Err_0@ == error,
            },
    {
        let found = match self.peek() {
            Some(s) => token_eq(s, t),
            None => false,
        };
        if found {
            self.consume_token();
            Ok(())
        } else {
            Err(ParserError::Expected(t.pretty().text()))
        }
    }

    /// The run of symbols at which the parser stands, unless it is empty;
    /// the parser passes it.
    fn parse_symbol(&mut self) -> (res: Option<Vec<Symbol>>)
        requires
            old(self).wf(),
        ensures
            final(self).wf(),
            final(self).same_tokens(old(self)),
            final(self).position() == grammar::symbols_end(
                old(self).tokens(),
                old(self).position(),
            ),
            res is None <==> final(self).position() == old(self).position(),
            res is Some ==> final(self).position() > old(self).position()
                && grammar::symbols_chars(res->Some_0@) == grammar::symbols_text(
                old(self).tokens(),
                old(self).position(),
                final(self).position(),
            ),
    {
        let mut symbols: Vec<Symbol> = Vec::new();
        let ghost begin = self.position();
        loop
            invariant
                self.wf(),
                self.same_tokens(old(self)),
                begin == old(self).position(),
                0 <= begin <= self.position(),
                symbols@.len() == self.position() - begin,
                grammar::symbols_end(self.tokens(), self.position()) == grammar::symbols_end(
                    self.tokens(),
                    begin,
                ),
                forall|i: int|
                    0 <= i < symbols@.len() ==> (#[trigger] self.tokens()[begin + i])
                        == TokenView::Symbol(symbols@[i]),
            ensures
                grammar::symbols_end(self.tokens(), self.position()) == self.position(),
            decreases self.tokens().len() - self.position(),
        {
            let s = match self.peek() {
                Some(Token::Symbol(s)) => *s,
                _ => {
                    break ;
                },
            };
            symbols.push(s);
            self.consume_token();
        }
        if symbols.len() == 0 {
            return None;
        }
        proof {
            assert(grammar::symbols_chars(symbols@) =~= grammar::symbols_text(
                self.tokens(),
                begin,
                self.position(),
            ));
        }
        Some(symbols)
    }

    /// The atom at which the parser stands, if there is one; the parser
    /// passes it.
    fn parse_atom(&mut self) -> (res: Option<Atom>)
        requires
            old(self).wf(),
        ensures
            final(self).wf(),
            final(self).same_tokens(old(self)),
            match grammar::parse_atom(old(self).tokens(), old(self).position()) {
                Some(atom) => res is Some && res->Some_0@ == atom && final(self).position() == old(self).position() + 1,
                None => res is None && final(self).position() == old(self).position(),
            },
    {
        let x = match self.peek() {
            Some(Token::Identifier(v)) => Atom::Var(v.clone()),
            Some(Token::Number(n)) => Atom::Lit(*n),
            _ => {
                return None;
            },
        };
        self.consume_token();
        Some(x)
    }

    /// The atom at which the parser must stand; the parser passes it.
    fn expect_atom(&mut self) -> (res: Result<Atom, ParserError>)
        requires
            old(self).wf(),
        ensures
            final(self).wf(),
            final(self).same_tokens(old(self)),
            match grammar::expect_atom(old(self).tokens(), old(self).position()) {
                Ok((atom, end)) => res is Ok && res->Ok_0@ == atom && final(self).position()
                    == end,
                Err(error) => res is Err && res->Err_0@ == error,
            },
    {
        match self.parse_atom() {
            Some(atom) => Ok(atom),
            None => Err(expected("an atom")),
        }
    }

    /// The run of atoms at which the parser stands; the parser passes it.
    fn parse_atoms(&mut self) -> (res: Vec<Atom>)
        requires
            old(self).wf(),
        ensures
            final(self).wf(),
            final(self).same_tokens(old(self)),
            final(self).position() == grammar::atoms_end(old(self).tokens(), old(self).position()),
            final(self).position() >= old(self).position(),
            atoms_view(res@) == grammar::atoms_between(
                old(self).tokens(),
                old(self).position(),
                final(self).position(),
            ),
    {
        let mut args: Vec<Atom> = Vec::new();
        let ghost begin = self.position();
        loop
            invariant
                self.wf(),
                self.same_tokens(old(self)),
                begin == old(self).position(),
                0 <= begin <= self.position(),
                args@.len() == self.position() - begin,
                grammar::atoms_end(self.tokens(), self.position()) == grammar::atoms_end(
                    self.tokens(),
                    begin,
                ),
                forall|i: int|
                    0 <= i < args@.len() ==> grammar::atom_of(
                        #[trigger] self.tokens()[begin + i],
                    ) == Some(args@[i]@),
            ensures
                grammar::atoms_end(self.tokens(), self.position()) == self.position(),
            decreases self.tokens().len() - self.position(),
        {
            match self.parse_atom() {
                Some(arg) => {
                    args.push(arg);
                },
                None => {
                    break ;
                },
            }
        }
        proof {
            assert(atoms_view(args@) =~= grammar::atoms_between(
                self.tokens(),
                begin,
                self.position(),
            ));
        }
        args
    }

    /// The operator at which the parser stands: `None` where no symbol
    /// stands there, and an error where the symbols there write no operation.
    fn parse_op(&mut self) -> (res: Option<Result<Operation, ParserError>>)
        requires
            old(self).wf(),
        ensures
            final(self).wf(),
            final(self).same_tokens(old(self)),
            match grammar::parse_op(old(self).tokens(), old(self).position()) {
                Some(Ok((op, end))) => res == Some(Ok::<Operation, ParserError>(op))
                    && final(self).position() == end,
                Some(Err(error)) => res is Some && res->Some_0 is Err && res->Some_0->Err_0@
                    == error,
                None => res is None && final(self).position() == old(self).position(),
            },
    {
        let symbols = match self.parse_symbol() {
            None => {
                return None;
            },
            Some(symbols) => symbols,
        };
        let string = symbols_string(&symbols);
        match operation(&string) {
            Some(op) => Some(Ok(op)),
            None => Some(Err(ParserError::UnknownOperation(string))),
        }
    }

    /// Passes the arrow `=>`, which must be next.
    fn expect_arrow(&mut self) -> (res: Result<(), ParserError>)
        requires
            old(self).wf(),
        ensures
            final(self).wf(),
            final(self).same_tokens(old(self)),
            match grammar::expect_arrow(old(self).tokens(), old(self).position()) {
                Ok(end) => res is Ok && final(self).position() == end && end > old(self).position(),
                Err(error) => res is Err && res->Err_0@ == error,
            },
    {
        let symbols = match self.parse_symbol() {
            None => {
                return Err(expected("=>"));
            },
            Some(symbols) => symbols,
        };
        let string = symbols_string(&symbols);
        if !str_eq(&string, "=>") {
            return Err(expected("=>"));
        }
        Ok(())
    }

    /// The name at which the parser must stand, with the atoms after it and
    /// the closing bracket; `what` says what the name is, for the error.
    fn parse_operands(&mut self, what: &str) -> (res: Result<(String, Vec<Atom>), ParserError>)
        requires
            old(self).wf(),
        ensures
            final(self).wf(),
            final(self).same_tokens(old(self)),
            match grammar::parse_operands(old(self).tokens(), old(self).position(), what@) {
                Ok(((func, args), end)) => res is Ok && res->Ok_0.0@ == func && atoms_view(
                    res->Ok_0.1@,
                ) == args && final(self).position() == end && old(self).position() < end,
                Err(error) => res is Err && res->Err_0@ == error,
            },
    {
        let func = match self.peek() {
            Some(Token::Identifier(func)) => func.clone(),
            _ => {
                return Err(expected(what));
            },
        };
        self.consume_token();
        let args = self.parse_atoms();
        match self.expect_token(&Token::Paren(Bracket::RParen)) {
            Err(error) => Err(error),
            Ok(()) => Ok((func, args)),
        }
    }

    /// The bracketed expression at which the parser must stand: an operation
    /// on two atoms, a call, an application or a partial application.
    fn parse_apply(&mut self) -> (res: Result<Expression, ParserError>)
        requires
            old(self).wf(),
        ensures
            final(self).wf(),
            final(self).same_tokens(old(self)),
            match grammar::parse_apply(old(self).tokens(), old(self).position()) {
                Ok((expr, end)) => res is Ok && res->Ok_0@ == expr && final(self).position()
                    == end && old(self).position() < end,
                Err(error) => res is Err && res->Err_0@ == error,
            },
    {
        match self.expect_token(&Token::Paren(Bracket::LParen)) {
            Err(error) => {
                return Err(error);
            },
            Ok(()) => {},
        }
        if let Some(op) = self.parse_op() {
            let op = match op {
                Err(error) => {
                    return Err(error);
                },
                Ok(op) => op,
            };
            let x = match self.expect_atom() {
                Err(error) => {
                    return Err(error);
                },
                Ok(x) => x,
            };
            let y = match self.expect_atom() {
                Err(error) => {
                    return Err(error);
                },
                Ok(y) => y,
            };
            return match self.expect_token(&Token::Paren(Bracket::RParen)) {
                Err(error) => Err(error),
                Ok(()) => Ok(Expression::Operate(op, x, y)),
            };
        }
        let head = match self.peek() {
            Some(Token::Identifier(_)) => Head::Function,
            Some(Token::Keyword(Keyword::Apply)) => Head::Apply,
            Some(Token::Keyword(Keyword::Papp)) => Head::Papp,
            _ => Head::Other,
        };
        match head {
            Head::Function => match self.parse_operands("") {
                Err(error) => Err(error),
                Ok((func, args)) => Ok(Expression::Call(func, args)),
            },
            Head::Apply => {
                self.consume_token();
                match self.parse_operands("a function to apply to") {
                    Err(error) => Err(error),
                    Ok((func, args)) => Ok(Expression::Apply(func, args)),
                }
            },
            Head::Papp => {
                self.consume_token();
                match self.parse_operands("a function to partially apply to") {
                    Err(error) => Err(error),
                    Ok((func, args)) => Ok(Expression::Papp(func, args)),
                }
            },
            Head::Other => Err(expected("a function or operator")),
        }
    }

    /// The expression at which the parser must stand.
    fn parse_expr(&mut self) -> (res: Result<Expression, ParserError>)
        requires
            old(self).wf(),
        ensures
            final(self).wf(),
            final(self).same_tokens(old(self)),
            match grammar::parse_expr(old(self).tokens(), old(self).position()) {
                Ok((expr, end)) => res is Ok && res->Ok_0@ == expr && final(self).position()
                    == end && old(self).position() < end,
                Err(error) => res is Err && res->Err_0@ == error,
            },
        decreases old(self).tokens().len() - old(self).position(), 3int,
    {
        let lead = match self.peek() {
            Some(Token::Keyword(Keyword::Let)) => Lead::Let,
            Some(Token::Keyword(Keyword::Match)) => Lead::Match,
            Some(Token::Paren(Bracket::LParen)) => Lead::Bracket,
            _ => Lead::Other,
        };
        match lead {
            Lead::Let => self.parse_let(),
            Lead::Match => self.parse_match(),
            Lead::Bracket => self.parse_apply(),
            Lead::Other => match self.parse_atom() {
                Some(atom) => Ok(Expression::Unit(atom)),
                None => Err(expected("an expression")),
            },
        }
    }

    /// The `let` at which the parser must stand.
    fn parse_let(&mut self) -> (res: Result<Expression, ParserError>)
        requires
            old(self).wf(),
        ensures
            final(self).wf(),
            final(self).same_tokens(old(self)),
            match grammar::parse_let(old(self).tokens(), old(self).position()) {
                Ok((expr, end)) => res is Ok && res->Ok_0@ == expr && final(self).position()
                    == end && old(self).position() < end,
                Err(error) => res is Err && res->Err_0@ == error,
            },
        decreases old(self).tokens().len() - old(self).position(), 0int,
    {
        match self.expect_token(&Token::Keyword(Keyword::Let)) {
            Err(error) => {
                return Err(error);
            },
            Ok(()) => {},
        }
        let name = match self.peek() {
            Some(Token::Identifier(name)) => name.clone(),
            _ => {
                return Err(expected("an identifier"));
            },
        };
        self.consume_token();
        match self.expect_token(&Token::Symbol(Symbol::Equal)) {
            Err(error) => {
                return Err(error);
            },
            Ok(()) => {},
        }
        let val = match self.parse_expr() {
            Err(error) => {
                return Err(error);
            },
            Ok(val) => val,
        };
        match self.expect_token(&Token::Symbol(Symbol::Semicolon)) {
            Err(error) => {
                return Err(error);
            },
            Ok(()) => {},
        }
        let body = match self.parse_expr() {
            Err(error) => {
                return Err(error);
            },
            Ok(body) => body,
        };
        Ok(Expression::Let(name, Box::new(val), Box::new(body)))
    }

    /// The branch at which the parser must stand: an arrow and an expression
    /// in braces. The parser has passed the pattern, which began at `before`.
    fn parse_branch(&mut self, before: Ghost<int>) -> (res: Result<Expression, ParserError>)
        requires
            old(self).wf(),
            0 <= before@ < old(self).position(),
        ensures
            final(self).wf(),
            final(self).same_tokens(old(self)),
            match grammar::parse_branch(old(self).tokens(), old(self).position(), before@) {
                Ok((expr, end)) => res is Ok && res->Ok_0@ == expr && final(self).position()
                    == end && old(self).position() < end,
                Err(error) => res is Err && res->Err_0@ == error,
            },
        decreases old(self).tokens().len() - before@, 1int,
    {
        match self.expect_arrow() {
            Err(error) => {
                return Err(error);
            },
            Ok(()) => {},
        }
        match self.expect_token(&Token::Paren(Bracket::LBrace)) {
            Err(error) => {
                return Err(error);
            },
            Ok(()) => {},
        }
        let expr = match self.parse_expr() {
            Err(error) => {
                return Err(error);
            },
            Ok(expr) => expr,
        };
        match self.expect_token(&Token::Paren(Bracket::RBrace)) {
            Err(error) => Err(error),
            Ok(()) => Ok(expr),
        }
    }

    /// The `match` at which the parser must stand.
    fn parse_match(&mut self) -> (res: Result<Expression, ParserError>)
        requires
            old(self).wf(),
        ensures
            final(self).wf(),
            final(self).same_tokens(old(self)),
            match grammar::parse_match(old(self).tokens(), old(self).position()) {
                Ok((expr, end)) => res is Ok && res->Ok_0@ == expr && final(self).position()
                    == end && old(self).position() < end,
                Err(error) => res is Err && res->Err_0@ == error,
            },
        decreases old(self).tokens().len() - old(self).position(), 0int,
    {
        match self.expect_token(&Token::Keyword(Keyword::Match)) {
            Err(error) => {
                return Err(error);
            },
            Ok(()) => {},
        }
        let atom = match self.expect_atom() {
            Err(error) => {
                return Err(error);
            },
            Ok(atom) => atom,
        };
        match self.expect_token(&Token::Paren(Bracket::LBrace)) {
            Err(error) => {
                return Err(error);
            },
            Ok(()) => {},
        }
        let matches = match self.parse_cases() {
            Err(error) => {
                return Err(error);
            },
            Ok(matches) => matches,
        };
        let has_default = match self.peek() {
            Some(Token::Symbol(Symbol::Underscore)) => true,
            _ => false,
        };
        let mut default: Option<Box<Expression>> = None;
        if has_default {
            let ghost before = self.position();
            self.consume_token();
            let expr = match self.parse_branch(Ghost(before)) {
                Err(error) => {
                    return Err(error);
                },
                Ok(expr) => expr,
            };
            default = Some(Box::new(expr));
        }
        let ghost cases = cases_view(matches@);
        match self.expect_token(&Token::Paren(Bracket::RBrace)) {
            Err(error) => Err(error),
            Ok(()) => {
                let expr = Expression::Match(atom, matches, default);
                proof {
                    assert(expr@->Match_1 =~= cases);
                }
                Ok(expr)
            },
        }
    }

    /// The cases at which the parser stands: each a number with its branch,
    /// for as long as a number is next.
    fn parse_cases(&mut self) -> (res: Result<Vec<(usize, Expression)>, ParserError>)
        requires
            old(self).wf(),
        ensures
            final(self).wf(),
            final(self).same_tokens(old(self)),
            match grammar::parse_cases(old(self).tokens(), old(self).position()) {
                Ok((cases, end)) => res is Ok && cases_view(res->Ok_0@) == cases && final(self).position() == end && old(self).position() <= end,
                Err(error) => res is Err && res->Err_0@ == error,
            },
        decreases old(self).tokens().len() - old(self).position(), 2int,
    {
        let n = match self.peek() {
            Some(Token::Number(n)) => *n,
            _ => {
                proof {
                    assert(cases_view(Seq::<(usize, Expression)>::empty()) =~= Seq::empty());
                }
                return Ok(Vec::new());
            },
        };
        let ghost before = self.position();
        self.consume_token();
        let expr = match self.parse_branch(Ghost(before)) {
            Err(error) => {
                return Err(error);
            },
            Ok(expr) => expr,
        };
        let mut rest = match self.parse_cases() {
            Err(error) => {
                return Err(error);
            },
            Ok(rest) => rest,
        };
        let ghost tail = rest@;
        let ghost head = expr@;
        rest.insert(0, (n, expr));
        proof {
            assert(cases_view(rest@) =~= seq![(n, head)] + cases_view(tail));
        }
        Ok(rest)
    }

    /// The header of a function, at which the parser must stand: in
    /// brackets, its name and its parameters.
    fn parse_function_header(&mut self) -> (res: Result<(String, Vec<String>), ParserError>)
        requires
            old(self).wf(),
        ensures
            final(self).wf(),
            final(self).same_tokens(old(self)),
            match grammar::parse_function_header(old(self).tokens(), old(self).position()) {
                Ok(((name, params), end)) => res is Ok && res->Ok_0.0@ == name && names_view(
                    res->Ok_0.1@,
                ) == params && final(self).position() == end && old(self).position() < end,
                Err(error) => res is Err && res->Err_0@ == error,
            },
    {
        match self.expect_token(&Token::Paren(Bracket::LParen)) {
            Err(error) => {
                return Err(error);
            },
            Ok(()) => {},
        }
        let name = match self.peek() {
            Some(Token::Identifier(name)) => name.clone(),
            _ => {
                return Err(expected("function name"));
            },
        };
        self.consume_token();
        let mut args: Vec<String> = Vec::new();
        let ghost begin = self.position();
        loop
            invariant
                self.wf(),
                self.same_tokens(old(self)),
                0 <= begin <= self.position(),
                args@.len() == self.position() - begin,
                grammar::identifiers_end(self.tokens(), self.position())
                    == grammar::identifiers_end(self.tokens(), begin),
                forall|i: int|
                    0 <= i < args@.len() ==> (#[trigger] self.tokens()[begin + i])
                        == TokenView::Identifier(args@[i]@),
            ensures
                grammar::identifiers_end(self.tokens(), self.position()) == self.position(),
            decreases self.tokens().len() - self.position(),
        {
            let arg = match self.peek() {
                Some(Token::Identifier(arg)) => arg.clone(),
                _ => {
                    break ;
                },
            };
            args.push(arg);
            self.consume_token();
        }
        proof {
            assert(names_view(args@) =~= grammar::identifiers_between(
                self.tokens(),
                begin,
                self.position(),
            ));
        }
        match self.expect_token(&Token::Paren(Bracket::RParen)) {
            Err(error) => Err(error),
            Ok(()) => Ok((name, args)),
        }
    }

    /// The function at which the parser must stand, after the keyword `fn`.
    fn parse_def_inner(&mut self) -> (res: Result<Definition, ParserError>)
        requires
            old(self).wf(),
        ensures
            final(self).wf(),
            final(self).same_tokens(old(self)),
            match grammar::parse_def_inner(old(self).tokens(), old(self).position()) {
                Ok((def, end)) => res is Ok && res->Ok_0@ == def && final(self).position() == end
                    && old(self).position() < end,
                Err(error) => res is Err && res->Err_0@ == error,
            },
    {
        let (name, params) = match self.parse_function_header() {
            Err(error) => {
                return Err(error);
            },
            Ok(header) => header,
        };
        match self.expect_token(&Token::Paren(Bracket::LBrace)) {
            Err(error) => {
                return Err(error);
            },
            Ok(()) => {},
        }
        let body = match self.parse_expr() {
            Err(error) => {
                return Err(error);
            },
            Ok(body) => body,
        };
        match self.expect_token(&Token::Paren(Bracket::RBrace)) {
            Err(error) => Err(error),
            Ok(()) => Ok(Definition { name, params, body }),
        }
    }

    /// The function at which the parser stands: `None` where the keyword `fn`
    /// is not next, in which case the parser stays where it is.
    fn parse_def(&mut self) -> (res: Option<Result<Definition, ParserError>>)
        requires
            old(self).wf(),
        ensures
            final(self).wf(),
            final(self).same_tokens(old(self)),
            match grammar::parse_def(old(self).tokens(), old(self).position()) {
                Some(Ok((def, end))) => res is Some && res->Some_0 is Ok && res->Some_0->Ok_0@
                    == def && final(self).position() == end && old(self).position() < end,
                Some(Err(error)) => res is Some && res->Some_0 is Err && res->Some_0->Err_0@
                    == error,
                None => res is None && final(self).position() == old(self).position(),
            },
    {
        let found = match self.peek() {
            Some(token) => token_eq(token, &Token::Keyword(Keyword::Fn)),
            None => false,
        };
        if !found {
            return None;
        }
        self.consume_token();
        Some(self.parse_def_inner())
    }

    /// The next function: `None` where the keyword `fn` is not next.
    pub fn next(&mut self) -> (res: Option<Result<Definition, ParserError>>)
        requires
            old(self).wf(),
        ensures
            final(self).wf(),
            final(self).same_tokens(old(self)),
            match grammar::parse_def(old(self).tokens(), old(self).position()) {
                Some(Ok((def, end))) => res is Some && res->Some_0 is Ok && res->Some_0->Ok_0@
                    == def && final(self).position() == end && old(self).position() < end,
                Some(Err(error)) => res is Some && res->Some_0 is Err && res->Some_0->Err_0@
                    == error,
                None => res is None && final(self).position() == old(self).position(),
            },
    {
        self.parse_def()
    }
}

/// The functions that a list of tokens writes, for as long as the keyword
/// `fn` stands next, or the first error met.
pub fn parse(tokens: Vec<Token>) -> (res: Result<Vec<Definition>, ParserError>)
    ensures
        match grammar::parse_defs(tokens_view(tokens@), 0) {
            Ok(defs) => res is Ok && crate::module::defs_view(res->Ok_0@) == defs,
            Err(error) => res is Err && res->Err_0@ == error,
        },
{
    let ghost all = tokens_view(tokens@);
    let mut scanner = Scanner::new(tokens);
    let mut defs: Vec<Definition> = Vec::new();
    loop
        invariant
            scanner.wf(),
            scanner.tokens() == all,
            all == tokens_view(tokens@),
            match grammar::parse_defs(all, scanner.position()) {
                Ok(rest) => grammar::parse_defs(all, 0) == Ok::<
                    Seq<crate::expr::DefinitionView>,
                    ParserErrorView,
                >(crate::module::defs_view(defs@) + rest),
                Err(error) => grammar::parse_defs(all, 0) == Err::<
                    Seq<crate::expr::DefinitionView>,
                    ParserErrorView,
                >(error),
            },
        decreases all.len() - scanner.position(),
    {
        proof {
            grammar::lemma_parse_def_advances(all, scanner.position());
        }
        match scanner.next() {
            None => {
                proof {
                    assert(crate::module::defs_view(defs@) + Seq::empty()
                        == crate::module::defs_view(defs@));
                }
                return Ok(defs);
            },
            Some(Err(error)) => {
                return Err(error);
            },
            Some(Ok(def)) => {
                let ghost before = defs@;
                defs.push(def);
                proof {
                    assert(crate::module::defs_view(defs@) == crate::module::defs_view(
                        before,
                    ).push(def@));
                    if let Ok(rest) = grammar::parse_defs(all, scanner.position()) {
                        assert(crate::module::defs_view(before) + (seq![def@] + rest)
                            == crate::module::defs_view(defs@) + rest);
                    }
                }
            },
        }
    }
}

/// The views of a list of cases, in order.
pub open spec fn cases_view(cases: Seq<(usize, Expression)>) -> Seq<
    (usize, crate::expr::ExpressionView),
> {
    cases.map_values(|case: (usize, Expression)| (case.0, case.1@))
}

} // verus!
