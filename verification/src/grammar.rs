//! What parsing means: the grammar, as total functions from a list of tokens
//! and a position to what stands there and the position after it.
//!
//! Where one of these functions goes on behind an expression that it has
//! read, it first tests that the position has moved on. That test never
//! fails, as [`lemma_parse_expr_advances`] shows: it stands there because the
//! functions must be seen to end before anything can be proved of them.

use crate::expr::{AtomView, DefinitionView, ExpressionView, Operation};
use crate::lexer::{symbol_char, Bracket, Keyword, Symbol, TokenView};
use crate::text::decimal_digits;
use vstd::prelude::*;

verus! {

/// Why a list of tokens is no program: what should have stood where the
/// parser stopped, or symbols in the place of an operator that are none.
pub enum ParserErrorView {
    Expected(Seq<char>),
    UnknownOperation(Seq<char>),
}

/// What stands at a position, with the position after it, or an error.
pub type Parsed<T> = Result<(T, int), ParserErrorView>;

/// The word of a keyword.
pub open spec fn keyword_text(keyword: Keyword) -> Seq<char> {
    match keyword {
        Keyword::Fn => "fn"@,
        Keyword::Let => "let"@,
        Keyword::Match => "match"@,
        Keyword::Apply => "apply"@,
        Keyword::Papp => "papp"@,
    }
}

/// A token as it is written.
pub open spec fn token_text(token: TokenView) -> Seq<char> {
    match token {
        TokenView::Keyword(keyword) => keyword_text(keyword),
        TokenView::Identifier(name) => name,
        TokenView::Number(n) => decimal_digits(n as nat),
        TokenView::Symbol(symbol) => seq![symbol_char(symbol)],
        TokenView::Paren(bracket) => seq![crate::lexer::bracket_char(bracket)],
    }
}

/// The token at `pos`, if the list goes that far.
pub open spec fn peek(tokens: Seq<TokenView>, pos: int) -> Option<TokenView> {
    if 0 <= pos < tokens.len() {
        Some(tokens[pos])
    } else {
        None
    }
}

/// The position after the token `token`, which must stand at `pos`.
pub open spec fn expect_token(tokens: Seq<TokenView>, pos: int, token: TokenView) -> Result<
    int,
    ParserErrorView,
> {
    if peek(tokens, pos) == Some(token) {
        Ok(pos + 1)
    } else {
        Err(ParserErrorView::Expected(token_text(token)))
    }
}

/// The end of the run of symbols that begins at `pos`.
pub open spec fn symbols_end(tokens: Seq<TokenView>, pos: int) -> int
    decreases tokens.len() - pos,
{
    if 0 <= pos < tokens.len() && tokens[pos] is Symbol {
        symbols_end(tokens, pos + 1)
    } else {
        pos
    }
}

/// The characters of the symbols from `from` up to `to`.
pub open spec fn symbols_text(tokens: Seq<TokenView>, from: int, to: int) -> Seq<char> {
    Seq::new((to - from) as nat, |i: int| symbol_char(tokens[from + i]->Symbol_0))
}

/// The characters of a list of symbols.
pub open spec fn symbols_chars(symbols: Seq<Symbol>) -> Seq<char> {
    symbols.map_values(|symbol: Symbol| symbol_char(symbol))
}

/// The operation that a run of symbols writes, if it writes one.
pub open spec fn operation_of(text: Seq<char>) -> Option<Operation> {
    if text == "+"@ {
        Some(Operation::Add)
    } else if text == "-"@ {
        Some(Operation::Sub)
    } else if text == "*"@ {
        Some(Operation::Mul)
    } else if text == "/"@ {
        Some(Operation::Div)
    } else if text == "%"@ {
        Some(Operation::Mod)
    } else if text == "=="@ {
        Some(Operation::Eq)
    } else if text == "<"@ {
        Some(Operation::Lt)
    } else if text == "<="@ {
        Some(Operation::Le)
    } else if text == ">"@ {
        Some(Operation::Gt)
    } else if text == ">="@ {
        Some(Operation::Ge)
    } else if text == "&&"@ {
        Some(Operation::And)
    } else if text == "||"@ {
        Some(Operation::Or)
    } else if text == "^"@ {
        Some(Operation::Xor)
    } else if text == ">>"@ {
        Some(Operation::Sr)
    } else if text == "<<"@ {
        Some(Operation::Sl)
    } else {
        None
    }
}

/// The operator at `pos`: `None` where no symbol stands there, and an error
/// where the symbols there write no operation.
pub open spec fn parse_op(tokens: Seq<TokenView>, pos: int) -> Option<Parsed<Operation>> {
    let end = symbols_end(tokens, pos);
    if end <= pos {
        None
    } else {
        let text = symbols_text(tokens, pos, end);
        Some(
            match operation_of(text) {
                Some(op) => Ok((op, end)),
                None => Err(ParserErrorView::UnknownOperation(text)),
            },
        )
    }
}

/// The position after the arrow `=>`, which must stand at `pos`.
pub open spec fn expect_arrow(tokens: Seq<TokenView>, pos: int) -> Result<int, ParserErrorView> {
    let end = symbols_end(tokens, pos);
    if end > pos && symbols_text(tokens, pos, end) == "=>"@ {
        Ok(end)
    } else {
        Err(ParserErrorView::Expected("=>"@))
    }
}

/// The atom that a token is, if it is one.
pub open spec fn atom_of(token: TokenView) -> Option<AtomView> {
    match token {
        TokenView::Identifier(name) => Some(AtomView::Var(name)),
        TokenView::Number(n) => Some(AtomView::Lit(n)),
        _ => None,
    }
}

/// The atom at `pos`, if one stands there.
pub open spec fn parse_atom(tokens: Seq<TokenView>, pos: int) -> Option<AtomView> {
    match peek(tokens, pos) {
        Some(token) => atom_of(token),
        None => None,
    }
}

/// The atom that must stand at `pos`.
pub open spec fn expect_atom(tokens: Seq<TokenView>, pos: int) -> Parsed<AtomView> {
    match parse_atom(tokens, pos) {
        Some(atom) => Ok((atom, pos + 1)),
        None => Err(ParserErrorView::Expected("an atom"@)),
    }
}

/// The end of the run of atoms that begins at `pos`.
pub open spec fn atoms_end(tokens: Seq<TokenView>, pos: int) -> int
    decreases tokens.len() - pos,
{
    if parse_atom(tokens, pos) is Some {
        atoms_end(tokens, pos + 1)
    } else {
        pos
    }
}

/// The atoms from `from` up to `to`.
pub open spec fn atoms_between(tokens: Seq<TokenView>, from: int, to: int) -> Seq<AtomView> {
    Seq::new((to - from) as nat, |i: int| atom_of(tokens[from + i])->Some_0)
}

/// The end of the run of identifiers that begins at `pos`.
pub open spec fn identifiers_end(tokens: Seq<TokenView>, pos: int) -> int
    decreases tokens.len() - pos,
{
    if 0 <= pos < tokens.len() && tokens[pos] is Identifier {
        identifiers_end(tokens, pos + 1)
    } else {
        pos
    }
}

/// The identifiers from `from` up to `to`.
pub open spec fn identifiers_between(tokens: Seq<TokenView>, from: int, to: int) -> Seq<
    Seq<char>,
> {
    Seq::new((to - from) as nat, |i: int| tokens[from + i]->Identifier_0)
}

/// The name that must stand at `pos`, with the atoms after it and the
/// closing bracket.
pub open spec fn parse_operands(tokens: Seq<TokenView>, pos: int, what: Seq<char>) -> Parsed<
    (Seq<char>, Seq<AtomView>),
> {
    match peek(tokens, pos) {
        Some(TokenView::Identifier(func)) => {
            let end = atoms_end(tokens, pos + 1);
            match expect_token(tokens, end, TokenView::Paren(Bracket::RParen)) {
                Err(error) => Err(error),
                Ok(after) => Ok(((func, atoms_between(tokens, pos + 1, end)), after)),
            }
        },
        _ => Err(ParserErrorView::Expected(what)),
    }
}

/// The bracketed expression at `pos`: an operation on two atoms, a call, an
/// application or a partial application.
pub open spec fn parse_apply(tokens: Seq<TokenView>, pos: int) -> Parsed<ExpressionView> {
    match expect_token(tokens, pos, TokenView::Paren(Bracket::LParen)) {
        Err(error) => Err(error),
        Ok(pos) => match parse_op(tokens, pos) {
            Some(Err(error)) => Err(error),
            Some(Ok((op, pos))) => match expect_atom(tokens, pos) {
                Err(error) => Err(error),
                Ok((x, pos)) => match expect_atom(tokens, pos) {
                    Err(error) => Err(error),
                    Ok((y, pos)) => match expect_token(
                        tokens,
                        pos,
                        TokenView::Paren(Bracket::RParen),
                    ) {
                        Err(error) => Err(error),
                        Ok(pos) => Ok((ExpressionView::Operate(op, x, y), pos)),
                    },
                },
            },
            None => match peek(tokens, pos) {
                Some(TokenView::Identifier(_)) => match parse_operands(
                    tokens,
                    pos,
                    Seq::empty(),
                ) {
                    Err(error) => Err(error),
                    Ok(((func, args), pos)) => Ok((ExpressionView::Call(func, args), pos)),
                },
                Some(TokenView::Keyword(Keyword::Apply)) => match parse_operands(
                    tokens,
                    pos + 1,
                    "a function to apply to"@,
                ) {
                    Err(error) => Err(error),
                    Ok(((func, args), pos)) => Ok((ExpressionView::Apply(func, args), pos)),
                },
                Some(TokenView::Keyword(Keyword::Papp)) => match parse_operands(
                    tokens,
                    pos + 1,
                    "a function to partially apply to"@,
                ) {
                    Err(error) => Err(error),
                    Ok(((func, args), pos)) => Ok((ExpressionView::Papp(func, args), pos)),
                },
                _ => Err(ParserErrorView::Expected("a function or operator"@)),
            },
        },
    }
}

/// The expression at `pos`.
pub open spec fn parse_expr(tokens: Seq<TokenView>, pos: int) -> Parsed<ExpressionView>
    decreases tokens.len() - pos, 3int,
{
    match peek(tokens, pos) {
        Some(TokenView::Keyword(Keyword::Let)) => parse_let(tokens, pos),
        Some(TokenView::Keyword(Keyword::Match)) => parse_match(tokens, pos),
        Some(TokenView::Paren(Bracket::LParen)) => parse_apply(tokens, pos),
        Some(TokenView::Identifier(var)) => Ok((ExpressionView::Unit(AtomView::Var(var)), pos + 1)),
        Some(TokenView::Number(num)) => Ok((ExpressionView::Unit(AtomView::Lit(num)), pos + 1)),
        _ => Err(ParserErrorView::Expected("an expression"@)),
    }
}

/// The `let` at `pos`: the keyword, a name, `=`, an expression, `;` and the
/// expression in which the name stands for the first.
pub open spec fn parse_let(tokens: Seq<TokenView>, pos: int) -> Parsed<ExpressionView>
    decreases tokens.len() - pos, 0int,
{
    match expect_token(tokens, pos, TokenView::Keyword(Keyword::Let)) {
        Err(error) => Err(error),
        Ok(at_name) => match peek(tokens, at_name) {
            Some(TokenView::Identifier(name)) => match expect_token(
                tokens,
                at_name + 1,
                TokenView::Symbol(Symbol::Equal),
            ) {
                Err(error) => Err(error),
                Ok(at_value) => match parse_expr(tokens, at_value) {
                    Err(error) => Err(error),
                    Ok((value, after_value)) => match expect_token(
                        tokens,
                        after_value,
                        TokenView::Symbol(Symbol::Semicolon),
                    ) {
                        Err(error) => Err(error),
                        Ok(at_body) => if at_body <= pos {
                            Err(ParserErrorView::Expected("an expression"@))
                        } else {
                            match parse_expr(tokens, at_body) {
                                Err(error) => Err(error),
                                Ok((body, end)) => Ok(
                                    (ExpressionView::Let(name, Box::new(value), Box::new(body)), end),
                                ),
                            }
                        },
                    },
                },
            },
            _ => Err(ParserErrorView::Expected("an identifier"@)),
        },
    }
}

/// The branch at `pos`: an arrow and an expression in braces.
pub open spec fn parse_branch(tokens: Seq<TokenView>, pos: int, before: int) -> Parsed<
    ExpressionView,
>
    decreases tokens.len() - before, 1int,
{
    match expect_arrow(tokens, pos) {
        Err(error) => Err(error),
        Ok(at_brace) => match expect_token(tokens, at_brace, TokenView::Paren(Bracket::LBrace)) {
            Err(error) => Err(error),
            Ok(at_body) => if at_body <= before {
                Err(ParserErrorView::Expected("an expression"@))
            } else {
                match parse_expr(tokens, at_body) {
                    Err(error) => Err(error),
                    Ok((body, after_body)) => match expect_token(
                        tokens,
                        after_body,
                        TokenView::Paren(Bracket::RBrace),
                    ) {
                        Err(error) => Err(error),
                        Ok(end) => Ok((body, end)),
                    },
                }
            },
        },
    }
}

/// The cases from `pos` on: each a number with its branch, for as long as a
/// number stands next.
pub open spec fn parse_cases(tokens: Seq<TokenView>, pos: int) -> Parsed<
    Seq<(usize, ExpressionView)>,
>
    decreases tokens.len() - pos, 2int,
{
    match peek(tokens, pos) {
        Some(TokenView::Number(n)) => match parse_branch(tokens, pos + 1, pos) {
            Err(error) => Err(error),
            Ok((branch, next)) => if next <= pos || next > tokens.len() {
                Ok((seq![(n, branch)], next))
            } else {
                match parse_cases(tokens, next) {
                    Err(error) => Err(error),
                    Ok((cases, end)) => Ok((seq![(n, branch)] + cases, end)),
                }
            },
        },
        _ => Ok((Seq::empty(), pos)),
    }
}

/// The `match` at `pos`: the keyword, an atom, and in braces the cases and
/// then, after an underscore, the default branch if there is one.
pub open spec fn parse_match(tokens: Seq<TokenView>, pos: int) -> Parsed<ExpressionView>
    decreases tokens.len() - pos, 0int,
{
    match expect_token(tokens, pos, TokenView::Keyword(Keyword::Match)) {
        Err(error) => Err(error),
        Ok(at_atom) => match expect_atom(tokens, at_atom) {
            Err(error) => Err(error),
            Ok((atom, at_brace)) => match expect_token(
                tokens,
                at_brace,
                TokenView::Paren(Bracket::LBrace),
            ) {
                Err(error) => Err(error),
                Ok(at_cases) => match parse_cases(tokens, at_cases) {
                    Err(error) => Err(error),
                    Ok((cases, after_cases)) => match peek(tokens, after_cases) {
                        Some(TokenView::Symbol(Symbol::Underscore)) => if after_cases <= pos {
                            Err(ParserErrorView::Expected("=>"@))
                        } else {
                            match parse_branch(tokens, after_cases + 1, after_cases) {
                                Err(error) => Err(error),
                                Ok((branch, at_close)) => match expect_token(
                                    tokens,
                                    at_close,
                                    TokenView::Paren(Bracket::RBrace),
                                ) {
                                    Err(error) => Err(error),
                                    Ok(end) => Ok(
                                        (
                                            ExpressionView::Match(
                                                atom,
                                                cases,
                                                Some(Box::new(branch)),
                                            ),
                                            end,
                                        ),
                                    ),
                                },
                            }
                        },
                        _ => match expect_token(
                            tokens,
                            after_cases,
                            TokenView::Paren(Bracket::RBrace),
                        ) {
                            Err(error) => Err(error),
                            Ok(end) => Ok((ExpressionView::Match(atom, cases, None), end)),
                        },
                    },
                },
            },
        },
    }
}

/// The header of a function at `pos`: in brackets, its name and its
/// parameters.
pub open spec fn parse_function_header(tokens: Seq<TokenView>, pos: int) -> Parsed<
    (Seq<char>, Seq<Seq<char>>),
> {
    match expect_token(tokens, pos, TokenView::Paren(Bracket::LParen)) {
        Err(error) => Err(error),
        Ok(at_name) => match peek(tokens, at_name) {
            Some(TokenView::Identifier(name)) => {
                let end = identifiers_end(tokens, at_name + 1);
                match expect_token(tokens, end, TokenView::Paren(Bracket::RParen)) {
                    Err(error) => Err(error),
                    Ok(after) => Ok(
                        ((name, identifiers_between(tokens, at_name + 1, end)), after),
                    ),
                }
            },
            _ => Err(ParserErrorView::Expected("function name"@)),
        },
    }
}

/// The function at `pos`, after the keyword `fn`: its header and, in braces,
/// its body.
pub open spec fn parse_def_inner(tokens: Seq<TokenView>, pos: int) -> Parsed<DefinitionView> {
    match parse_function_header(tokens, pos) {
        Err(error) => Err(error),
        Ok(((name, params), at_brace)) => match expect_token(
            tokens,
            at_brace,
            TokenView::Paren(Bracket::LBrace),
        ) {
            Err(error) => Err(error),
            Ok(at_body) => match parse_expr(tokens, at_body) {
                Err(error) => Err(error),
                Ok((body, after_body)) => match expect_token(
                    tokens,
                    after_body,
                    TokenView::Paren(Bracket::RBrace),
                ) {
                    Err(error) => Err(error),
                    Ok(end) => Ok((DefinitionView { name, params, body }, end)),
                },
            },
        },
    }
}

/// The function at `pos`: `None` where the keyword `fn` does not stand there.
pub open spec fn parse_def(tokens: Seq<TokenView>, pos: int) -> Option<Parsed<DefinitionView>> {
    if peek(tokens, pos) == Some(TokenView::Keyword(Keyword::Fn)) {
        Some(parse_def_inner(tokens, pos + 1))
    } else {
        None
    }
}

/// A run of symbols ends within the tokens, at or after its beginning.
pub proof fn lemma_symbols_end_bounds(tokens: Seq<TokenView>, pos: int)
    requires
        0 <= pos <= tokens.len(),
    ensures
        pos <= symbols_end(tokens, pos) <= tokens.len(),
    decreases tokens.len() - pos,
{
    if pos < tokens.len() && tokens[pos] is Symbol {
        lemma_symbols_end_bounds(tokens, pos + 1);
    }
}

/// A run of atoms ends within the tokens, at or after its beginning.
pub proof fn lemma_atoms_end_bounds(tokens: Seq<TokenView>, pos: int)
    requires
        0 <= pos <= tokens.len(),
    ensures
        pos <= atoms_end(tokens, pos) <= tokens.len(),
    decreases tokens.len() - pos,
{
    if parse_atom(tokens, pos) is Some {
        lemma_atoms_end_bounds(tokens, pos + 1);
    }
}

/// A run of identifiers ends within the tokens, at or after its beginning.
pub proof fn lemma_identifiers_end_bounds(tokens: Seq<TokenView>, pos: int)
    requires
        0 <= pos <= tokens.len(),
    ensures
        pos <= identifiers_end(tokens, pos) <= tokens.len(),
    decreases tokens.len() - pos,
{
    if pos < tokens.len() && tokens[pos] is Identifier {
        lemma_identifiers_end_bounds(tokens, pos + 1);
    }
}

/// A bracketed expression ends within the tokens, after its beginning.
pub proof fn lemma_parse_apply_advances(tokens: Seq<TokenView>, pos: int)
    requires
        0 <= pos <= tokens.len(),
    ensures
        parse_apply(tokens, pos) matches Ok((_, end)) ==> pos < end <= tokens.len(),
{
    if pos < tokens.len() {
        lemma_symbols_end_bounds(tokens, pos + 1);
        if pos + 1 < tokens.len() {
            lemma_atoms_end_bounds(tokens, pos + 2);
        }
        if pos + 2 < tokens.len() {
            lemma_atoms_end_bounds(tokens, pos + 3);
        }
    }
}

/// An expression ends within the tokens, after its beginning: the parser
/// never stands still, and the tests for that in the grammar never fail.
pub proof fn lemma_parse_expr_advances(tokens: Seq<TokenView>, pos: int)
    requires
        0 <= pos <= tokens.len(),
    ensures
        parse_expr(tokens, pos) matches Ok((_, end)) ==> pos < end <= tokens.len(),
    decreases tokens.len() - pos, 3int,
{
    match peek(tokens, pos) {
        Some(TokenView::Keyword(Keyword::Let)) => lemma_parse_let_advances(tokens, pos),
        Some(TokenView::Keyword(Keyword::Match)) => lemma_parse_match_advances(tokens, pos),
        Some(TokenView::Paren(Bracket::LParen)) => lemma_parse_apply_advances(tokens, pos),
        _ => {},
    }
}

/// A `let` ends within the tokens, after its beginning.
pub proof fn lemma_parse_let_advances(tokens: Seq<TokenView>, pos: int)
    requires
        0 <= pos <= tokens.len(),
    ensures
        parse_let(tokens, pos) matches Ok((_, end)) ==> pos < end <= tokens.len(),
    decreases tokens.len() - pos, 0int,
{
    if pos + 3 <= tokens.len() {
        lemma_parse_expr_advances(tokens, pos + 3);
        if let Ok((_, after_value)) = parse_expr(tokens, pos + 3) {
            if after_value < tokens.len() {
                lemma_parse_expr_advances(tokens, after_value + 1);
            }
        }
    }
}

/// A branch ends within the tokens, after its beginning.
pub proof fn lemma_parse_branch_advances(tokens: Seq<TokenView>, pos: int, before: int)
    requires
        0 <= before < pos <= tokens.len(),
    ensures
        parse_branch(tokens, pos, before) matches Ok((_, end)) ==> pos < end <= tokens.len(),
    decreases tokens.len() - before, 1int,
{
    lemma_symbols_end_bounds(tokens, pos);
    let at_brace = symbols_end(tokens, pos);
    if at_brace < tokens.len() {
        lemma_parse_expr_advances(tokens, at_brace + 1);
    }
}

/// The cases end within the tokens, at or after their beginning.
pub proof fn lemma_parse_cases_advances(tokens: Seq<TokenView>, pos: int)
    requires
        0 <= pos <= tokens.len(),
    ensures
        parse_cases(tokens, pos) matches Ok((_, end)) ==> pos <= end <= tokens.len(),
    decreases tokens.len() - pos, 2int,
{
    if let Some(TokenView::Number(_)) = peek(tokens, pos) {
        lemma_parse_branch_advances(tokens, pos + 1, pos);
        if let Ok((_, next)) = parse_branch(tokens, pos + 1, pos) {
            lemma_parse_cases_advances(tokens, next);
        }
    }
}

/// A `match` ends within the tokens, after its beginning.
pub proof fn lemma_parse_match_advances(tokens: Seq<TokenView>, pos: int)
    requires
        0 <= pos <= tokens.len(),
    ensures
        parse_match(tokens, pos) matches Ok((_, end)) ==> pos < end <= tokens.len(),
    decreases tokens.len() - pos, 0int,
{
    if pos + 3 <= tokens.len() {
        lemma_parse_cases_advances(tokens, pos + 3);
        if let Ok((_, after_cases)) = parse_cases(tokens, pos + 3) {
            if after_cases < tokens.len() {
                lemma_parse_branch_advances(tokens, after_cases + 1, after_cases);
            }
        }
    }
}

/// A function ends within the tokens, after its beginning.
pub proof fn lemma_parse_def_advances(tokens: Seq<TokenView>, pos: int)
    requires
        0 <= pos <= tokens.len(),
    ensures
        parse_def(tokens, pos) matches Some(Ok((_, end))) ==> pos < end <= tokens.len(),
{
    if pos + 2 < tokens.len() {
        lemma_identifiers_end_bounds(tokens, pos + 3);
        let at_close = identifiers_end(tokens, pos + 3);
        if at_close + 1 < tokens.len() {
            lemma_parse_expr_advances(tokens, at_close + 2);
        }
    }
}

/// The functions from `pos` on, for as long as the keyword `fn` stands next,
/// or the first error met.
pub open spec fn parse_defs(tokens: Seq<TokenView>, pos: int) -> Result<
    Seq<DefinitionView>,
    ParserErrorView,
>
    decreases tokens.len() - pos,
    when 0 <= pos <= tokens.len()
{
    match parse_def(tokens, pos) {
        None => Ok(Seq::empty()),
        Some(Err(error)) => Err(error),
        Some(Ok((def, end))) => {
            proof {
                lemma_parse_def_advances(tokens, pos);
            }
            match parse_defs(tokens, end) {
                Err(error) => Err(error),
                Ok(defs) => Ok(seq![def] + defs),
            }
        },
    }
}

} // verus!
