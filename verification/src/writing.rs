//! The tokens that write a program, and the proof that the grammar reads
//! them back as that program.

use crate::expr::{AtomView, DefinitionView, ExpressionView, Operation};
use crate::grammar::{
    atoms_between, atoms_end, expect_arrow, identifiers_between, identifiers_end, operation_of,
    parse_apply, parse_atom, parse_branch, parse_cases, parse_def, parse_def_inner, parse_defs,
    parse_expr, parse_function_header, parse_let, parse_match, parse_operands, peek,
    symbols_chars, symbols_end, symbols_text, ParserErrorView,
};
use crate::lexer::{symbol_char, Bracket, Keyword, Symbol, TokenView};
use vstd::prelude::*;

verus! {

/// The token that writes an atom.
pub open spec fn atom_token(atom: AtomView) -> TokenView {
    match atom {
        AtomView::Var(x) => TokenView::Identifier(x),
        AtomView::Lit(n) => TokenView::Number(n),
    }
}

/// The tokens that write a list of atoms.
pub open spec fn atoms_tokens(atoms: Seq<AtomView>) -> Seq<TokenView> {
    atoms.map_values(|atom: AtomView| atom_token(atom))
}

/// The tokens that write a list of names.
pub open spec fn names_tokens(names: Seq<Seq<char>>) -> Seq<TokenView> {
    names.map_values(|name: Seq<char>| TokenView::Identifier(name))
}

/// The tokens of a list of symbols.
pub open spec fn symbols_tokens(symbols: Seq<Symbol>) -> Seq<TokenView> {
    symbols.map_values(|symbol: Symbol| TokenView::Symbol(symbol))
}

/// The symbols that write an operation.
pub open spec fn op_symbols(op: Operation) -> Seq<Symbol> {
    match op {
        Operation::Add => seq![Symbol::Plus],
        Operation::Sub => seq![Symbol::Minus],
        Operation::Mul => seq![Symbol::Star],
        Operation::Div => seq![Symbol::Slash],
        Operation::Mod => seq![Symbol::Percentage],
        Operation::Eq => seq![Symbol::Equal, Symbol::Equal],
        Operation::Lt => seq![Symbol::LAngle],
        Operation::Le => seq![Symbol::LAngle, Symbol::Equal],
        Operation::Gt => seq![Symbol::RAngle],
        Operation::Ge => seq![Symbol::RAngle, Symbol::Equal],
        Operation::And => seq![Symbol::And, Symbol::And],
        Operation::Or => seq![Symbol::Pipe, Symbol::Pipe],
        Operation::Xor => seq![Symbol::Caret],
        Operation::Sr => seq![Symbol::RAngle, Symbol::RAngle],
        Operation::Sl => seq![Symbol::LAngle, Symbol::LAngle],
    }
}

/// The tokens that write a function's name, its operands and the closing
/// bracket.
pub open spec fn operands_tokens(func: Seq<char>, args: Seq<AtomView>) -> Seq<TokenView> {
    seq![TokenView::Identifier(func)] + (atoms_tokens(args) + seq![
        TokenView::Paren(Bracket::RParen),
    ])
}

/// The tokens that write a branch of a match: the pattern, the arrow and, in
/// braces, the expression.
pub open spec fn branch_tokens(pattern: TokenView, branch: Seq<TokenView>) -> Seq<TokenView> {
    seq![
        pattern,
        TokenView::Symbol(Symbol::Equal),
        TokenView::Symbol(Symbol::RAngle),
        TokenView::Paren(Bracket::LBrace),
    ] + (branch + seq![TokenView::Paren(Bracket::RBrace)])
}

/// The tokens that write an expression.
pub open spec fn expr_tokens(expr: ExpressionView) -> Seq<TokenView>
    decreases expr, 0int,
{
    match expr {
        ExpressionView::Unit(atom) => seq![atom_token(atom)],
        ExpressionView::Let(x, val, body) => seq![
            TokenView::Keyword(Keyword::Let),
            TokenView::Identifier(x),
            TokenView::Symbol(Symbol::Equal),
        ] + (expr_tokens(*val) + (seq![TokenView::Symbol(Symbol::Semicolon)] + expr_tokens(
            *body,
        ))),
        ExpressionView::Apply(func, args) => seq![
            TokenView::Paren(Bracket::LParen),
            TokenView::Keyword(Keyword::Apply),
        ] + operands_tokens(func, args),
        ExpressionView::Call(func, args) => seq![TokenView::Paren(Bracket::LParen)]
            + operands_tokens(func, args),
        ExpressionView::Papp(func, args) => seq![
            TokenView::Paren(Bracket::LParen),
            TokenView::Keyword(Keyword::Papp),
        ] + operands_tokens(func, args),
        ExpressionView::Match(atom, cases, default) => seq![
            TokenView::Keyword(Keyword::Match),
            atom_token(atom),
            TokenView::Paren(Bracket::LBrace),
        ] + (cases_tokens(cases, 0) + (default_tokens(default) + seq![
            TokenView::Paren(Bracket::RBrace),
        ])),
        ExpressionView::Operate(op, x, y) => seq![TokenView::Paren(Bracket::LParen)] + (
        symbols_tokens(op_symbols(op)) + seq![
            atom_token(x),
            atom_token(y),
            TokenView::Paren(Bracket::RParen),
        ]),
    }
}

/// The tokens that write the cases of a match from the case `from` on.
pub open spec fn cases_tokens(cases: Seq<(usize, ExpressionView)>, from: int) -> Seq<TokenView>
    decreases cases, cases.len() - from,
{
    if 0 <= from < cases.len() {
        branch_tokens(TokenView::Number(cases[from].0), expr_tokens(cases[from].1)) + cases_tokens(
            cases,
            from + 1,
        )
    } else {
        Seq::empty()
    }
}

/// The tokens that write the default branch of a match, if it has one.
pub open spec fn default_tokens(default: Option<Box<ExpressionView>>) -> Seq<TokenView>
    decreases default, 1int,
{
    match default {
        Some(branch) => branch_tokens(TokenView::Symbol(Symbol::Underscore), expr_tokens(*branch)),
        None => Seq::empty(),
    }
}

/// The tokens that write a function.
pub open spec fn def_tokens(def: DefinitionView) -> Seq<TokenView> {
    seq![
        TokenView::Keyword(Keyword::Fn),
        TokenView::Paren(Bracket::LParen),
        TokenView::Identifier(def.name),
    ] + (names_tokens(def.params) + (seq![
        TokenView::Paren(Bracket::RParen),
        TokenView::Paren(Bracket::LBrace),
    ] + (expr_tokens(def.body) + seq![TokenView::Paren(Bracket::RBrace)])))
}

/// The tokens that write the functions of a list from the function `from`
/// on.
pub open spec fn defs_tokens(defs: Seq<DefinitionView>, from: int) -> Seq<TokenView>
    decreases defs.len() - from,
{
    if 0 <= from < defs.len() {
        def_tokens(defs[from]) + defs_tokens(defs, from + 1)
    } else {
        Seq::empty()
    }
}

/// Whether the tokens `piece` stand in `tokens` at `pos`.
pub open spec fn stands_at(tokens: Seq<TokenView>, pos: int, piece: Seq<TokenView>) -> bool {
    &&& 0 <= pos
    &&& pos + piece.len() <= tokens.len()
    &&& forall|i: int| 0 <= i < piece.len() ==> tokens[pos + i] == #[trigger] piece[i]
}

/// Where two pieces stand one after the other, each of them stands.
proof fn lemma_stands_split(
    tokens: Seq<TokenView>,
    pos: int,
    first: Seq<TokenView>,
    second: Seq<TokenView>,
)
    requires
        stands_at(tokens, pos, first + second),
    ensures
        stands_at(tokens, pos, first),
        stands_at(tokens, pos + first.len(), second),
{
    let whole = first + second;
    assert forall|i: int| 0 <= i < first.len() implies tokens[pos + i] == #[trigger] first[i] by {
        assert(whole[i] == first[i]);
    }
    assert forall|i: int| 0 <= i < second.len() implies tokens[pos + first.len() + i]
        == #[trigger] second[i] by {
        assert(whole[first.len() + i] == second[i]);
    }
}

/// A run of atoms that is followed by no atom is read as a whole.
proof fn lemma_atoms_read_back(tokens: Seq<TokenView>, pos: int, atoms: Seq<AtomView>)
    requires
        stands_at(tokens, pos, atoms_tokens(atoms)),
        parse_atom(tokens, pos + atoms.len()) is None,
    ensures
        atoms_end(tokens, pos) == pos + atoms.len(),
        atoms_between(tokens, pos, pos + atoms.len()) == atoms,
    decreases atoms.len(),
{
    if atoms.len() > 0 {
        let rest = atoms.drop_first();
        assert(atoms_tokens(atoms)[0] == atom_token(atoms[0]));
        assert(stands_at(tokens, pos + 1, atoms_tokens(rest))) by {
            assert forall|i: int| 0 <= i < rest.len() implies tokens[pos + 1 + i]
                == #[trigger] atoms_tokens(rest)[i] by {
                assert(atoms_tokens(atoms)[i + 1] == atoms_tokens(rest)[i]);
            }
        }
        lemma_atoms_read_back(tokens, pos + 1, rest);
        assert(atoms_between(tokens, pos, pos + atoms.len()) =~= atoms) by {
            assert forall|i: int| 0 <= i < atoms.len() implies atoms_between(
                tokens,
                pos,
                pos + atoms.len(),
            )[i] == atoms[i] by {
                assert(tokens[pos + i] == atoms_tokens(atoms)[i]);
            }
        }
    } else {
        assert(atoms_between(tokens, pos, pos) =~= atoms);
    }
}

/// A run of names that is followed by no identifier is read as a whole.
proof fn lemma_names_read_back(tokens: Seq<TokenView>, pos: int, names: Seq<Seq<char>>)
    requires
        stands_at(tokens, pos, names_tokens(names)),
        !(peek(tokens, pos + names.len()) matches Some(TokenView::Identifier(_))),
    ensures
        identifiers_end(tokens, pos) == pos + names.len(),
        identifiers_between(tokens, pos, pos + names.len()) == names,
    decreases names.len(),
{
    if names.len() > 0 {
        let rest = names.drop_first();
        assert(names_tokens(names)[0] == TokenView::Identifier(names[0]));
        assert(stands_at(tokens, pos + 1, names_tokens(rest))) by {
            assert forall|i: int| 0 <= i < rest.len() implies tokens[pos + 1 + i]
                == #[trigger] names_tokens(rest)[i] by {
                assert(names_tokens(names)[i + 1] == names_tokens(rest)[i]);
            }
        }
        lemma_names_read_back(tokens, pos + 1, rest);
        assert(identifiers_between(tokens, pos, pos + names.len()) =~= names) by {
            assert forall|i: int| 0 <= i < names.len() implies identifiers_between(
                tokens,
                pos,
                pos + names.len(),
            )[i] == names[i] by {
                assert(tokens[pos + i] == names_tokens(names)[i]);
            }
        }
    } else {
        assert(identifiers_between(tokens, pos, pos) =~= names);
    }
}

/// A run of symbols that is followed by no symbol is read as a whole.
proof fn lemma_symbols_read_back(tokens: Seq<TokenView>, pos: int, symbols: Seq<Symbol>)
    requires
        stands_at(tokens, pos, symbols_tokens(symbols)),
        !(peek(tokens, pos + symbols.len()) matches Some(TokenView::Symbol(_))),
    ensures
        symbols_end(tokens, pos) == pos + symbols.len(),
        symbols_text(tokens, pos, pos + symbols.len()) == symbols_chars(symbols),
    decreases symbols.len(),
{
    if symbols.len() > 0 {
        let rest = symbols.drop_first();
        assert(symbols_tokens(symbols)[0] == TokenView::Symbol(symbols[0]));
        assert(stands_at(tokens, pos + 1, symbols_tokens(rest))) by {
            assert forall|i: int| 0 <= i < rest.len() implies tokens[pos + 1 + i]
                == #[trigger] symbols_tokens(rest)[i] by {
                assert(symbols_tokens(symbols)[i + 1] == symbols_tokens(rest)[i]);
            }
        }
        lemma_symbols_read_back(tokens, pos + 1, rest);
        assert(symbols_text(tokens, pos, pos + symbols.len()) =~= symbols_chars(symbols)) by {
            assert forall|i: int| 0 <= i < symbols.len() implies symbols_text(
                tokens,
                pos,
                pos + symbols.len(),
            )[i] == symbols_chars(symbols)[i] by {
                assert(tokens[pos + i] == symbols_tokens(symbols)[i]);
            }
        }
    } else {
        assert(symbols_text(tokens, pos, pos) =~= symbols_chars(symbols));
    }
}

/// The symbols that write an operation are read as that operation.
pub proof fn lemma_operation_reads_back(op: Operation)
    ensures
        operation_of(symbols_chars(op_symbols(op))) == Some(op),
        1 <= op_symbols(op).len() <= 2,
{
    reveal_strlit("+");
    reveal_strlit("-");
    reveal_strlit("*");
    reveal_strlit("/");
    reveal_strlit("%");
    reveal_strlit("==");
    reveal_strlit("<");
    reveal_strlit("<=");
    reveal_strlit(">");
    reveal_strlit(">=");
    reveal_strlit("&&");
    reveal_strlit("||");
    reveal_strlit("^");
    reveal_strlit(">>");
    reveal_strlit("<<");
    let text = symbols_chars(op_symbols(op));
    assert(text.len() == op_symbols(op).len());
    assert(text[0] == symbol_char(op_symbols(op)[0]));
    if text.len() == 2 {
        assert(text[1] == symbol_char(op_symbols(op)[1]));
    }
    assert(text == "+"@ <==> op == Operation::Add) by {
        assert(text == "+"@ ==> text[0] == '+');
        if op == Operation::Add {
            assert(text =~= "+"@);
        }
    }
    assert(text == "-"@ <==> op == Operation::Sub) by {
        assert(text == "-"@ ==> text[0] == '-');
        if op == Operation::Sub {
            assert(text =~= "-"@);
        }
    }
    assert(text == "*"@ <==> op == Operation::Mul) by {
        assert(text == "*"@ ==> text[0] == '*');
        if op == Operation::Mul {
            assert(text =~= "*"@);
        }
    }
    assert(text == "/"@ <==> op == Operation::Div) by {
        assert(text == "/"@ ==> text[0] == '/');
        if op == Operation::Div {
            assert(text =~= "/"@);
        }
    }
    assert(text == "%"@ <==> op == Operation::Mod) by {
        assert(text == "%"@ ==> text[0] == '%');
        if op == Operation::Mod {
            assert(text =~= "%"@);
        }
    }
    assert(text == "=="@ <==> op == Operation::Eq) by {
        assert(text == "=="@ ==> text[0] == '=' && text.len() == 2);
        if op == Operation::Eq {
            assert(text =~= "=="@);
        }
    }
    assert(text == "<"@ <==> op == Operation::Lt) by {
        assert(text == "<"@ ==> text[0] == '<' && text.len() == 1);
        if op == Operation::Lt {
            assert(text =~= "<"@);
        }
    }
    assert(text == "<="@ <==> op == Operation::Le) by {
        assert(text == "<="@ ==> text[0] == '<' && text[1] == '=' && text.len() == 2);
        if op == Operation::Le {
            assert(text =~= "<="@);
        }
    }
    assert(text == ">"@ <==> op == Operation::Gt) by {
        assert(text == ">"@ ==> text[0] == '>' && text.len() == 1);
        if op == Operation::Gt {
            assert(text =~= ">"@);
        }
    }
    assert(text == ">="@ <==> op == Operation::Ge) by {
        assert(text == ">="@ ==> text[0] == '>' && text[1] == '=' && text.len() == 2);
        if op == Operation::Ge {
            assert(text =~= ">="@);
        }
    }
    assert(text == "&&"@ <==> op == Operation::And) by {
        assert(text == "&&"@ ==> text[0] == '&');
        if op == Operation::And {
            assert(text =~= "&&"@);
        }
    }
    assert(text == "||"@ <==> op == Operation::Or) by {
        assert(text == "||"@ ==> text[0] == '|');
        if op == Operation::Or {
            assert(text =~= "||"@);
        }
    }
    assert(text == "^"@ <==> op == Operation::Xor) by {
        assert(text == "^"@ ==> text[0] == '^');
        if op == Operation::Xor {
            assert(text =~= "^"@);
        }
    }
    assert(text == ">>"@ <==> op == Operation::Sr) by {
        assert(text == ">>"@ ==> text[0] == '>' && text[1] == '>' && text.len() == 2);
        if op == Operation::Sr {
            assert(text =~= ">>"@);
        }
    }
    assert(text == "<<"@ <==> op == Operation::Sl) by {
        assert(text == "<<"@ ==> text[0] == '<' && text[1] == '<' && text.len() == 2);
        if op == Operation::Sl {
            assert(text =~= "<<"@);
        }
    }
}

/// A function's name, its operands and the closing bracket are read back.
proof fn lemma_operands_read_back(
    tokens: Seq<TokenView>,
    pos: int,
    func: Seq<char>,
    args: Seq<AtomView>,
    what: Seq<char>,
)
    requires
        stands_at(tokens, pos, operands_tokens(func, args)),
    ensures
        parse_operands(tokens, pos, what) == Ok::<
            ((Seq<char>, Seq<AtomView>), int),
            ParserErrorView,
        >(((func, args), pos + 2 + args.len())),
{
    let head = seq![TokenView::Identifier(func)];
    let close = seq![TokenView::Paren(Bracket::RParen)];
    lemma_stands_split(tokens, pos, head, atoms_tokens(args) + close);
    lemma_stands_split(tokens, pos + 1, atoms_tokens(args), close);
    assert(tokens[pos] == head[0]);
    assert(tokens[pos + 1 + args.len()] == close[0]);
    lemma_atoms_read_back(tokens, pos + 1, args);
}

/// The tokens of a call are read as that call.
proof fn lemma_call_reads_back(
    tokens: Seq<TokenView>,
    pos: int,
    func: Seq<char>,
    args: Seq<AtomView>,
)
    requires
        stands_at(tokens, pos, expr_tokens(ExpressionView::Call(func, args))),
    ensures
        parse_apply(tokens, pos) == Ok::<(ExpressionView, int), ParserErrorView>(
            (ExpressionView::Call(func, args), pos + 3 + args.len()),
        ),
{
    let open = seq![TokenView::Paren(Bracket::LParen)];
    lemma_stands_split(tokens, pos, open, operands_tokens(func, args));
    assert(tokens[pos] == open[0]);
    lemma_operands_read_back(tokens, pos + 1, func, args, Seq::empty());
    assert(tokens[pos + 1] == operands_tokens(func, args)[0]);
}

/// The tokens of an application, or of a partial application, are read as
/// that.
proof fn lemma_apply_reads_back(
    tokens: Seq<TokenView>,
    pos: int,
    keyword: Keyword,
    func: Seq<char>,
    args: Seq<AtomView>,
)
    requires
        keyword == Keyword::Apply || keyword == Keyword::Papp,
        stands_at(
            tokens,
            pos,
            seq![TokenView::Paren(Bracket::LParen), TokenView::Keyword(keyword)] + operands_tokens(
                func,
                args,
            ),
        ),
    ensures
        parse_apply(tokens, pos) == Ok::<(ExpressionView, int), ParserErrorView>(
            (
                if keyword == Keyword::Apply {
                    ExpressionView::Apply(func, args)
                } else {
                    ExpressionView::Papp(func, args)
                },
                pos + 4 + args.len(),
            ),
        ),
{
    let open = seq![TokenView::Paren(Bracket::LParen), TokenView::Keyword(keyword)];
    lemma_stands_split(tokens, pos, open, operands_tokens(func, args));
    assert(tokens[pos] == open[0]);
    assert(tokens[pos + 1] == open[1]);
    lemma_operands_read_back(tokens, pos + 2, func, args, "a function to apply to"@);
    lemma_operands_read_back(tokens, pos + 2, func, args, "a function to partially apply to"@);
}

/// The tokens of an operation on two atoms are read as that.
proof fn lemma_operate_reads_back(
    tokens: Seq<TokenView>,
    pos: int,
    op: Operation,
    x: AtomView,
    y: AtomView,
)
    requires
        stands_at(tokens, pos, expr_tokens(ExpressionView::Operate(op, x, y))),
    ensures
        parse_apply(tokens, pos) == Ok::<(ExpressionView, int), ParserErrorView>(
            (ExpressionView::Operate(op, x, y), pos + 4 + op_symbols(op).len()),
        ),
{
    let open = seq![TokenView::Paren(Bracket::LParen)];
    let symbols = symbols_tokens(op_symbols(op));
    let tail = seq![atom_token(x), atom_token(y), TokenView::Paren(Bracket::RParen)];
    lemma_stands_split(tokens, pos, open, symbols + tail);
    lemma_stands_split(tokens, pos + 1, symbols, tail);
    lemma_operation_reads_back(op);
    let after = pos + 1 + op_symbols(op).len();
    assert(tokens[pos] == open[0]);
    assert(tokens[after] == tail[0]);
    assert(tokens[after + 1] == tail[1]);
    assert(tokens[after + 2] == tail[2]);
    lemma_symbols_read_back(tokens, pos + 1, op_symbols(op));
}

/// The arrow is read back.
proof fn lemma_arrow_reads_back(tokens: Seq<TokenView>, pos: int)
    requires
        0 <= pos,
        pos + 2 < tokens.len(),
        tokens[pos] == TokenView::Symbol(Symbol::Equal),
        tokens[pos + 1] == TokenView::Symbol(Symbol::RAngle),
        !(tokens[pos + 2] is Symbol),
    ensures
        expect_arrow(tokens, pos) == Ok::<int, ParserErrorView>(pos + 2),
{
    let arrow = seq![Symbol::Equal, Symbol::RAngle];
    assert(stands_at(tokens, pos, symbols_tokens(arrow)));
    lemma_symbols_read_back(tokens, pos, arrow);
    reveal_strlit("=>");
    assert(symbols_chars(arrow) =~= "=>"@);
}

/// The tokens of an expression are read as that expression, wherever they
/// stand and whatever follows them.
pub proof fn lemma_expr_reads_back(tokens: Seq<TokenView>, pos: int, expr: ExpressionView)
    requires
        stands_at(tokens, pos, expr_tokens(expr)),
    ensures
        parse_expr(tokens, pos) == Ok::<(ExpressionView, int), ParserErrorView>(
            (expr, pos + expr_tokens(expr).len()),
        ),
        expr_tokens(expr).len() > 0,
    decreases expr, 2int,
{
    let written = expr_tokens(expr);
    assert(written.len() > 0);
    assert(tokens[pos] == written[0]);
    match expr {
        ExpressionView::Unit(atom) => {},
        ExpressionView::Let(x, val, body) => {
            lemma_let_reads_back(tokens, pos, expr);
        },
        ExpressionView::Apply(func, args) => {
            lemma_apply_reads_back(tokens, pos, Keyword::Apply, func, args);
        },
        ExpressionView::Call(func, args) => {
            lemma_call_reads_back(tokens, pos, func, args);
        },
        ExpressionView::Papp(func, args) => {
            lemma_apply_reads_back(tokens, pos, Keyword::Papp, func, args);
        },
        ExpressionView::Match(atom, cases, default) => {
            lemma_match_reads_back(tokens, pos, expr);
        },
        ExpressionView::Operate(op, x, y) => {
            lemma_operate_reads_back(tokens, pos, op, x, y);
        },
    }
}

/// The tokens of a `let` are read as that `let`.
proof fn lemma_let_reads_back(tokens: Seq<TokenView>, pos: int, expr: ExpressionView)
    requires
        expr is Let,
        stands_at(tokens, pos, expr_tokens(expr)),
    ensures
        parse_let(tokens, pos) == Ok::<(ExpressionView, int), ParserErrorView>(
            (expr, pos + expr_tokens(expr).len()),
        ),
    decreases expr, 1int,
{
    if let ExpressionView::Let(x, val, body) = expr {
        let head = seq![
            TokenView::Keyword(Keyword::Let),
            TokenView::Identifier(x),
            TokenView::Symbol(Symbol::Equal),
        ];
        let semicolon = seq![TokenView::Symbol(Symbol::Semicolon)];
        lemma_stands_split(
            tokens,
            pos,
            head,
            expr_tokens(*val) + (semicolon + expr_tokens(*body)),
        );
        lemma_stands_split(tokens, pos + 3, expr_tokens(*val), semicolon + expr_tokens(*body));
        let after_value = pos + 3 + expr_tokens(*val).len();
        lemma_stands_split(tokens, after_value, semicolon, expr_tokens(*body));
        assert(tokens[pos] == head[0]);
        assert(tokens[pos + 1] == head[1]);
        assert(tokens[pos + 2] == head[2]);
        assert(tokens[after_value] == semicolon[0]);
        lemma_expr_reads_back(tokens, pos + 3, *val);
        lemma_expr_reads_back(tokens, after_value + 1, *body);
    }
}

/// The tokens of a `match` are read as that `match`.
proof fn lemma_match_reads_back(tokens: Seq<TokenView>, pos: int, expr: ExpressionView)
    requires
        expr is Match,
        stands_at(tokens, pos, expr_tokens(expr)),
    ensures
        parse_match(tokens, pos) == Ok::<(ExpressionView, int), ParserErrorView>(
            (expr, pos + expr_tokens(expr).len()),
        ),
    decreases expr, 1int,
{
    if let ExpressionView::Match(atom, cases, default) = expr {
        let head = seq![
            TokenView::Keyword(Keyword::Match),
            atom_token(atom),
            TokenView::Paren(Bracket::LBrace),
        ];
        let close = seq![TokenView::Paren(Bracket::RBrace)];
        lemma_stands_split(
            tokens,
            pos,
            head,
            cases_tokens(cases, 0) + (default_tokens(default) + close),
        );
        lemma_stands_split(
            tokens,
            pos + 3,
            cases_tokens(cases, 0),
            default_tokens(default) + close,
        );
        let after_cases = pos + 3 + cases_tokens(cases, 0).len();
        lemma_stands_split(tokens, after_cases, default_tokens(default), close);
        let at_close = after_cases + default_tokens(default).len();
        assert(tokens[pos] == head[0]);
        assert(tokens[pos + 1] == head[1]);
        assert(tokens[pos + 2] == head[2]);
        assert(tokens[at_close] == close[0]);
        match default {
            Some(branch) => {
                lemma_branch_reads_back(
                    tokens,
                    after_cases,
                    TokenView::Symbol(Symbol::Underscore),
                    *branch,
                );
            },
            None => {},
        }
        lemma_cases_read_back(tokens, pos + 3, cases, 0);
        assert(cases.skip(0) == cases);
    }
}

/// The tokens of a branch are read back, after its pattern.
proof fn lemma_branch_reads_back(
    tokens: Seq<TokenView>,
    pos: int,
    pattern: TokenView,
    branch: ExpressionView,
)
    requires
        stands_at(tokens, pos, branch_tokens(pattern, expr_tokens(branch))),
    ensures
        tokens[pos] == pattern,
        parse_branch(tokens, pos + 1, pos) == Ok::<(ExpressionView, int), ParserErrorView>(
            (branch, pos + 5 + expr_tokens(branch).len()),
        ),
        branch_tokens(pattern, expr_tokens(branch)).len() == 5 + expr_tokens(branch).len(),
    decreases branch, 3int,
{
    let head = seq![
        pattern,
        TokenView::Symbol(Symbol::Equal),
        TokenView::Symbol(Symbol::RAngle),
        TokenView::Paren(Bracket::LBrace),
    ];
    let close = seq![TokenView::Paren(Bracket::RBrace)];
    lemma_stands_split(tokens, pos, head, expr_tokens(branch) + close);
    lemma_stands_split(tokens, pos + 4, expr_tokens(branch), close);
    assert(tokens[pos] == head[0]);
    assert(tokens[pos + 1] == head[1]);
    assert(tokens[pos + 2] == head[2]);
    assert(tokens[pos + 3] == head[3]);
    assert(tokens[pos + 4 + expr_tokens(branch).len()] == close[0]);
    lemma_arrow_reads_back(tokens, pos + 1);
    lemma_expr_reads_back(tokens, pos + 4, branch);
}

/// The tokens of the cases of a match are read back, where no number
/// follows them.
proof fn lemma_cases_read_back(
    tokens: Seq<TokenView>,
    pos: int,
    cases: Seq<(usize, ExpressionView)>,
    from: int,
)
    requires
        0 <= from <= cases.len(),
        stands_at(tokens, pos, cases_tokens(cases, from)),
        !(peek(tokens, pos + cases_tokens(cases, from).len()) matches Some(TokenView::Number(_))),
    ensures
        parse_cases(tokens, pos) == Ok::<(Seq<(usize, ExpressionView)>, int), ParserErrorView>(
            (cases.skip(from), pos + cases_tokens(cases, from).len()),
        ),
    decreases cases, cases.len() - from,
{
    if from < cases.len() {
        let first = branch_tokens(TokenView::Number(cases[from].0), expr_tokens(cases[from].1));
        lemma_stands_split(tokens, pos, first, cases_tokens(cases, from + 1));
        lemma_branch_reads_back(tokens, pos, TokenView::Number(cases[from].0), cases[from].1);
        lemma_cases_read_back(tokens, pos + first.len(), cases, from + 1);
        assert(seq![cases[from]] + cases.skip(from + 1) =~= cases.skip(from));
    } else {
        assert(cases.skip(from) =~= Seq::empty());
    }
}

/// The tokens of a function are read as that function, wherever they stand
/// and whatever follows them.
pub proof fn lemma_def_reads_back(tokens: Seq<TokenView>, pos: int, def: DefinitionView)
    requires
        stands_at(tokens, pos, def_tokens(def)),
    ensures
        parse_def(tokens, pos) == Some(
            Ok::<(DefinitionView, int), ParserErrorView>((def, pos + def_tokens(def).len())),
        ),
        def_tokens(def).len() > 0,
{
    let head = seq![
        TokenView::Keyword(Keyword::Fn),
        TokenView::Paren(Bracket::LParen),
        TokenView::Identifier(def.name),
    ];
    let middle = seq![TokenView::Paren(Bracket::RParen), TokenView::Paren(Bracket::LBrace)];
    let close = seq![TokenView::Paren(Bracket::RBrace)];
    lemma_stands_split(
        tokens,
        pos,
        head,
        names_tokens(def.params) + (middle + (expr_tokens(def.body) + close)),
    );
    lemma_stands_split(
        tokens,
        pos + 3,
        names_tokens(def.params),
        middle + (expr_tokens(def.body) + close),
    );
    let at_close = pos + 3 + def.params.len();
    lemma_stands_split(tokens, at_close, middle, expr_tokens(def.body) + close);
    lemma_stands_split(tokens, at_close + 2, expr_tokens(def.body), close);
    assert(tokens[pos] == head[0]);
    assert(tokens[pos + 1] == head[1]);
    assert(tokens[pos + 2] == head[2]);
    assert(tokens[at_close] == middle[0]);
    assert(tokens[at_close + 1] == middle[1]);
    assert(tokens[at_close + 2 + expr_tokens(def.body).len()] == close[0]);
    lemma_names_read_back(tokens, pos + 3, def.params);
    lemma_expr_reads_back(tokens, at_close + 2, def.body);
    assert(parse_function_header(tokens, pos + 1) == Ok::<
        ((Seq<char>, Seq<Seq<char>>), int),
        ParserErrorView,
    >(((def.name, def.params), at_close + 1)));
    assert(parse_def_inner(tokens, pos + 1) == Ok::<(DefinitionView, int), ParserErrorView>(
        (def, pos + def_tokens(def).len()),
    ));
}

/// The tokens of a list of functions are read as those functions.
pub proof fn lemma_defs_read_back(defs: Seq<DefinitionView>)
    ensures
        parse_defs(defs_tokens(defs, 0), 0) == Ok::<Seq<DefinitionView>, ParserErrorView>(defs),
{
    lemma_defs_read_back_from(defs_tokens(defs, 0), 0, defs, 0);
    assert(defs.skip(0) == defs);
}

/// The tokens of the functions of a list from `from` on, where they end the
/// tokens, are read as those functions.
proof fn lemma_defs_read_back_from(
    tokens: Seq<TokenView>,
    pos: int,
    defs: Seq<DefinitionView>,
    from: int,
)
    requires
        0 <= from <= defs.len(),
        stands_at(tokens, pos, defs_tokens(defs, from)),
        pos + defs_tokens(defs, from).len() == tokens.len(),
    ensures
        parse_defs(tokens, pos) == Ok::<Seq<DefinitionView>, ParserErrorView>(defs.skip(from)),
    decreases defs.len() - from,
{
    if from < defs.len() {
        lemma_stands_split(tokens, pos, def_tokens(defs[from]), defs_tokens(defs, from + 1));
        lemma_def_reads_back(tokens, pos, defs[from]);
        lemma_defs_read_back_from(tokens, pos + def_tokens(defs[from]).len(), defs, from + 1);
        assert(seq![defs[from]] + defs.skip(from + 1) =~= defs.skip(from));
    } else {
        assert(defs.skip(from) =~= Seq::empty());
    }
}

} // verus!
