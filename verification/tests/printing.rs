use tinyfn::expr::{Atom, Definition, Expression, Operation};
use tinyfn::lexer::{tokenize, Bracket, Keyword, Symbol, Token};
use tinyfn::parser::parse;
use tinyfn::pretty::{atom_to_str, fmt_app, fmt_newline_ident, op_to_str};

fn definitions(source: &str) -> Vec<Definition> {
    parse(tokenize(source).unwrap()).unwrap()
}

fn written(source: &str) -> String {
    let defs = definitions(source);
    assert_eq!(defs.len(), 1);
    defs[0].pretty().text()
}

#[test]
fn operations_as_written() {
    let table = [
        (Operation::Add, "+"),
        (Operation::Sub, "-"),
        (Operation::Mul, "*"),
        (Operation::Div, "/"),
        (Operation::Mod, "%"),
        (Operation::Eq, "=="),
        (Operation::Lt, "<"),
        (Operation::Le, "<="),
        (Operation::Gt, ">"),
        (Operation::Ge, ">="),
        (Operation::And, "&&"),
        (Operation::Or, "||"),
        (Operation::Xor, "^"),
        (Operation::Sr, ">>"),
        (Operation::Sl, "<<"),
    ];
    for (op, text) in table {
        assert_eq!(op_to_str(&op), text);
        assert_eq!(op.pretty().text(), text);
    }
}

#[test]
fn atoms_as_written() {
    assert_eq!(atom_to_str(&Atom::Var("x1".to_string())), "x1");
    assert_eq!(atom_to_str(&Atom::Lit(0)), "0");
    assert_eq!(atom_to_str(&Atom::Lit(7)), "7");
    assert_eq!(atom_to_str(&Atom::Lit(10)), "10");
    assert_eq!(atom_to_str(&Atom::Lit(1234567890)), "1234567890");
    assert_eq!(atom_to_str(&Atom::Lit(usize::MAX)), format!("{}", usize::MAX));
}

#[test]
fn tokens_as_written() {
    assert_eq!(Token::Keyword(Keyword::Fn).pretty().text(), "fn");
    assert_eq!(Token::Keyword(Keyword::Let).pretty().text(), "let");
    assert_eq!(Token::Keyword(Keyword::Match).pretty().text(), "match");
    assert_eq!(Token::Keyword(Keyword::Apply).pretty().text(), "apply");
    assert_eq!(Token::Keyword(Keyword::Papp).pretty().text(), "papp");
    assert_eq!(Token::Identifier("abc".to_string()).pretty().text(), "abc");
    assert_eq!(Token::Number(42).pretty().text(), "42");
    assert_eq!(Token::Symbol(Symbol::Semicolon).pretty().text(), ";");
    assert_eq!(Token::Paren(Bracket::LBrace).pretty().text(), "{");
}

#[test]
fn line_break_and_indentation() {
    let mut s = String::from("a");
    fmt_newline_ident(&mut s, 0);
    assert_eq!(s, "a\n");
    fmt_newline_ident(&mut s, 3);
    assert_eq!(s, "a\n\n      ");
}

#[test]
fn application_as_written() {
    let mut s = String::new();
    fmt_app(&mut s, "f", &vec![]);
    assert_eq!(s, "(f)");
    let mut s = String::from("> ");
    fmt_app(&mut s, "f", &vec!["a".to_string(), "12".to_string()]);
    assert_eq!(s, "> (f a 12)");
}

#[test]
fn expressions_as_written() {
    let x = || Atom::Var("x".to_string());
    assert_eq!(Expression::Unit(x()).pretty().text(), "x");
    assert_eq!(
        Expression::Operate(Operation::Le, x(), Atom::Lit(3))
            .pretty()
            .text(),
        "(<= x 3)"
    );
    assert_eq!(
        Expression::Call("f".to_string(), vec![x(), Atom::Lit(3)])
            .pretty()
            .text(),
        "(f x 3)"
    );
    assert_eq!(
        Expression::Apply("f".to_string(), vec![x(), Atom::Lit(3)])
            .pretty()
            .text(),
        "(apply f x 3)"
    );
    assert_eq!(
        Expression::Papp("f".to_string(), vec![]).pretty().text(),
        "(papp f)"
    );
    assert_eq!(
        Expression::Let(
            "y".to_string(),
            Box::new(Expression::Unit(Atom::Lit(1))),
            Box::new(Expression::Unit(x()))
        )
        .pretty()
        .text(),
        "let y = 1;\nx"
    );
    assert_eq!(
        Expression::Match(x(), vec![], None).pretty().text(),
        "match x {\n}"
    );
}

#[test]
fn definition_as_written() {
    assert_eq!(written("fn (id x) { x }"), "fn (id x) {\n  x\n}");
    assert_eq!(written("fn (main) { 1 }"), "fn (main) {\n  1\n}");
}

#[test]
fn lets_as_written() {
    assert_eq!(
        written("fn (polynomial x) { let x2 = (* x x); let x3 = (* x x2); (+ x2 x3) }"),
        "fn (polynomial x) {\n  let x2 = (* x x);\n  let x3 = (* x x2);\n  (+ x2 x3)\n}"
    );
}

#[test]
fn match_as_written() {
    assert_eq!(
        written("fn (not x) { match x { 0 => { 1 } 1 => { 0 } _ => { x } } }"),
        "fn (not x) {\n  match x {\n    0 => {\n      1\n    }\n    1 => {\n      0\n    }\n    _ => {\n      x\n    }\n  }\n}"
    );
}

#[test]
fn written_form_is_read_back_as_the_same_definition() {
    let source = "
fn (buildList n) {
  match n {
    0 => {
      (papp nil)
    }
    _ => {
      let m = (- n 1);
      let tail = (buildList m);
      (papp cons n tail)
    }
  }
}";
    let first = definitions(source);
    let text = first[0].pretty().text();
    assert_eq!(text, source.trim_start());
    let second = definitions(&text);
    assert_eq!(first, second);
}
