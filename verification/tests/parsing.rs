use tinyfn::expr::{Atom, Definition, Expression, Operation};
use tinyfn::lexer::{tokenize, Bracket, Keyword, Symbol, Token};
use tinyfn::parser::{parse, token_eq, ParserError, Scanner};

fn var(name: &str) -> Atom {
    Atom::Var(name.to_string())
}

fn parse_source(source: &str) -> Result<Vec<Definition>, ParserError> {
    parse(tokenize(source).unwrap())
}

fn body_of(source: &str) -> Expression {
    let mut defs = parse_source(&format!("fn (f) {{ {} }}", source)).unwrap();
    assert_eq!(defs.len(), 1);
    defs.remove(0).body
}

fn error_of(source: &str) -> ParserError {
    parse_source(source).unwrap_err()
}

fn expected(what: &str) -> ParserError {
    ParserError::Expected(what.to_string())
}

#[test]
fn definition_with_parameters() {
    let defs = parse_source("fn (flip f x y) { (apply f y x) }").unwrap();
    assert_eq!(
        defs,
        vec![Definition {
            name: "flip".to_string(),
            params: vec!["f".to_string(), "x".to_string(), "y".to_string()],
            body: Expression::Apply("f".to_string(), vec![var("y"), var("x")]),
        }]
    );
}

#[test]
fn several_definitions_in_order() {
    let defs = parse_source("fn (a) { 1 } fn (b x) { x } fn (c) { (a) }").unwrap();
    let names: Vec<&str> = defs.iter().map(|d| d.name.as_str()).collect();
    assert_eq!(names, vec!["a", "b", "c"]);
    assert_eq!(defs[0].body, Expression::Unit(Atom::Lit(1)));
    assert_eq!(defs[2].body, Expression::Call("a".to_string(), vec![]));
}

#[test]
fn parsing_stops_where_no_definition_begins() {
    assert_eq!(parse_source("").unwrap(), vec![]);
    assert_eq!(parse_source("x y z").unwrap(), vec![]);
    let defs = parse_source("fn (a) { 1 } 2 fn (b) { 3 }").unwrap();
    assert_eq!(defs.len(), 1);
}

#[test]
fn atoms_are_expressions() {
    assert_eq!(body_of("x"), Expression::Unit(var("x")));
    assert_eq!(body_of("42"), Expression::Unit(Atom::Lit(42)));
}

#[test]
fn every_operator_is_parsed() {
    let table = [
        ("+", Operation::Add),
        ("-", Operation::Sub),
        ("*", Operation::Mul),
        ("/", Operation::Div),
        ("%", Operation::Mod),
        ("==", Operation::Eq),
        ("<", Operation::Lt),
        ("<=", Operation::Le),
        (">", Operation::Gt),
        (">=", Operation::Ge),
        ("&&", Operation::And),
        ("||", Operation::Or),
        ("^", Operation::Xor),
        (">>", Operation::Sr),
        ("<<", Operation::Sl),
    ];
    for (text, op) in table {
        assert_eq!(
            body_of(&format!("({} x 1)", text)),
            Expression::Operate(op, var("x"), Atom::Lit(1))
        );
    }
}

#[test]
fn unknown_operator_is_reported_with_its_symbols() {
    assert_eq!(
        error_of("fn (f) { (=< x 1) }"),
        ParserError::UnknownOperation("=<".to_string())
    );
    assert_eq!(
        error_of("fn (f) { (& x 1) }"),
        ParserError::UnknownOperation("&".to_string())
    );
    assert_eq!(
        error_of("fn (f) { (_ x 1) }"),
        ParserError::UnknownOperation("_".to_string())
    );
}

#[test]
fn call_apply_and_papp() {
    assert_eq!(
        body_of("(g 1 x)"),
        Expression::Call("g".to_string(), vec![Atom::Lit(1), var("x")])
    );
    assert_eq!(
        body_of("(apply g 1 x)"),
        Expression::Apply("g".to_string(), vec![Atom::Lit(1), var("x")])
    );
    assert_eq!(
        body_of("(papp g 1 x)"),
        Expression::Papp("g".to_string(), vec![Atom::Lit(1), var("x")])
    );
    assert_eq!(body_of("(papp g)"), Expression::Papp("g".to_string(), vec![]));
}

#[test]
fn let_binds_a_value_in_a_body() {
    assert_eq!(
        body_of("let a = (+ 1 2); let b = a; b"),
        Expression::Let(
            "a".to_string(),
            Box::new(Expression::Operate(
                Operation::Add,
                Atom::Lit(1),
                Atom::Lit(2)
            )),
            Box::new(Expression::Let(
                "b".to_string(),
                Box::new(Expression::Unit(var("a"))),
                Box::new(Expression::Unit(var("b"))),
            )),
        )
    );
}

#[test]
fn match_with_cases_and_default() {
    assert_eq!(
        body_of("match x { 0 => { 1 } 1 => { (g x) } _ => { x } }"),
        Expression::Match(
            var("x"),
            vec![
                (0, Expression::Unit(Atom::Lit(1))),
                (1, Expression::Call("g".to_string(), vec![var("x")])),
            ],
            Some(Box::new(Expression::Unit(var("x")))),
        )
    );
    assert_eq!(
        body_of("match 3 { 3 => { 4 } }"),
        Expression::Match(
            Atom::Lit(3),
            vec![(3, Expression::Unit(Atom::Lit(4)))],
            None
        )
    );
    assert_eq!(
        body_of("match x { }"),
        Expression::Match(var("x"), vec![], None)
    );
}

#[test]
fn nested_matches() {
    assert_eq!(
        body_of("match x { 0 => { match y { _ => { 1 } } } }"),
        Expression::Match(
            var("x"),
            vec![(
                0,
                Expression::Match(
                    var("y"),
                    vec![],
                    Some(Box::new(Expression::Unit(Atom::Lit(1))))
                )
            )],
            None,
        )
    );
}

#[test]
fn errors_say_what_was_expected() {
    assert_eq!(error_of("fn id"), expected("("));
    assert_eq!(error_of("fn ("), expected("function name"));
    assert_eq!(error_of("fn (1)"), expected("function name"));
    assert_eq!(error_of("fn (f x"), expected(")"));
    assert_eq!(error_of("fn (f) x"), expected("{"));
    assert_eq!(error_of("fn (f) {"), expected("an expression"));
    assert_eq!(error_of("fn (f) { ; }"), expected("an expression"));
    assert_eq!(error_of("fn (f) { x"), expected("}"));
    assert_eq!(error_of("fn (f) { (+ x) }"), expected("an atom"));
    assert_eq!(error_of("fn (f) { (+ x 1 2) }"), expected(")"));
    assert_eq!(error_of("fn (f) { (g x }"), expected(")"));
    assert_eq!(error_of("fn (f) { () }"), expected("a function or operator"));
    assert_eq!(error_of("fn (f) { (1 2) }"), expected("a function or operator"));
    assert_eq!(
        error_of("fn (f) { (apply 1) }"),
        expected("a function to apply to")
    );
    assert_eq!(
        error_of("fn (f) { (papp) }"),
        expected("a function to partially apply to")
    );
    assert_eq!(error_of("fn (f) { let 1 = 2; 3 }"), expected("an identifier"));
    assert_eq!(error_of("fn (f) { let x 2; 3 }"), expected("="));
    assert_eq!(error_of("fn (f) { let x = 2 3 }"), expected(";"));
    assert_eq!(error_of("fn (f) { match { } }"), expected("an atom"));
    assert_eq!(error_of("fn (f) { match x 0 }"), expected("{"));
    assert_eq!(error_of("fn (f) { match x { 0 { 1 } } }"), expected("=>"));
    assert_eq!(error_of("fn (f) { match x { 0 = { 1 } } }"), expected("=>"));
    assert_eq!(error_of("fn (f) { match x { 0 => 1 } }"), expected("{"));
    assert_eq!(error_of("fn (f) { match x { _ { 1 } } }"), expected("=>"));
    assert_eq!(error_of("fn (f) { match x { 0 => { 1 } "), expected("}"));
    assert_eq!(
        error_of("fn (f) { match x { _ => { 1 } 0 => { 2 } } }"),
        expected("}")
    );
}

#[test]
fn scanner_yields_one_definition_at_a_time() {
    let tokens = tokenize("fn (a) { 1 } fn (b) { (a } fn (c) { 3 }").unwrap();
    let mut scanner = Scanner::new(tokens);
    let first = scanner.next().unwrap().unwrap();
    assert_eq!(first.name, "a");
    assert_eq!(scanner.next(), Some(Err(expected(")"))));
}

#[test]
fn scanner_without_tokens_yields_nothing() {
    let mut scanner = Scanner::new(vec![]);
    assert_eq!(scanner.next(), None);
    let mut scanner = Scanner::new(vec![Token::Number(1)]);
    assert_eq!(scanner.next(), None);
}

#[test]
fn tokens_are_compared_by_what_they_hold() {
    assert!(token_eq(
        &Token::Identifier("a".to_string()),
        &Token::Identifier("a".to_string())
    ));
    assert!(!token_eq(
        &Token::Identifier("a".to_string()),
        &Token::Identifier("b".to_string())
    ));
    assert!(token_eq(
        &Token::Keyword(Keyword::Fn),
        &Token::Keyword(Keyword::Fn)
    ));
    assert!(!token_eq(
        &Token::Keyword(Keyword::Fn),
        &Token::Keyword(Keyword::Let)
    ));
    assert!(!token_eq(&Token::Number(1), &Token::Number(2)));
    assert!(token_eq(&Token::Number(2), &Token::Number(2)));
    assert!(!token_eq(
        &Token::Symbol(Symbol::Plus),
        &Token::Paren(Bracket::LParen)
    ));
    assert!(token_eq(
        &Token::Paren(Bracket::LParen),
        &Token::Paren(Bracket::LParen)
    ));
    assert!(!token_eq(
        &Token::Symbol(Symbol::Plus),
        &Token::Symbol(Symbol::Minus)
    ));
}
