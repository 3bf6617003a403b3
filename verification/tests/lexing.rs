use tinyfn::lexer::{
    classify, tokenize, Bracket, CharClass, Classified, Keyword, LexerError, Scanner, Symbol,
    Token,
};

fn ident(name: &str) -> Token {
    Token::Identifier(name.to_string())
}

#[test]
fn symbols_and_brackets_have_their_characters() {
    assert_eq!(Symbol::LAngle.to_char(), '<');
    assert_eq!(Symbol::RAngle.to_char(), '>');
    assert_eq!(Symbol::Semicolon.to_char(), ';');
    assert_eq!(Symbol::Equal.to_char(), '=');
    assert_eq!(Symbol::Plus.to_char(), '+');
    assert_eq!(Symbol::Minus.to_char(), '-');
    assert_eq!(Symbol::Star.to_char(), '*');
    assert_eq!(Symbol::Slash.to_char(), '/');
    assert_eq!(Symbol::Percentage.to_char(), '%');
    assert_eq!(Symbol::And.to_char(), '&');
    assert_eq!(Symbol::Pipe.to_char(), '|');
    assert_eq!(Symbol::Caret.to_char(), '^');
    assert_eq!(Symbol::Underscore.to_char(), '_');
    assert_eq!(Bracket::LBrace.to_char(), '{');
    assert_eq!(Bracket::RBrace.to_char(), '}');
    assert_eq!(Bracket::LParen.to_char(), '(');
    assert_eq!(Bracket::RParen.to_char(), ')');
}

#[test]
fn tokens_of_a_definition() {
    let tokens = tokenize("fn (id x) {\n  x\n}").unwrap();
    assert_eq!(
        tokens,
        vec![
            Token::Keyword(Keyword::Fn),
            Token::Paren(Bracket::LParen),
            ident("id"),
            ident("x"),
            Token::Paren(Bracket::RParen),
            Token::Paren(Bracket::LBrace),
            ident("x"),
            Token::Paren(Bracket::RBrace),
        ]
    );
}

#[test]
fn keywords_are_told_from_identifiers() {
    let tokens = tokenize("fn let match apply papp fnx lets Match").unwrap();
    assert_eq!(
        tokens,
        vec![
            Token::Keyword(Keyword::Fn),
            Token::Keyword(Keyword::Let),
            Token::Keyword(Keyword::Match),
            Token::Keyword(Keyword::Apply),
            Token::Keyword(Keyword::Papp),
            ident("fnx"),
            ident("lets"),
            ident("Match"),
        ]
    );
}

#[test]
fn every_symbol_is_a_token_of_its_own() {
    let tokens = tokenize("<>;=+-*/%&|^_").unwrap();
    let symbols = [
        Symbol::LAngle,
        Symbol::RAngle,
        Symbol::Semicolon,
        Symbol::Equal,
        Symbol::Plus,
        Symbol::Minus,
        Symbol::Star,
        Symbol::Slash,
        Symbol::Percentage,
        Symbol::And,
        Symbol::Pipe,
        Symbol::Caret,
        Symbol::Underscore,
    ];
    assert_eq!(tokens.len(), symbols.len());
    for (token, symbol) in tokens.iter().zip(symbols.iter()) {
        assert_eq!(*token, Token::Symbol(*symbol));
    }
}

#[test]
fn numbers_are_decimal() {
    assert_eq!(tokenize("0").unwrap(), vec![Token::Number(0)]);
    assert_eq!(tokenize("007").unwrap(), vec![Token::Number(7)]);
    assert_eq!(
        tokenize("12 345").unwrap(),
        vec![Token::Number(12), Token::Number(345)]
    );
    let max = format!("{}", usize::MAX);
    assert_eq!(tokenize(&max).unwrap(), vec![Token::Number(usize::MAX)]);
}

#[test]
fn numbers_that_are_none_are_errors() {
    assert_eq!(tokenize("12ab"), Err(LexerError::NumErr));
    assert_eq!(tokenize("x 1x"), Err(LexerError::NumErr));
    let too_large = format!("{}0", usize::MAX);
    assert_eq!(tokenize(&too_large), Err(LexerError::NumErr));
    assert_eq!(tokenize("\u{0663}"), Err(LexerError::NumErr));
}

#[test]
fn identifiers_may_hold_digits_after_the_first_letter() {
    assert_eq!(
        tokenize("x2 a1b2").unwrap(),
        vec![ident("x2"), ident("a1b2")]
    );
    assert_eq!(tokenize("caf\u{e9}").unwrap(), vec![ident("caf\u{e9}")]);
}

#[test]
fn unknown_character_is_an_error() {
    assert_eq!(tokenize("x # y"), Err(LexerError::UnknownToken('#')));
    assert_eq!(tokenize("$"), Err(LexerError::UnknownToken('$')));
}

#[test]
fn empty_and_blank_texts_have_no_tokens() {
    assert_eq!(tokenize("").unwrap(), vec![]);
    assert_eq!(tokenize(" \n\t ").unwrap(), vec![]);
}

#[test]
fn scanner_steps_through_a_text() {
    let mut scanner = Scanner::new("  let x=(+ 1 y);");
    assert_eq!(scanner.next(), Some(Ok(Token::Keyword(Keyword::Let))));
    assert_eq!(scanner.next(), Some(Ok(ident("x"))));
    assert_eq!(scanner.next(), Some(Ok(Token::Symbol(Symbol::Equal))));
    assert_eq!(scanner.next(), Some(Ok(Token::Paren(Bracket::LParen))));
    assert_eq!(scanner.next(), Some(Ok(Token::Symbol(Symbol::Plus))));
    assert_eq!(scanner.next(), Some(Ok(Token::Number(1))));
    assert_eq!(scanner.next(), Some(Ok(ident("y"))));
    assert_eq!(scanner.next(), Some(Ok(Token::Paren(Bracket::RParen))));
    assert_eq!(scanner.next(), Some(Ok(Token::Symbol(Symbol::Semicolon))));
    assert_eq!(scanner.next(), None);
    assert_eq!(scanner.next(), None);
}

#[test]
fn scanner_does_not_pass_an_unknown_character() {
    let mut scanner = Scanner::new("a ?");
    assert_eq!(scanner.next(), Some(Ok(ident("a"))));
    assert_eq!(scanner.next(), Some(Err(LexerError::UnknownToken('?'))));
    assert_eq!(scanner.next(), Some(Err(LexerError::UnknownToken('?'))));
}

#[test]
fn single_steps_leave_the_scanner_where_nothing_is_found() {
    let mut scanner = Scanner::new("x1 (");
    assert_eq!(scanner.lex_symbol(), None);
    assert_eq!(scanner.lex_paren(), None);
    assert_eq!(scanner.lex_number(), None);
    assert_eq!(scanner.lex_identifier(), Some(ident("x1")));
    assert_eq!(scanner.lex_identifier(), None);
    scanner.skip_whitespace();
    assert_eq!(scanner.lex_symbol(), None);
    assert_eq!(scanner.lex_paren(), Some(Token::Paren(Bracket::LParen)));
    assert_eq!(scanner.lex_paren(), None);
}

#[test]
fn lex_number_passes_the_whole_word() {
    let mut scanner = Scanner::new("12ab+");
    assert_eq!(scanner.lex_number(), Some(Err(LexerError::NumErr)));
    assert_eq!(scanner.lex_symbol(), Some(Token::Symbol(Symbol::Plus)));
}

#[test]
fn classes_of_characters() {
    let a = classify('a');
    assert!(a.alphabetic && a.alphanumeric && !a.numeric && !a.whitespace);
    assert!(a.has(CharClass::Alphabetic));
    assert!(!a.has(CharClass::Numeric));
    let seven = classify('7');
    assert!(!seven.alphabetic && seven.alphanumeric && seven.numeric && !seven.whitespace);
    let space = classify(' ');
    assert!(space.whitespace && !space.alphanumeric);
    assert!(space.has(CharClass::Whitespace));
    let plus = classify('+');
    assert!(!plus.alphabetic && !plus.alphanumeric && !plus.numeric && !plus.whitespace);
    assert_eq!(plus.ch, '+');
}

#[test]
fn lexer_goes_by_the_classes_that_it_is_given() {
    let plain = |ch: char| Classified {
        ch,
        alphabetic: false,
        alphanumeric: false,
        numeric: false,
        whitespace: false,
    };
    let letter = |ch: char| Classified {
        ch,
        alphabetic: true,
        alphanumeric: true,
        numeric: false,
        whitespace: false,
    };
    let blank = |ch: char| Classified {
        ch,
        alphabetic: false,
        alphanumeric: false,
        numeric: false,
        whitespace: true,
    };
    // '#' counts as a letter here and 'x' as white space.
    let input = vec![letter('#'), letter('#'), blank('x'), plain('a')];
    let mut scanner = Scanner::from_classified(input);
    assert_eq!(scanner.next(), Some(Ok(ident("##"))));
    assert_eq!(scanner.next(), Some(Err(LexerError::UnknownToken('a'))));
}
