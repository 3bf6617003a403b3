use tinyfn::lexer::{keyword, str_eq, Keyword};
use tinyfn::text::{parse_number, push_decimal, string_of};

fn chars(s: &str) -> Vec<char> {
    s.chars().collect()
}

#[test]
fn string_of_a_range_of_characters() {
    let text = chars("hello world");
    assert_eq!(string_of(&text, 0, 5), "hello");
    assert_eq!(string_of(&text, 6, 11), "world");
    assert_eq!(string_of(&text, 3, 3), "");
    let text = chars("a\u{e9}\u{4eac}z");
    assert_eq!(string_of(&text, 1, 3), "\u{e9}\u{4eac}");
}

#[test]
fn decimal_numerals_are_read() {
    let text = chars("x123y");
    assert_eq!(parse_number(&text, 1, 4), Some(123));
    assert_eq!(parse_number(&text, 1, 2), Some(1));
    assert_eq!(parse_number(&text, 1, 1), None);
    assert_eq!(parse_number(&text, 0, 4), None);
    assert_eq!(parse_number(&text, 1, 5), None);
    let zeros = chars("000");
    assert_eq!(parse_number(&zeros, 0, 3), Some(0));
    let plus = chars("+1");
    assert_eq!(parse_number(&plus, 0, 2), None);
}

#[test]
fn decimal_numerals_must_fit_a_word() {
    let max = chars(&format!("{}", usize::MAX));
    assert_eq!(parse_number(&max, 0, max.len()), Some(usize::MAX));
    let over = chars(&format!("{}", usize::MAX as u128 + 1));
    assert_eq!(parse_number(&over, 0, over.len()), None);
    let long = chars(&format!("{}9", usize::MAX));
    assert_eq!(parse_number(&long, 0, long.len()), None);
}

#[test]
fn decimal_numerals_are_written() {
    let mut s = String::from("n=");
    push_decimal(&mut s, 0);
    assert_eq!(s, "n=0");
    push_decimal(&mut s, 9);
    push_decimal(&mut s, 10);
    push_decimal(&mut s, 4096);
    assert_eq!(s, "n=09104096");
    let mut s = String::new();
    push_decimal(&mut s, usize::MAX);
    assert_eq!(s, format!("{}", usize::MAX));
}

#[test]
fn written_numerals_are_read_back() {
    for n in [0usize, 1, 9, 10, 99, 100, 12345, usize::MAX] {
        let mut s = String::new();
        push_decimal(&mut s, n);
        let text = chars(&s);
        assert_eq!(parse_number(&text, 0, text.len()), Some(n));
    }
}

#[test]
fn keywords_by_their_words() {
    assert_eq!(keyword(&"fn".to_string()), Some(Keyword::Fn));
    assert_eq!(keyword(&"let".to_string()), Some(Keyword::Let));
    assert_eq!(keyword(&"match".to_string()), Some(Keyword::Match));
    assert_eq!(keyword(&"apply".to_string()), Some(Keyword::Apply));
    assert_eq!(keyword(&"papp".to_string()), Some(Keyword::Papp));
    assert_eq!(keyword(&"Fn".to_string()), None);
    assert_eq!(keyword(&"f".to_string()), None);
    assert_eq!(keyword(&"".to_string()), None);
}

#[test]
fn strings_are_compared_by_their_characters() {
    assert!(str_eq(&"abc".to_string(), "abc"));
    assert!(!str_eq(&"abc".to_string(), "abd"));
    assert!(!str_eq(&"abc".to_string(), "ab"));
    assert!(str_eq(&String::new(), ""));
}
