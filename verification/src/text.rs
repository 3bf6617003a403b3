//! Strings from characters, and decimal numerals.

use vstd::prelude::*;

verus! {

/// Appends a character to a string.
///
/// Wraps `String::push`, which appends the given character to the end of the
/// string: the characters of the string are afterwards those that it had,
/// followed by `c`.
#[verifier::external_body]
pub(crate) fn push_char(s: &mut String, c: char)
    ensures
        final(s)@ == old(s)@.push(c),
{
    s.push(c)
}

/// The string of the characters of `chars` from `from` up to `to`.
pub fn string_of(chars: &Vec<char>, from: usize, to: usize) -> (s: String)
    requires
        from <= to <= chars.len(),
    ensures
        s@ == chars@.subrange(from as int, to as int),
{
    let mut s = String::new();
    let mut i: usize = from;
    while i < to
        invariant
            from <= i <= to <= chars.len(),
            s@ == chars@.subrange(from as int, i as int),
        decreases to - i,
    {
        push_char(&mut s, chars[i]);
        i += 1;
        proof {
            assert(chars@.subrange(from as int, i as int) == chars@.subrange(
                from as int,
                i as int - 1,
            ).push(chars@[i as int - 1]));
        }
    }
    s
}

/// Whether `c` is one of the ten decimal digits.
pub open spec fn is_digit(c: char) -> bool {
    '0' <= c <= '9'
}

/// The value of a decimal digit.
pub open spec fn digit_value(c: char) -> nat {
    (c as u32 - '0' as u32) as nat
}

/// The digit of a value below ten.
pub open spec fn digit_char(d: nat) -> char {
    (d + '0' as u32) as char
}

/// Whether `text` is a decimal numeral: not empty, and digits throughout.
pub open spec fn is_decimal(text: Seq<char>) -> bool {
    text.len() > 0 && forall|i: int| 0 <= i < text.len() ==> is_digit(#[trigger] text[i])
}

/// The number that a sequence of digits denotes.
pub open spec fn decimal_value(text: Seq<char>) -> nat
    decreases text.len(),
{
    if text.len() == 0 {
        0
    } else {
        10 * decimal_value(text.drop_last()) + digit_value(text.last())
    }
}

/// The word that a text denotes as a decimal numeral, if it is one and the
/// number fits a word.
pub open spec fn parse_decimal(text: Seq<char>) -> Option<usize> {
    if is_decimal(text) && decimal_value(text) <= usize::MAX {
        Some(decimal_value(text) as usize)
    } else {
        None
    }
}

/// The value of a numeral is at least that of each of its prefixes.
proof fn lemma_decimal_value_grows(text: Seq<char>, n: int)
    requires
        0 <= n <= text.len(),
    ensures
        decimal_value(text.take(n)) <= decimal_value(text),
    decreases text.len() - n,
{
    if n < text.len() {
        assert(text.take(n + 1).drop_last() == text.take(n));
        lemma_decimal_value_grows(text, n + 1);
    } else {
        assert(text.take(n) == text);
    }
}

/// Reads the characters of `chars` from `from` up to `to` as a decimal
/// numeral.
pub fn parse_number(chars: &Vec<char>, from: usize, to: usize) -> (res: Option<usize>)
    requires
        from <= to <= chars.len(),
    ensures
        res == parse_decimal(chars@.subrange(from as int, to as int)),
{
    let ghost text = chars@.subrange(from as int, to as int);
    if from == to {
        return None;
    }
    let mut value: usize = 0;
    let mut i: usize = from;
    while i < to
        invariant
            from <= i <= to <= chars.len(),
            text == chars@.subrange(from as int, to as int),
            forall|j: int| 0 <= j < i - from ==> is_digit(#[trigger] text[j]),
            value == decimal_value(text.take(i - from)),
        decreases to - i,
    {
        let c = chars[i];
        if c < '0' || c > '9' {
            proof {
                assert(!is_digit(text[i - from]));
            }
            return None;
        }
        let digit: usize = (c as u32 - '0' as u32) as usize;
        proof {
            assert(text.take(i - from + 1).drop_last() == text.take(i - from));
            assert(text.take(i - from + 1).last() == c);
            lemma_decimal_value_grows(text, i - from + 1);
        }
        if value > (usize::MAX - digit) / 10 {
            return None;
        }
        value = value * 10 + digit;
        i += 1;
    }
    proof {
        assert(text.take(to - from) == text);
    }
    Some(value)
}

/// The decimal numeral of a number, without leading zeros.
pub open spec fn decimal_digits(n: nat) -> Seq<char>
    decreases n,
{
    if n < 10 {
        seq![digit_char(n)]
    } else {
        decimal_digits(n / 10).push(digit_char(n % 10))
    }
}

/// The numeral of a number is a decimal numeral, and denotes the number.
pub proof fn lemma_decimal_digits_denote(n: nat)
    ensures
        is_decimal(decimal_digits(n)),
        decimal_value(decimal_digits(n)) == n,
    decreases n,
{
    if n < 10 {
        assert(decimal_digits(n).drop_last() == Seq::<char>::empty());
        assert(decimal_value(Seq::<char>::empty()) == 0);
        assert(digit_value(digit_char(n)) == n);
    } else {
        lemma_decimal_digits_denote(n / 10);
        assert(decimal_digits(n).drop_last() == decimal_digits(n / 10));
        assert(digit_value(digit_char(n % 10)) == n % 10);
        assert(decimal_digits(n).last() == digit_char(n % 10));
    }
}

/// Appends the decimal numeral of `n` to `s`.
pub fn push_decimal(s: &mut String, n: usize)
    ensures
        final(s)@ == old(s)@ + decimal_digits(n as nat),
    decreases n,
{
    if n >= 10 {
        push_decimal(s, n / 10);
    }
    let digit: u8 = (n % 10) as u8;
    let c: char = (digit + 48u8) as char;
    push_char(s, c);
    proof {
        assert(c == digit_char((n % 10) as nat));
        if n < 10 {
            assert(old(s)@.push(c) == old(s)@ + decimal_digits(n as nat));
        } else {
            assert((old(s)@ + decimal_digits((n / 10) as nat)).push(c) == old(s)@
                + decimal_digits(n as nat));
        }
    }
}

} // verus!
