//! Character classes and string building blocks that the lexer rests on.

use vstd::prelude::*;
use vstd::std_specs::iter::IteratorSpec;

verus! {

/// Whether Unicode gives the character the `Alphabetic` property.
pub uninterp spec fn unicode_alphabetic(c: char) -> bool;

/// Whether Unicode puts the character in one of the number categories.
pub uninterp spec fn unicode_numeric(c: char) -> bool;

/// `char::is_alphabetic` tests the Unicode `Alphabetic` property. Of the
/// ASCII characters, the letters have it and no other.
pub assume_specification[ char::is_alphabetic ](c: char) -> (b: bool)
    ensures
        b == unicode_alphabetic(c),
        ascii(c) ==> b == ascii_letter(c),
;

/// `char::is_numeric` tests the Unicode number categories `Nd`, `Nl` and `No`.
/// Of the ASCII characters, the digits are in one of them and no other.
pub assume_specification[ char::is_numeric ](c: char) -> (b: bool)
    ensures
        b == unicode_numeric(c),
        ascii(c) ==> b == ascii_digit(c),
;

/// `String::push` appends one character.
pub assume_specification[ std::string::String::push ](s: &mut std::string::String, ch: char)
    ensures
        final(s)@ == old(s)@.push(ch),
;

pub open spec fn ascii(c: char) -> bool {
    c <= '\x7f'
}

pub open spec fn ascii_letter(c: char) -> bool {
    ('a' <= c && c <= 'z') || ('A' <= c && c <= 'Z')
}

pub open spec fn ascii_digit(c: char) -> bool {
    '0' <= c && c <= '9'
}

/// A character that may continue an identifier: a letter, a digit or `_`.
pub open spec fn letter(c: char) -> bool {
    if ascii(c) {
        ascii_letter(c) || ascii_digit(c) || c == '_'
    } else {
        unicode_alphabetic(c) || unicode_numeric(c)
    }
}

/// A character that may continue a number.
pub open spec fn digit(c: char) -> bool {
    if ascii(c) {
        ascii_digit(c)
    } else {
        unicode_numeric(c)
    }
}

pub fn is_letter(ch: char) -> (b: bool)
    ensures
        b == letter(ch),
{
    ch.is_alphabetic() || ch == '_' || ch.is_numeric()
}

pub fn is_digit(ch: char) -> (b: bool)
    ensures
        b == digit(ch),
{
    ch.is_numeric()
}

/// The characters of a string slice, in order.
pub fn chars_of(text: &str) -> (chars: Vec<char>)
    ensures
        chars@ == text@,
{
    let mut chars: Vec<char> = Vec::new();
    let mut rest = text.chars();
    loop
        invariant
            chars@ + rest.remaining() == text@,
            rest.obeys_prophetic_iter_laws(),
            rest.decrease() is Some,
        ensures
            chars@ == text@,
        decreases rest.decrease()->0,
    {
        let ghost before = rest.remaining();
        match rest.next() {
            Some(c) => {
                chars.push(c);
                assert(before == seq![c] + rest.remaining());
            },
            None => {
                assert(before.len() == 0);
                break ;
            },
        }
    }
    chars
}

/// The string made of `chars[from..to]`.
pub fn string_of(chars: &Vec<char>, from: usize, to: usize) -> (text: String)
    requires
        from <= to <= chars@.len(),
    ensures
        text@ == chars@.subrange(from as int, to as int),
{
    let mut text = String::new();
    let mut i: usize = from;
    while i < to
        invariant
            from <= i <= to <= chars@.len(),
            text@ == chars@.subrange(from as int, i as int),
        decreases to - i,
    {
        text.push(chars[i]);
        i += 1;
    }
    text
}

/// The character that writes a digit below ten.
pub open spec fn digit_char(d: nat) -> char {
    (d + 48) as char
}

/// The decimal digits of a number, without leading zeros.
pub open spec fn decimal_digits(n: nat) -> Seq<char>
    decreases n,
{
    if n < 10 {
        seq![digit_char(n)]
    } else {
        decimal_digits(n / 10).push(digit_char(n % 10))
    }
}

/// The decimal digits of a number, as text.
pub fn decimal_text(n: usize) -> (text: String)
    ensures
        text@ == decimal_digits(n as nat),
    decreases n,
{
    if n < 10 {
        let mut text = String::new();
        text.push((n as u8 + 48) as char);
        assert(text@ =~= seq![digit_char(n as nat)]);
        text
    } else {
        let mut text = decimal_text(n / 10);
        text.push(((n % 10) as u8 + 48) as char);
        text
    }
}

} // verus!
