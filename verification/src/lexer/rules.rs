//! The lexical grammar, as functions on a sequence of characters and an index.

use crate::lexer::text::{ascii_digit, digit, letter};
use crate::lexer::token::TokenView;
use vstd::prelude::*;

verus! {

/// The character at index `i`, or NUL where the input has ended.
pub open spec fn char_at(s: Seq<char>, i: int) -> char {
    if 0 <= i < s.len() {
        s[i]
    } else {
        '\0'
    }
}

pub open spec fn space(c: char) -> bool {
    c == ' ' || c == '\t' || c == '\n' || c == '\r'
}

/// The first index at or after `i` that holds no white space.
pub open spec fn spaces_end(s: Seq<char>, i: int) -> int
    decreases s.len() - i,
{
    if 0 <= i < s.len() && space(s[i]) {
        spaces_end(s, i + 1)
    } else {
        i
    }
}

/// The first index at or after `i` that cannot continue an identifier.
pub open spec fn letters_end(s: Seq<char>, i: int) -> int
    decreases s.len() - i,
{
    if 0 <= i < s.len() && letter(s[i]) {
        letters_end(s, i + 1)
    } else {
        i
    }
}

/// The first index at or after `i` that cannot continue a run of digits.
pub open spec fn digits_end(s: Seq<char>, i: int) -> int
    decreases s.len() - i,
{
    if 0 <= i < s.len() && digit(s[i]) {
        digits_end(s, i + 1)
    } else {
        i
    }
}

/// The first index at or after `i` that holds a line feed or NUL, or the end.
pub open spec fn line_end(s: Seq<char>, i: int) -> int
    decreases s.len() - i,
{
    if 0 <= i < s.len() && s[i] != '\n' && s[i] != '\0' {
        line_end(s, i + 1)
    } else {
        i
    }
}

/// What a backslash followed by `e` stands for inside quotes. An unknown
/// escape keeps both characters. Template strings also escape braces.
pub open spec fn escape_value(e: char, template: bool) -> Seq<char> {
    if e == 'n' {
        seq!['\n']
    } else if e == 't' {
        seq!['\t']
    } else if e == 'r' {
        seq!['\r']
    } else if e == '"' || e == '\'' || e == '\\' {
        seq![e]
    } else if template && (e == '{' || e == '}') {
        seq![e]
    } else {
        seq!['\\', e]
    }
}

/// The index after a backslash at `i` and the character it escapes.
pub open spec fn after_escape(s: Seq<char>, i: int) -> int {
    if i + 2 <= s.len() {
        i + 2
    } else {
        s.len() as int
    }
}

/// The value of a quoted literal whose body starts at `i`: everything up to
/// the closing `quote`, a NUL or the end of input, with escapes resolved.
pub open spec fn quoted_text(s: Seq<char>, i: int, quote: char, template: bool) -> Seq<char>
    decreases s.len() - i,
{
    if !(0 <= i < s.len()) || s[i] == quote || s[i] == '\0' {
        Seq::empty()
    } else if s[i] == '\\' {
        escape_value(char_at(s, i + 1), template) + quoted_text(
            s,
            after_escape(s, i),
            quote,
            template,
        )
    } else {
        seq![s[i]] + quoted_text(s, i + 1, quote, template)
    }
}

/// The index after the closing `quote` of a literal whose body starts at `i`,
/// or the index of the NUL or end of input that cut it short.
pub open spec fn quoted_end(s: Seq<char>, i: int, quote: char) -> int
    decreases s.len() - i,
{
    if !(0 <= i < s.len()) || s[i] == '\0' {
        i
    } else if s[i] == quote {
        i + 1
    } else if s[i] == '\\' {
        quoted_end(s, after_escape(s, i), quote)
    } else {
        quoted_end(s, i + 1, quote)
    }
}

pub open spec fn digit_value(c: char) -> int {
    c as int - '0' as int
}

/// The number that a run of ASCII digits writes in base ten.
pub open spec fn decimal_value(digits: Seq<char>) -> int
    decreases digits.len(),
{
    if digits.len() == 0 {
        0
    } else {
        10 * decimal_value(digits.drop_last()) + digit_value(digits.last())
    }
}

pub open spec fn all_ascii_digits(digits: Seq<char>) -> bool {
    forall|k: int| 0 <= k < digits.len() ==> ascii_digit(#[trigger] digits[k])
}

/// The value of an integer literal: its decimal value where every character
/// is an ASCII digit and the value fits in 64 bits, else zero.
pub open spec fn integer_value(digits: Seq<char>) -> i64 {
    if all_ascii_digits(digits) && decimal_value(digits) <= i64::MAX {
        decimal_value(digits) as i64
    } else {
        0
    }
}

/// Whether text is written in ASCII digits and points alone.
pub open spec fn plain_decimal(text: Seq<char>) -> bool {
    forall|k: int| 0 <= k < text.len() ==> ascii_digit(#[trigger] text[k]) || text[k] == '.'
}

/// The text that a float literal is held as: the literal as it is written
/// where it is written in ASCII digits, else `0.0`. A number written in
/// other digits reads as zero, as an integer literal does.
pub open spec fn float_text(written: Seq<char>) -> Seq<char> {
    if plain_decimal(written) {
        written
    } else {
        "0.0"@
    }
}

/// The number token that starts at `i`, and the index after it. A dot makes a
/// float only when a digit follows it.
pub open spec fn number_at(s: Seq<char>, i: int) -> (TokenView, int) {
    let e = digits_end(s, i);
    if char_at(s, e) == '.' && digit(char_at(s, e + 1)) {
        let f = digits_end(s, e + 1);
        (TokenView::Float(float_text(s.subrange(i, f))), f)
    } else {
        (TokenView::Integer(integer_value(s.subrange(i, e))), e)
    }
}

/// The token that a word is: a keyword, a constant, or else an identifier.
pub open spec fn word_token(word: Seq<char>) -> TokenView {
    if word == seq!['d', 'e', 'f'] {
        TokenView::Def
    } else if word == seq!['i', 'f'] {
        TokenView::If
    } else if word == seq!['e', 'l', 's', 'e'] {
        TokenView::Else
    } else if word == seq!['w', 'h', 'i', 'l', 'e'] {
        TokenView::While
    } else if word == seq!['r', 'e', 't', 'u', 'r', 'n'] {
        TokenView::Return
    } else if word == seq!['T', 'r', 'u', 'e'] {
        TokenView::Boolean(true)
    } else if word == seq!['F', 'a', 'l', 's', 'e'] {
        TokenView::Boolean(false)
    } else if word == seq!['N', 'o', 'n', 'e'] {
        TokenView::NoneLiteral
    } else if word == seq!['a', 'n', 'd'] {
        TokenView::And
    } else if word == seq!['o', 'r'] {
        TokenView::Or
    } else if word == seq!['n', 'o', 't'] {
        TokenView::Not
    } else {
        TokenView::Identifier(word)
    }
}

pub open spec fn word_start(c: char) -> bool {
    ('a' <= c && c <= 'z') || ('A' <= c && c <= 'Z') || c == '_'
}

/// The token that starts at the first index at or after `pos` that holds no
/// white space, and the index after that token.
pub open spec fn next_token_at(s: Seq<char>, pos: int) -> (TokenView, int) {
    let i = spaces_end(s, pos);
    let c = char_at(s, i);
    let d = char_at(s, i + 1);
    if c == '#' {
        let e = line_end(s, i + 1);
        (TokenView::Comment(s.subrange(i + 1, e)), e)
    } else if c == '=' {
        if d == '=' {
            (TokenView::Equal, i + 2)
        } else {
            (TokenView::Assign, i + 1)
        }
    } else if c == ';' {
        (TokenView::Semicolon, i + 1)
    } else if c == ':' {
        (TokenView::Colon, i + 1)
    } else if c == ',' {
        (TokenView::Comma, i + 1)
    } else if c == '(' {
        (TokenView::LeftParen, i + 1)
    } else if c == ')' {
        (TokenView::RightParen, i + 1)
    } else if c == '{' {
        (TokenView::LeftBrace, i + 1)
    } else if c == '}' {
        (TokenView::RightBrace, i + 1)
    } else if c == '+' {
        (TokenView::Plus, i + 1)
    } else if c == '-' {
        (TokenView::Minus, i + 1)
    } else if c == '!' {
        if d == '=' {
            (TokenView::NotEqual, i + 2)
        } else {
            (TokenView::Not, i + 1)
        }
    } else if c == '/' {
        if d == '/' {
            (TokenView::FloorDivide, i + 2)
        } else {
            (TokenView::Divide, i + 1)
        }
    } else if c == '%' {
        (TokenView::Modulo, i + 1)
    } else if c == '*' {
        if d == '*' {
            (TokenView::Power, i + 2)
        } else {
            (TokenView::Multiply, i + 1)
        }
    } else if c == '<' {
        if d == '=' {
            (TokenView::LessEqual, i + 2)
        } else {
            (TokenView::Less, i + 1)
        }
    } else if c == '>' {
        if d == '=' {
            (TokenView::GreaterEqual, i + 2)
        } else {
            (TokenView::Greater, i + 1)
        }
    } else if c == '"' || c == '\'' {
        (TokenView::String(quoted_text(s, i + 1, c, false)), quoted_end(s, i + 1, c))
    } else if ascii_digit(c) {
        number_at(s, i)
    } else if c == 'f' && (d == '"' || d == '\'') {
        (TokenView::FString(quoted_text(s, i + 2, d, true)), quoted_end(s, i + 2, d))
    } else if word_start(c) {
        let e = letters_end(s, i);
        (word_token(s.subrange(i, e)), e)
    } else if c == '\0' {
        (TokenView::Eof, i)
    } else {
        (TokenView::Illegal(seq![c]), i + 1)
    }
}

/// The tokens from `pos` up to the end of input, without the closing `Eof`.
pub open spec fn tokens_from(s: Seq<char>, pos: int) -> Seq<TokenView>
    decreases s.len() - pos,
{
    let (token, next) = next_token_at(s, pos);
    if 0 <= pos < next <= s.len() && !(token is Eof) {
        seq![token] + tokens_from(s, next)
    } else {
        Seq::empty()
    }
}

/// The tokens of a whole source text.
pub open spec fn tokens_of(s: Seq<char>) -> Seq<TokenView> {
    tokens_from(s, 0)
}

pub proof fn lemma_spaces_end(s: Seq<char>, i: int)
    requires
        0 <= i <= s.len(),
    ensures
        i <= spaces_end(s, i) <= s.len(),
        !space(char_at(s, spaces_end(s, i))),
    decreases s.len() - i,
{
    if i < s.len() && space(s[i]) {
        lemma_spaces_end(s, i + 1);
    }
}

pub proof fn lemma_letters_end(s: Seq<char>, i: int)
    requires
        0 <= i <= s.len(),
    ensures
        i <= letters_end(s, i) <= s.len(),
    decreases s.len() - i,
{
    if i < s.len() && letter(s[i]) {
        lemma_letters_end(s, i + 1);
    }
}

pub proof fn lemma_digits_end(s: Seq<char>, i: int)
    requires
        0 <= i <= s.len(),
    ensures
        i <= digits_end(s, i) <= s.len(),
    decreases s.len() - i,
{
    if i < s.len() && digit(s[i]) {
        lemma_digits_end(s, i + 1);
    }
}

pub proof fn lemma_line_end(s: Seq<char>, i: int)
    requires
        0 <= i <= s.len(),
    ensures
        i <= line_end(s, i) <= s.len(),
    decreases s.len() - i,
{
    if i < s.len() && s[i] != '\n' && s[i] != '\0' {
        lemma_line_end(s, i + 1);
    }
}

pub proof fn lemma_quoted_end(s: Seq<char>, i: int, quote: char)
    requires
        0 <= i <= s.len(),
    ensures
        i <= quoted_end(s, i, quote) <= s.len(),
    decreases s.len() - i,
{
    if i < s.len() && s[i] != '\0' && s[i] != quote {
        if s[i] == '\\' {
            lemma_quoted_end(s, after_escape(s, i), quote);
        } else {
            lemma_quoted_end(s, i + 1, quote);
        }
    }
}

/// Reading a token never moves back and never passes the end. Every token
/// but `Eof` takes at least one character; after `Eof` comes `Eof` again, at
/// the same index.
pub proof fn lemma_token_progress(s: Seq<char>, pos: int)
    requires
        0 <= pos,
    ensures
        pos <= next_token_at(s, pos).1,
        !(next_token_at(s, pos).0 is Eof) ==> pos < next_token_at(s, pos).1 <= s.len(),
        next_token_at(s, pos).0 is Eof ==> next_token_at(s, next_token_at(s, pos).1)
            == next_token_at(s, pos),
{
    if pos <= s.len() {
        lemma_spaces_end(s, pos);
        let i = spaces_end(s, pos);
        let c = char_at(s, i);
        let d = char_at(s, i + 1);
        if c == '\0' {
            assert(spaces_end(s, i) == i);
        } else {
            lemma_line_end(s, i + 1);
            lemma_quoted_end(s, i + 1, c);
            if i + 2 <= s.len() {
                lemma_quoted_end(s, i + 2, d);
            }
            lemma_letters_end(s, i + 1);
            lemma_digits_end(s, i + 1);
            let e = digits_end(s, i);
            if e < s.len() {
                lemma_digits_end(s, e + 1);
            }
        }
    }
}

/// A token stream holds no `Eof`.
pub proof fn lemma_tokens_hold_no_eof(s: Seq<char>, pos: int)
    ensures
        forall|k: int|
            0 <= k < tokens_from(s, pos).len() ==> !(#[trigger] tokens_from(s, pos)[k] is Eof),
    decreases s.len() - pos,
{
    let (token, next) = next_token_at(s, pos);
    if 0 <= pos < next <= s.len() && !(token is Eof) {
        lemma_tokens_hold_no_eof(s, next);
    }
}

} // verus!
