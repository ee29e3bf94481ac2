//! What holds of the lexical grammar for every input.

use crate::lexer::rules::{
    after_escape, all_ascii_digits, char_at, decimal_value, digit_value, digits_end,
    escape_value, integer_value, letters_end, next_token_at, number_at, quoted_end, quoted_text,
    spaces_end, word_token,
};
use crate::lexer::text::{ascii_digit, decimal_digits, digit, digit_char};
use crate::lexer::token::TokenView;
use vstd::prelude::*;

verus! {

/// The decimal digits of a number are ASCII digits, and there is at least
/// one.
pub proof fn lemma_decimal_digits_are_digits(n: nat)
    ensures
        all_ascii_digits(decimal_digits(n)),
        decimal_digits(n).len() > 0,
    decreases n,
{
    if n >= 10 {
        lemma_decimal_digits_are_digits(n / 10);
    }
}

/// The decimal digits of a number write that number.
pub proof fn lemma_decimal_value_of_digits(n: nat)
    ensures
        decimal_value(decimal_digits(n)) == n,
    decreases n,
{
    if n < 10 {
        let s = decimal_digits(n);
        assert(s.drop_last().len() == 0);
        assert(decimal_value(s) == 10 * decimal_value(s.drop_last()) + digit_value(s.last()));
    } else {
        lemma_decimal_value_of_digits(n / 10);
        let s = decimal_digits(n);
        assert(s.drop_last() == decimal_digits(n / 10));
        assert(s.last() == digit_char(n % 10));
    }
}

/// A run of digits ends where the input ends, if only digits follow.
pub proof fn lemma_digits_to_the_end(s: Seq<char>, i: int)
    requires
        0 <= i <= s.len(),
        forall|k: int| i <= k < s.len() ==> digit(#[trigger] s[k]),
    ensures
        digits_end(s, i) == s.len(),
    decreases s.len() - i,
{
    if i < s.len() {
        lemma_digits_to_the_end(s, i + 1);
    }
}

/// An integer literal reads back as the number that was written.
/// Lexing the decimal digits of a number that is not negative gives the
/// integer token of that number and takes all of the digits.
pub proof fn lemma_integer_literal_round_trip(n: i64)
    requires
        0 <= n,
    ensures
        next_token_at(decimal_digits(n as nat), 0) == (
            TokenView::Integer(n),
            decimal_digits(n as nat).len() as int,
        ),
{
    let s = decimal_digits(n as nat);
    lemma_decimal_digits_are_digits(n as nat);
    lemma_decimal_value_of_digits(n as nat);
    assert(ascii_digit(s[0]));
    assert(spaces_end(s, 0) == 0);
    assert forall|k: int| 0 <= k < s.len() implies digit(#[trigger] s[k]) by {
        assert(ascii_digit(s[k]));
    }
    lemma_digits_to_the_end(s, 0);
    assert(s.subrange(0, s.len() as int) == s);
    assert(char_at(s, s.len() as int) == '\0');
    assert(number_at(s, 0) == (TokenView::Integer(integer_value(s)), s.len() as int));
}

/// A float literal is kept as it was written. Lexing digits, a dot and
/// digits gives the float token that holds exactly that text.
pub proof fn lemma_float_literal_round_trip(whole: Seq<char>, fraction: Seq<char>)
    requires
        all_ascii_digits(whole),
        all_ascii_digits(fraction),
        whole.len() > 0,
        fraction.len() > 0,
    ensures
        next_token_at(whole + seq!['.'] + fraction, 0) == (
            TokenView::Float(whole + seq!['.'] + fraction),
            (whole + seq!['.'] + fraction).len() as int,
        ),
{
    let s = whole + seq!['.'] + fraction;
    let dot = whole.len() as int;
    assert(s[0] == whole[0]);
    assert(ascii_digit(s[0]));
    assert(spaces_end(s, 0) == 0);
    assert(s[dot] == '.');
    assert forall|k: int| 0 <= k < dot implies digit(#[trigger] s[k]) by {
        assert(s[k] == whole[k]);
    }
    lemma_digits_stop(s, 0, dot);
    assert forall|k: int| dot + 1 <= k < s.len() implies digit(#[trigger] s[k]) by {
        assert(s[k] == fraction[k - dot - 1]);
    }
    assert(s[dot + 1] == fraction[0]);
    lemma_digits_to_the_end(s, dot + 1);
    assert(s.subrange(0, s.len() as int) == s);
}

/// A run of digits ends at the first character that is no digit.
pub proof fn lemma_digits_stop(s: Seq<char>, i: int, end: int)
    requires
        0 <= i <= end < s.len(),
        forall|k: int| i <= k < end ==> digit(#[trigger] s[k]),
        !digit(s[end]),
    ensures
        digits_end(s, i) == end,
    decreases end - i,
{
    if i < end {
        lemma_digits_stop(s, i + 1, end);
    }
}

/// Whether no character of `s` from index `i` on is a brace.
pub open spec fn no_braces_from(s: Seq<char>, i: int) -> bool {
    forall|k: int| i <= k < s.len() ==> #[trigger] s[k] != '{' && s[k] != '}'
}

/// Without braces a template string reads like an ordinary string. The
/// text of a quoted body that holds no brace is the same whether it is read
/// as a template or not, and it ends at the same place.
pub proof fn lemma_template_without_braces_reads_as_string(s: Seq<char>, i: int, quote: char)
    requires
        0 <= i,
        no_braces_from(s, i),
    ensures
        quoted_text(s, i, quote, true) == quoted_text(s, i, quote, false),
    decreases s.len() - i,
{
    if i < s.len() && s[i] != quote && s[i] != '\0' {
        if s[i] == '\\' {
            if i + 1 < s.len() {
                assert(s[i + 1] != '{' && s[i + 1] != '}');
            }
            assert(escape_value(char_at(s, i + 1), true) == escape_value(
                char_at(s, i + 1),
                false,
            ));
            lemma_template_without_braces_reads_as_string(
                s,
                crate::lexer::rules::after_escape(s, i),
                quote,
            );
        } else {
            lemma_template_without_braces_reads_as_string(s, i + 1, quote);
        }
    }
}

/// How a character is written between double quotes so that it reads
/// back: a line feed, a tab, a carriage return, a double quote and a
/// backslash take a backslash, and so do braces in a template.
pub open spec fn written_char(c: char, template: bool) -> Seq<char> {
    if c == '\n' {
        seq!['\\', 'n']
    } else if c == '\t' {
        seq!['\\', 't']
    } else if c == '\r' {
        seq!['\\', 'r']
    } else if c == '"' || c == '\\' {
        seq!['\\', c]
    } else if template && (c == '{' || c == '}') {
        seq!['\\', c]
    } else {
        seq![c]
    }
}

/// How text is written between double quotes.
pub open spec fn written(text: Seq<char>, template: bool) -> Seq<char>
    decreases text.len(),
{
    if text.len() == 0 {
        Seq::empty()
    } else {
        written_char(text[0], template) + written(text.subrange(1, text.len() as int), template)
    }
}

/// What is written between double quotes reads back as the text, up to the
/// closing quote.
proof fn lemma_written_reads_back(before: Seq<char>, text: Seq<char>, template: bool)
    requires
        forall|k: int| 0 <= k < text.len() ==> #[trigger] text[k] != '\0',
    ensures
        quoted_text(
            before + written(text, template) + seq!['"'],
            before.len() as int,
            '"',
            template,
        ) == text,
        quoted_end(before + written(text, template) + seq!['"'], before.len() as int, '"') == (
        before + written(text, template) + seq!['"']).len(),
    decreases text.len(),
{
    let s = before + written(text, template) + seq!['"'];
    let i = before.len() as int;
    if text.len() == 0 {
        assert(s[i] == '"');
    } else {
        let c = text[0];
        let later = text.subrange(1, text.len() as int);
        let piece = written_char(c, template);
        let further = before + piece;
        assert(s =~= further + written(later, template) + seq!['"']);
        lemma_written_reads_back(further, later, template);
        assert(s[i] == piece[0]);
        if piece.len() == 2 {
            assert(s[i + 1] == piece[1]);
            assert(after_escape(s, i) == i + 2);
            assert(escape_value(piece[1], template) =~= seq![c]);
        }
        assert(seq![c] + later =~= text);
    }
}

/// A string literal reads back as the text that was written. Text
/// without NUL, written between double quotes with its escapes, gives the
/// string token that holds the text; written as a template, with braces
/// escaped as well, it gives the template token that holds the text.
pub proof fn lemma_string_literal_round_trip(text: Seq<char>)
    requires
        forall|k: int| 0 <= k < text.len() ==> #[trigger] text[k] != '\0',
    ensures
        next_token_at(seq!['"'] + written(text, false) + seq!['"'], 0) == (
            TokenView::String(text),
            (seq!['"'] + written(text, false) + seq!['"']).len() as int,
        ),
        next_token_at(seq!['f', '"'] + written(text, true) + seq!['"'], 0) == (
            TokenView::FString(text),
            (seq!['f', '"'] + written(text, true) + seq!['"']).len() as int,
        ),
{
    lemma_written_reads_back(seq!['"'], text, false);
    lemma_written_reads_back(seq!['f', '"'], text, true);
    let plain = seq!['"'] + written(text, false) + seq!['"'];
    let template = seq!['f', '"'] + written(text, true) + seq!['"'];
    assert(plain[0] == '"');
    assert(spaces_end(plain, 0) == 0);
    assert(template[0] == 'f');
    assert(template[1] == '"');
    assert(spaces_end(template, 0) == 0);
}

/// The constants read back. The words `True`, `False` and `None` give
/// the boolean and the none tokens.
pub proof fn lemma_constant_words_round_trip()
    ensures
        next_token_at(seq!['T', 'r', 'u', 'e'], 0) == (TokenView::Boolean(true), 4int),
        next_token_at(seq!['F', 'a', 'l', 's', 'e'], 0) == (TokenView::Boolean(false), 5int),
        next_token_at(seq!['N', 'o', 'n', 'e'], 0) == (TokenView::NoneLiteral, 4int),
{
    reveal_with_fuel(letters_end, 6);
    let yes = seq!['T', 'r', 'u', 'e'];
    let no = seq!['F', 'a', 'l', 's', 'e'];
    let none = seq!['N', 'o', 'n', 'e'];
    assert(spaces_end(yes, 0) == 0);
    assert(spaces_end(no, 0) == 0);
    assert(spaces_end(none, 0) == 0);
    assert(letters_end(yes, 0) == 4);
    assert(letters_end(no, 0) == 5);
    assert(letters_end(none, 0) == 4);
    assert(yes.subrange(0, 4) =~= yes);
    assert(no.subrange(0, 5) =~= no);
    assert(none.subrange(0, 4) =~= none);
    assert(word_token(yes) == TokenView::Boolean(true)) by {
        assert(yes.len() == 4 && yes[0] == 'T');
    }
    assert(word_token(no) == TokenView::Boolean(false)) by {
        assert(no.len() == 5 && no[0] == 'F');
    }
    assert(word_token(none) == TokenView::NoneLiteral) by {
        assert(none.len() == 4 && none[0] == 'N');
    }
}

} // verus!
