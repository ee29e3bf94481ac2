use crate::lexer::rules::{
    after_escape, all_ascii_digits, char_at, decimal_value, digit_value, digits_end,
    escape_value, float_text, integer_value, letters_end, line_end, next_token_at, number_at,
    plain_decimal, quoted_end, quoted_text, space, spaces_end, word_token,
};
use crate::lexer::text::{ascii_digit, chars_of, is_digit, is_letter, string_of};
use crate::lexer::token::{Token, TokenView};
use vstd::prelude::*;

verus! {

/// A forward-only reader that turns source characters into tokens, one at a
/// time. A NUL character in the input ends it like the end of input does.
pub struct Lexer {
    input: Vec<char>,
    position: usize,
}

/// Every digit adds to a decimal value, so a prefix never exceeds the whole.
proof fn lemma_decimal_prefix(digits: Seq<char>, n: int)
    requires
        all_ascii_digits(digits),
        0 <= n <= digits.len(),
    ensures
        0 <= decimal_value(digits.subrange(0, n)) <= decimal_value(digits),
    decreases digits.len() - n,
{
    if n == digits.len() {
        assert(digits.subrange(0, n) == digits);
        lemma_decimal_nonnegative(digits);
    } else {
        lemma_decimal_prefix(digits, n + 1);
        let longer = digits.subrange(0, n + 1);
        assert(longer.drop_last() == digits.subrange(0, n));
        assert(longer.last() == digits[n]);
        lemma_decimal_nonnegative(digits.subrange(0, n));
    }
}

proof fn lemma_decimal_nonnegative(digits: Seq<char>)
    requires
        all_ascii_digits(digits),
    ensures
        0 <= decimal_value(digits),
    decreases digits.len(),
{
    if digits.len() > 0 {
        lemma_decimal_nonnegative(digits.drop_last());
    }
}

/// The value of the integer literal `chars[from..to]`.
fn parse_integer(chars: &Vec<char>, from: usize, to: usize) -> (value: i64)
    requires
        from <= to <= chars@.len(),
    ensures
        value == integer_value(chars@.subrange(from as int, to as int)),
{
    let ghost digits = chars@.subrange(from as int, to as int);
    let mut value: i64 = 0;
    let mut i: usize = from;
    while i < to
        invariant
            from <= i <= to <= chars@.len(),
            digits == chars@.subrange(from as int, to as int),
            all_ascii_digits(digits.subrange(0, i - from)),
            value == decimal_value(digits.subrange(0, i - from)),
            0 <= value,
        decreases to - i,
    {
        let c = chars[i];
        if !('0' <= c && c <= '9') {
            assert(!ascii_digit(digits[i - from]));
            return 0;
        }
        let d: i64 = (c as u8 - '0' as u8) as i64;
        proof {
            let longer = digits.subrange(0, i - from + 1);
            assert(longer.drop_last() == digits.subrange(0, i - from));
            assert(longer.last() == c);
            assert(d == digit_value(c));
            assert(decimal_value(longer) == 10 * value + d);
            if all_ascii_digits(digits) {
                lemma_decimal_prefix(digits, i - from + 1);
            }
        }
        if value > (i64::MAX - d) / 10 {
            return 0;
        }
        value = 10 * value + d;
        i += 1;
    }
    assert(digits.subrange(0, to - from) == digits);
    value
}

/// The text that the float literal `chars[from..to]` is held as.
fn read_float_text(chars: &Vec<char>, from: usize, to: usize) -> (text: String)
    requires
        from <= to <= chars@.len(),
    ensures
        text@ == float_text(chars@.subrange(from as int, to as int)),
{
    let ghost written = chars@.subrange(from as int, to as int);
    let mut i: usize = from;
    while i < to
        invariant
            from <= i <= to <= chars@.len(),
            written == chars@.subrange(from as int, to as int),
            plain_decimal(written.subrange(0, i - from)),
        decreases to - i,
    {
        let c = chars[i];
        if !(('0' <= c && c <= '9') || c == '.') {
            assert(written[i - from] == c);
            return "0.0".to_owned();
        }
        proof {
            let longer = written.subrange(0, i - from + 1);
            assert forall|k: int| 0 <= k < longer.len() implies ascii_digit(
                #[trigger] longer[k],
            ) || longer[k] == '.' by {
                if k < i - from {
                    assert(written.subrange(0, i - from)[k] == longer[k]);
                }
            }
        }
        i += 1;
    }
    assert(written.subrange(0, to - from) == written);
    string_of(chars, from, to)
}

/// Appends to `text` what a backslash followed by `e` stands for.
fn push_escape(text: &mut String, e: char, template: bool)
    ensures
        final(text)@ == old(text)@ + escape_value(e, template),
{
    if e == 'n' {
        text.push('\n');
    } else if e == 't' {
        text.push('\t');
    } else if e == 'r' {
        text.push('\r');
    } else if e == '"' || e == '\'' || e == '\\' {
        text.push(e);
    } else if template && (e == '{' || e == '}') {
        text.push(e);
    } else {
        text.push('\\');
        text.push(e);
    }
    assert(text@ =~= old(text)@ + escape_value(e, template));
}

/// A word equals a spelled-out sequence exactly when it has its length and
/// its characters.
proof fn lemma_spells2(word: Seq<char>, a: char, b: char)
    ensures
        word == seq![a, b] <==> word.len() == 2 && word[0] == a && word[1] == b,
{
    if word.len() == 2 && word[0] == a && word[1] == b {
        assert(word =~= seq![a, b]);
    }
}

proof fn lemma_spells3(word: Seq<char>, a: char, b: char, c: char)
    ensures
        word == seq![a, b, c] <==> word.len() == 3 && word[0] == a && word[1] == b && word[2]
            == c,
{
    if word.len() == 3 && word[0] == a && word[1] == b && word[2] == c {
        assert(word =~= seq![a, b, c]);
    }
}

proof fn lemma_spells4(word: Seq<char>, a: char, b: char, c: char, d: char)
    ensures
        word == seq![a, b, c, d] <==> word.len() == 4 && word[0] == a && word[1] == b && word[2]
            == c && word[3] == d,
{
    if word.len() == 4 && word[0] == a && word[1] == b && word[2] == c && word[3] == d {
        assert(word =~= seq![a, b, c, d]);
    }
}

proof fn lemma_spells5(word: Seq<char>, a: char, b: char, c: char, d: char, e: char)
    ensures
        word == seq![a, b, c, d, e] <==> word.len() == 5 && word[0] == a && word[1] == b
            && word[2] == c && word[3] == d && word[4] == e,
{
    if word.len() == 5 && word[0] == a && word[1] == b && word[2] == c && word[3] == d
        && word[4] == e {
        assert(word =~= seq![a, b, c, d, e]);
    }
}

proof fn lemma_spells6(word: Seq<char>, a: char, b: char, c: char, d: char, e: char, f: char)
    ensures
        word == seq![a, b, c, d, e, f] <==> word.len() == 6 && word[0] == a && word[1] == b
            && word[2] == c && word[3] == d && word[4] == e && word[5] == f,
{
    if word.len() == 6 && word[0] == a && word[1] == b && word[2] == c && word[3] == d
        && word[4] == e && word[5] == f {
        assert(word =~= seq![a, b, c, d, e, f]);
    }
}

/// The keyword or constant that `chars[from..to]` spells, or an identifier.
fn classify_word(chars: &Vec<char>, from: usize, to: usize) -> (token: Token)
    requires
        from <= to <= chars@.len(),
    ensures
        token@ == word_token(chars@.subrange(from as int, to as int)),
{
    let ghost word = chars@.subrange(from as int, to as int);
    let n = to - from;
    let c0 = if n > 0 { chars[from] } else { '\0' };
    let c1 = if n > 1 { chars[from + 1] } else { '\0' };
    let c2 = if n > 2 { chars[from + 2] } else { '\0' };
    let c3 = if n > 3 { chars[from + 3] } else { '\0' };
    let c4 = if n > 4 { chars[from + 4] } else { '\0' };
    let c5 = if n > 5 { chars[from + 5] } else { '\0' };
    proof {
        lemma_spells2(word, 'i', 'f');
        lemma_spells2(word, 'o', 'r');
        lemma_spells3(word, 'd', 'e', 'f');
        lemma_spells3(word, 'a', 'n', 'd');
        lemma_spells3(word, 'n', 'o', 't');
        lemma_spells4(word, 'e', 'l', 's', 'e');
        lemma_spells4(word, 'T', 'r', 'u', 'e');
        lemma_spells4(word, 'N', 'o', 'n', 'e');
        lemma_spells5(word, 'w', 'h', 'i', 'l', 'e');
        lemma_spells5(word, 'F', 'a', 'l', 's', 'e');
        lemma_spells6(word, 'r', 'e', 't', 'u', 'r', 'n');
    }
    if n == 3 && c0 == 'd' && c1 == 'e' && c2 == 'f' {
        Token::Def
    } else if n == 2 && c0 == 'i' && c1 == 'f' {
        Token::If
    } else if n == 4 && c0 == 'e' && c1 == 'l' && c2 == 's' && c3 == 'e' {
        Token::Else
    } else if n == 5 && c0 == 'w' && c1 == 'h' && c2 == 'i' && c3 == 'l' && c4 == 'e' {
        Token::While
    } else if n == 6 && c0 == 'r' && c1 == 'e' && c2 == 't' && c3 == 'u' && c4 == 'r' && c5
        == 'n' {
        Token::Return
    } else if n == 4 && c0 == 'T' && c1 == 'r' && c2 == 'u' && c3 == 'e' {
        Token::Boolean(true)
    } else if n == 5 && c0 == 'F' && c1 == 'a' && c2 == 'l' && c3 == 's' && c4 == 'e' {
        Token::Boolean(false)
    } else if n == 4 && c0 == 'N' && c1 == 'o' && c2 == 'n' && c3 == 'e' {
        Token::NoneLiteral
    } else if n == 3 && c0 == 'a' && c1 == 'n' && c2 == 'd' {
        Token::And
    } else if n == 2 && c0 == 'o' && c1 == 'r' {
        Token::Or
    } else if n == 3 && c0 == 'n' && c1 == 'o' && c2 == 't' {
        Token::Not
    } else {
        Token::Identifier(string_of(chars, from, to))
    }
}

impl Lexer {
    /// The characters being read.
    pub closed spec fn source(&self) -> Seq<char> {
        self.input@
    }

    /// The index of the next character to read.
    pub closed spec fn offset(&self) -> nat {
        self.position as nat
    }

    /// A lexer at the start of `input`.
    pub fn new(input: &str) -> (lexer: Self)
        ensures
            lexer.source() == input@,
            lexer.offset() == 0,
    {
        Lexer { input: chars_of(input), position: 0 }
    }

    /// The character under the cursor.
    fn ch(&self) -> (c: char)
        ensures
            c == char_at(self.input@, self.position as int),
    {
        if self.position < self.input.len() {
            self.input[self.position]
        } else {
            '\0'
        }
    }

    /// The character after the one under the cursor.
    fn peek_char(&self) -> (c: char)
        ensures
            c == char_at(self.input@, self.position + 1),
    {
        if self.position < self.input.len() && self.position + 1 < self.input.len() {
            self.input[self.position + 1]
        } else {
            '\0'
        }
    }

    /// Moves the cursor one character on, unless the input has ended.
    fn read_char(&mut self)
        ensures
            final(self).input == old(self).input,
            final(self).position == if old(self).position < old(self).input@.len() {
                old(self).position + 1
            } else {
                old(self).position as int
            },
    {
        if self.position < self.input.len() {
            self.position += 1;
        }
    }

    fn skip_whitespace(&mut self)
        ensures
            final(self).input == old(self).input,
            final(self).position == spaces_end(old(self).input@, old(self).position as int),
    {
        while self.position < self.input.len() && (self.input[self.position] == ' '
            || self.input[self.position] == '\t' || self.input[self.position] == '\n'
            || self.input[self.position] == '\r')
            invariant
                self.input == old(self).input,
                spaces_end(self.input@, self.position as int) == spaces_end(
                    old(self).input@,
                    old(self).position as int,
                ),
            decreases self.input@.len() - self.position,
        {
            self.position += 1;
        }
    }

    /// Reads a word and says which token it is.
    fn read_identifier(&mut self) -> (token: Token)
        requires
            old(self).position < old(self).input@.len(),
        ensures
            final(self).input == old(self).input,
            final(self).position == letters_end(old(self).input@, old(self).position as int),
            token@ == word_token(
                old(self).input@.subrange(old(self).position as int, final(self).position as int),
            ),
    {
        let start = self.position;
        while self.position < self.input.len() && is_letter(self.input[self.position])
            invariant
                self.input == old(self).input,
                start <= self.position <= self.input@.len(),
                letters_end(self.input@, self.position as int) == letters_end(
                    self.input@,
                    start as int,
                ),
            decreases self.input@.len() - self.position,
        {
            self.position += 1;
        }
        classify_word(&self.input, start, self.position)
    }

    /// Moves the cursor past a run of digits.
    fn skip_digits(&mut self)
        ensures
            final(self).input == old(self).input,
            final(self).position == digits_end(old(self).input@, old(self).position as int),
            old(self).position <= final(self).position,
            old(self).position <= old(self).input@.len() ==> final(self).position <= old(
                self,
            ).input@.len(),
    {
        while self.position < self.input.len() && is_digit(self.input[self.position])
            invariant
                self.input == old(self).input,
                old(self).position <= self.position,
                old(self).position <= self.input@.len() ==> self.position <= self.input@.len(),
                digits_end(self.input@, self.position as int) == digits_end(
                    old(self).input@,
                    old(self).position as int,
                ),
            decreases self.input@.len() - self.position,
        {
            self.position += 1;
        }
    }

    /// Reads an integer or a float literal that starts under the cursor.
    fn read_number(&mut self) -> (token: Token)
        requires
            old(self).position < old(self).input@.len(),
        ensures
            final(self).input == old(self).input,
            (token@, final(self).position as int) == number_at(
                old(self).input@,
                old(self).position as int,
            ),
    {
        let start = self.position;
        self.skip_digits();
        if self.ch() == '.' && is_digit(self.peek_char()) {
            self.read_char();
            self.skip_digits();
            Token::Float(read_float_text(&self.input, start, self.position))
        } else {
            Token::Integer(parse_integer(&self.input, start, self.position))
        }
    }

    /// Reads the body of a quoted literal and its closing quote.
    fn read_quoted(&mut self, quote: char, template: bool) -> (text: String)
        requires
            quote != '\0',
        ensures
            final(self).input == old(self).input,
            text@ == quoted_text(old(self).input@, old(self).position as int, quote, template),
            final(self).position == quoted_end(
                old(self).input@,
                old(self).position as int,
                quote,
            ),
    {
        let mut text = String::new();
        let ghost s = self.input@;
        let ghost start = self.position as int;
        while self.position < self.input.len() && self.input[self.position] != quote
            && self.input[self.position] != '\0'
            invariant
                self.input == old(self).input,
                s == self.input@,
                start == old(self).position,
                quote != '\0',
                quoted_text(s, start, quote, template) == text@ + quoted_text(
                    s,
                    self.position as int,
                    quote,
                    template,
                ),
                quoted_end(s, start, quote) == quoted_end(s, self.position as int, quote),
            decreases self.input@.len() - self.position,
        {
            let ghost before = text@;
            let ghost i = self.position as int;
            let c = self.input[self.position];
            if c == '\\' {
                self.read_char();
                push_escape(&mut text, self.ch(), template);
                self.read_char();
                assert(self.position == after_escape(s, i));
                assert(text@ + quoted_text(s, self.position as int, quote, template) =~= before
                    + quoted_text(s, i, quote, template));
            } else {
                text.push(c);
                self.read_char();
                assert(text@ + quoted_text(s, self.position as int, quote, template) =~= before
                    + quoted_text(s, i, quote, template));
            }
        }
        if self.ch() == quote {
            self.read_char();
        }
        text
    }

    /// Reads an ordinary string body that ends at `quote`.
    fn read_string(&mut self, quote: char) -> (text: String)
        requires
            quote != '\0',
        ensures
            final(self).input == old(self).input,
            text@ == quoted_text(old(self).input@, old(self).position as int, quote, false),
            final(self).position == quoted_end(
                old(self).input@,
                old(self).position as int,
                quote,
            ),
    {
        self.read_quoted(quote, false)
    }

    /// Reads a template string body that ends at `quote`; `\{` and `\}` stand
    /// for braces.
    fn read_fstring(&mut self, quote: char) -> (text: String)
        requires
            quote != '\0',
        ensures
            final(self).input == old(self).input,
            text@ == quoted_text(old(self).input@, old(self).position as int, quote, true),
            final(self).position == quoted_end(
                old(self).input@,
                old(self).position as int,
                quote,
            ),
    {
        self.read_quoted(quote, true)
    }

    /// Reads a comment from its `#` up to the end of the line.
    fn read_comment(&mut self) -> (token: Token)
        requires
            char_at(old(self).input@, old(self).position as int) == '#',
        ensures
            final(self).input == old(self).input,
            final(self).position == line_end(old(self).input@, old(self).position + 1),
            token@ == TokenView::Comment(
                old(self).input@.subrange(old(self).position + 1, final(self).position as int),
            ),
    {
        self.read_char();
        let start = self.position;
        while self.position < self.input.len() && self.input[self.position] != '\n'
            && self.input[self.position] != '\0'
            invariant
                self.input == old(self).input,
                start == old(self).position + 1,
                start <= self.position <= self.input@.len(),
                line_end(self.input@, self.position as int) == line_end(
                    self.input@,
                    start as int,
                ),
            decreases self.input@.len() - self.position,
        {
            self.position += 1;
        }
        Token::Comment(string_of(&self.input, start, self.position))
    }

    /// Reads a one- or two-character operator: `long` where `second` follows
    /// the character under the cursor, else `short`.
    fn read_operator(&mut self, second: char, long: Token, short: Token) -> (token: Token)
        requires
            second != '\0',
            old(self).position < old(self).input@.len(),
        ensures
            final(self).input == old(self).input,
            char_at(old(self).input@, old(self).position + 1) == second ==> token == long
                && final(self).position == old(self).position + 2,
            char_at(old(self).input@, old(self).position + 1) != second ==> token == short
                && final(self).position == old(self).position + 1,
    {
        if self.peek_char() == second {
            self.read_char();
            self.read_char();
            long
        } else {
            self.read_char();
            short
        }
    }

    /// Reads one character and gives `token`.
    fn read_single(&mut self, token: Token) -> (same: Token)
        requires
            old(self).position < old(self).input@.len(),
        ensures
            final(self).input == old(self).input,
            final(self).position == old(self).position + 1,
            same == token,
    {
        self.read_char();
        token
    }

    /// Skips white space and reads the next token. At the end of input, and
    /// from then on, the token is `Eof`. A character that starts no token
    /// comes back as `Illegal`.
    pub fn next_token(&mut self) -> (token: Token)
        ensures
            final(self).source() == old(self).source(),
            (token@, final(self).offset() as int) == next_token_at(
                old(self).source(),
                old(self).offset() as int,
            ),
    {
        self.skip_whitespace();
        let c = self.ch();
        if c == '\0' {
            return Token::Eof;
        }
        if c == '#' {
            self.read_comment()
        } else if c == '=' {
            self.read_operator('=', Token::Equal, Token::Assign)
        } else if c == ';' {
            self.read_single(Token::Semicolon)
        } else if c == ':' {
            self.read_single(Token::Colon)
        } else if c == ',' {
            self.read_single(Token::Comma)
        } else if c == '(' {
            self.read_single(Token::LeftParen)
        } else if c == ')' {
            self.read_single(Token::RightParen)
        } else if c == '{' {
            self.read_single(Token::LeftBrace)
        } else if c == '}' {
            self.read_single(Token::RightBrace)
        } else if c == '+' {
            self.read_single(Token::Plus)
        } else if c == '-' {
            self.read_single(Token::Minus)
        } else if c == '!' {
            self.read_operator('=', Token::NotEqual, Token::Not)
        } else if c == '/' {
            self.read_operator('/', Token::FloorDivide, Token::Divide)
        } else if c == '%' {
            self.read_single(Token::Modulo)
        } else if c == '*' {
            self.read_operator('*', Token::Power, Token::Multiply)
        } else if c == '<' {
            self.read_operator('=', Token::LessEqual, Token::Less)
        } else if c == '>' {
            self.read_operator('=', Token::GreaterEqual, Token::Greater)
        } else if c == '"' || c == '\'' {
            self.read_char();
            Token::String(self.read_string(c))
        } else if '0' <= c && c <= '9' {
            self.read_number()
        } else if c == 'f' && (self.peek_char() == '"' || self.peek_char() == '\'') {
            self.read_char();
            let quote = self.ch();
            self.read_char();
            Token::FString(self.read_fstring(quote))
        } else if ('a' <= c && c <= 'z') || ('A' <= c && c <= 'Z') || c == '_' {
            self.read_identifier()
        } else {
            self.read_char();
            let mut text = String::new();
            text.push(c);
            assert(text@ =~= seq![c]);
            Token::Illegal(text)
        }
    }
}

} // verus!
