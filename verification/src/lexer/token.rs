use vstd::prelude::*;

verus! {

/// One lexical unit of the source language.
#[derive(Debug, Clone, PartialEq)]
pub enum Token {
    /// A decimal integer literal.
    Integer(i64),
    /// A decimal literal with a fraction part, kept exactly as written.
    Float(String),
    /// A quoted string with its escapes resolved.
    String(String),
    /// The body of a template string, escapes resolved, braces kept.
    FString(String),
    Boolean(bool),
    NoneLiteral,
    Identifier(String),
    /// The text after `#`, up to the end of the line.
    Comment(String),
    Def,
    If,
    Else,
    While,
    Return,
    Plus,
    Minus,
    Multiply,
    Divide,
    FloorDivide,
    Modulo,
    Power,
    Assign,
    Equal,
    NotEqual,
    Less,
    Greater,
    LessEqual,
    GreaterEqual,
    And,
    Or,
    Not,
    LeftParen,
    RightParen,
    LeftBrace,
    RightBrace,
    Comma,
    Colon,
    Semicolon,
    /// No input is left.
    Eof,
    /// A character that starts no token.
    Illegal(String),
}

/// The mathematical value of a [`Token`]: text is a sequence of characters.
pub enum TokenView {
    Integer(i64),
    Float(Seq<char>),
    String(Seq<char>),
    FString(Seq<char>),
    Boolean(bool),
    NoneLiteral,
    Identifier(Seq<char>),
    Comment(Seq<char>),
    Def,
    If,
    Else,
    While,
    Return,
    Plus,
    Minus,
    Multiply,
    Divide,
    FloorDivide,
    Modulo,
    Power,
    Assign,
    Equal,
    NotEqual,
    Less,
    Greater,
    LessEqual,
    GreaterEqual,
    And,
    Or,
    Not,
    LeftParen,
    RightParen,
    LeftBrace,
    RightBrace,
    Comma,
    Colon,
    Semicolon,
    Eof,
    Illegal(Seq<char>),
}

impl View for Token {
    type V = TokenView;

    open spec fn view(&self) -> TokenView {
        match self {
            Token::Integer(v) => TokenView::Integer(*v),
            Token::Float(t) => TokenView::Float(t@),
            Token::String(t) => TokenView::String(t@),
            Token::FString(t) => TokenView::FString(t@),
            Token::Boolean(b) => TokenView::Boolean(*b),
            Token::NoneLiteral => TokenView::NoneLiteral,
            Token::Identifier(t) => TokenView::Identifier(t@),
            Token::Comment(t) => TokenView::Comment(t@),
            Token::Def => TokenView::Def,
            Token::If => TokenView::If,
            Token::Else => TokenView::Else,
            Token::While => TokenView::While,
            Token::Return => TokenView::Return,
            Token::Plus => TokenView::Plus,
            Token::Minus => TokenView::Minus,
            Token::Multiply => TokenView::Multiply,
            Token::Divide => TokenView::Divide,
            Token::FloorDivide => TokenView::FloorDivide,
            Token::Modulo => TokenView::Modulo,
            Token::Power => TokenView::Power,
            Token::Assign => TokenView::Assign,
            Token::Equal => TokenView::Equal,
            Token::NotEqual => TokenView::NotEqual,
            Token::Less => TokenView::Less,
            Token::Greater => TokenView::Greater,
            Token::LessEqual => TokenView::LessEqual,
            Token::GreaterEqual => TokenView::GreaterEqual,
            Token::And => TokenView::And,
            Token::Or => TokenView::Or,
            Token::Not => TokenView::Not,
            Token::LeftParen => TokenView::LeftParen,
            Token::RightParen => TokenView::RightParen,
            Token::LeftBrace => TokenView::LeftBrace,
            Token::RightBrace => TokenView::RightBrace,
            Token::Comma => TokenView::Comma,
            Token::Colon => TokenView::Colon,
            Token::Semicolon => TokenView::Semicolon,
            Token::Eof => TokenView::Eof,
            Token::Illegal(t) => TokenView::Illegal(t@),
        }
    }
}

} // verus!
