//! Tokens and lexical errors.

use vstd::prelude::*;

use crate::classify::is_symbol_char;

verus! {

/// An atomic lexical unit: a keyword, an identifier, an integer literal or
/// a punctuation character.
#[derive(Debug, PartialEq, Eq)]
pub enum Token {
    // Keywords
    Int,
    Return,
    Identifier(String),
    // Symbols
    OpenParen,
    CloseParen,
    OpenBrace,
    CloseBrace,
    Semicolon,
    // Literals
    IntLiteral(String),
}

/// A lexical failure, returned from `Lexer::next` when the input cannot be
/// classified into any token category.
#[derive(Debug, PartialEq, Eq)]
pub enum LexError {
    /// A character that is not whitespace, not punctuation, not
    /// alphabetic or `_`, and not a decimal digit, found where a token
    /// would have to begin; carries the character and its position, in
    /// characters from the start of the source.
    UnrecognizedCharacter(char, usize),
}

/// The span of source text a token stands for.
pub open spec fn token_text(t: Token) -> Seq<char> {
    match t {
        Token::Int => "int"@,
        Token::Return => "return"@,
        Token::Identifier(name) => name@,
        Token::OpenParen => "("@,
        Token::CloseParen => ")"@,
        Token::OpenBrace => "{"@,
        Token::CloseBrace => "}"@,
        Token::Semicolon => ";"@,
        Token::IntLiteral(digits) => digits@,
    }
}

/// The token an identifier-or-keyword run of text `text` produces: a
/// keyword exactly when the whole text equals a keyword's spelling, and an
/// identifier carrying the text otherwise.
pub open spec fn is_word_token(text: Seq<char>, t: Token) -> bool {
    if text == "int"@ {
        t == Token::Int
    } else if text == "return"@ {
        t == Token::Return
    } else {
        t matches Token::Identifier(name) && name@ == text
    }
}

/// The token a punctuation character produces.
pub open spec fn symbol_token(c: char) -> Token
    recommends
        is_symbol_char(c),
{
    if c == '{' {
        Token::OpenBrace
    } else if c == '}' {
        Token::CloseBrace
    } else if c == '(' {
        Token::OpenParen
    } else if c == ')' {
        Token::CloseParen
    } else {
        Token::Semicolon
    }
}

} // verus!
