//! Tokens.

use vstd::prelude::*;
use crate::span::Span;

verus! {

/// A token. A number holds the bit pattern of a 64-bit IEEE-754 float.
#[derive(Debug, PartialEq, Eq)]
pub enum Token {
    // Not code
    Whitespace(String),
    Comment(String),
    // Keywords
    KwFn,
    KwLet,
    KwIf,
    KwThen,
    KwElse,
    KwFor,
    KwIn,
    KwDo,
    KwOr,
    KwAnd,
    // Data
    Ident(String),
    Number(u64),
    // Brackets
    LParen,
    RParen,
    LBracket,
    RBracket,
    LBrace,
    RBrace,
    // Binary operators
    Plus,
    Minus,
    Asterisk,
    FSlash,
    Eq,
    NotEq,
    GreaterThan,
    GreaterEq,
    LessThan,
    LessEq,
    Range,
    // Unary operators
    Excl,
    // Other operators
    Arrow,
    Assign,
    Colon,
    Comma,
    Pipe,
    Semicolon,
    SingleQuote(String),
    DoubleQuote(String),
    // Block structure, which no source text spells out
    BlockStart,
    BlockEnd,
    BlockCont,
    /// Input that is no token.
    Unknown(String),
}

/// A token and where it was read.
pub type Term = (Span, Token);

/// Model of [`Token`].
pub enum SpecToken {
    Whitespace(Seq<char>),
    Comment(Seq<char>),
    KwFn,
    KwLet,
    KwIf,
    KwThen,
    KwElse,
    KwFor,
    KwIn,
    KwDo,
    KwOr,
    KwAnd,
    Ident(Seq<char>),
    Number(u64),
    LParen,
    RParen,
    LBracket,
    RBracket,
    LBrace,
    RBrace,
    Plus,
    Minus,
    Asterisk,
    FSlash,
    Eq,
    NotEq,
    GreaterThan,
    GreaterEq,
    LessThan,
    LessEq,
    Range,
    Excl,
    Arrow,
    Assign,
    Colon,
    Comma,
    Pipe,
    Semicolon,
    SingleQuote(Seq<char>),
    DoubleQuote(Seq<char>),
    BlockStart,
    BlockEnd,
    BlockCont,
    Unknown(Seq<char>),
}

/// Model of [`Term`].
pub type SpecTerm = (Span, SpecToken);

impl View for Token {
    type V = SpecToken;

    open spec fn view(&self) -> SpecToken {
        match self {
            Token::Whitespace(s) => SpecToken::Whitespace(s@),
            Token::Comment(s) => SpecToken::Comment(s@),
            Token::KwFn => SpecToken::KwFn,
            Token::KwLet => SpecToken::KwLet,
            Token::KwIf => SpecToken::KwIf,
            Token::KwThen => SpecToken::KwThen,
            Token::KwElse => SpecToken::KwElse,
            Token::KwFor => SpecToken::KwFor,
            Token::KwIn => SpecToken::KwIn,
            Token::KwDo => SpecToken::KwDo,
            Token::KwOr => SpecToken::KwOr,
            Token::KwAnd => SpecToken::KwAnd,
            Token::Ident(s) => SpecToken::Ident(s@),
            Token::Number(bits) => SpecToken::Number(*bits),
            Token::LParen => SpecToken::LParen,
            Token::RParen => SpecToken::RParen,
            Token::LBracket => SpecToken::LBracket,
            Token::RBracket => SpecToken::RBracket,
            Token::LBrace => SpecToken::LBrace,
            Token::RBrace => SpecToken::RBrace,
            Token::Plus => SpecToken::Plus,
            Token::Minus => SpecToken::Minus,
            Token::Asterisk => SpecToken::Asterisk,
            Token::FSlash => SpecToken::FSlash,
            Token::Eq => SpecToken::Eq,
            Token::NotEq => SpecToken::NotEq,
            Token::GreaterThan => SpecToken::GreaterThan,
            Token::GreaterEq => SpecToken::GreaterEq,
            Token::LessThan => SpecToken::LessThan,
            Token::LessEq => SpecToken::LessEq,
            Token::Range => SpecToken::Range,
            Token::Excl => SpecToken::Excl,
            Token::Arrow => SpecToken::Arrow,
            Token::Assign => SpecToken::Assign,
            Token::Colon => SpecToken::Colon,
            Token::Comma => SpecToken::Comma,
            Token::Pipe => SpecToken::Pipe,
            Token::Semicolon => SpecToken::Semicolon,
            Token::SingleQuote(s) => SpecToken::SingleQuote(s@),
            Token::DoubleQuote(s) => SpecToken::DoubleQuote(s@),
            Token::BlockStart => SpecToken::BlockStart,
            Token::BlockEnd => SpecToken::BlockEnd,
            Token::BlockCont => SpecToken::BlockCont,
            Token::Unknown(s) => SpecToken::Unknown(s@),
        }
    }
}

/// The model of a token with its span.
pub open spec fn term_view(term: Term) -> SpecTerm {
    (term.0, term.1@)
}

/// The models of a list of tokens.
pub open spec fn terms_view(terms: Seq<Term>) -> Seq<SpecTerm> {
    Seq::new(terms.len(), |i: int| term_view(terms[i]))
}

impl Token {
    /// A copy of this token.
    pub fn duplicate(&self) -> (t: Token)
        ensures
            t@ == self@,
    {
        match self {
            Token::Whitespace(s) => Token::Whitespace(s.clone()),
            Token::Comment(s) => Token::Comment(s.clone()),
            Token::KwFn => Token::KwFn,
            Token::KwLet => Token::KwLet,
            Token::KwIf => Token::KwIf,
            Token::KwThen => Token::KwThen,
            Token::KwElse => Token::KwElse,
            Token::KwFor => Token::KwFor,
            Token::KwIn => Token::KwIn,
            Token::KwDo => Token::KwDo,
            Token::KwOr => Token::KwOr,
            Token::KwAnd => Token::KwAnd,
            Token::Ident(s) => Token::Ident(s.clone()),
            Token::Number(bits) => Token::Number(*bits),
            Token::LParen => Token::LParen,
            Token::RParen => Token::RParen,
            Token::LBracket => Token::LBracket,
            Token::RBracket => Token::RBracket,
            Token::LBrace => Token::LBrace,
            Token::RBrace => Token::RBrace,
            Token::Plus => Token::Plus,
            Token::Minus => Token::Minus,
            Token::Asterisk => Token::Asterisk,
            Token::FSlash => Token::FSlash,
            Token::Eq => Token::Eq,
            Token::NotEq => Token::NotEq,
            Token::GreaterThan => Token::GreaterThan,
            Token::GreaterEq => Token::GreaterEq,
            Token::LessThan => Token::LessThan,
            Token::LessEq => Token::LessEq,
            Token::Range => Token::Range,
            Token::Excl => Token::Excl,
            Token::Arrow => Token::Arrow,
            Token::Assign => Token::Assign,
            Token::Colon => Token::Colon,
            Token::Comma => Token::Comma,
            Token::Pipe => Token::Pipe,
            Token::Semicolon => Token::Semicolon,
            Token::SingleQuote(s) => Token::SingleQuote(s.clone()),
            Token::DoubleQuote(s) => Token::DoubleQuote(s.clone()),
            Token::BlockStart => Token::BlockStart,
            Token::BlockEnd => Token::BlockEnd,
            Token::BlockCont => Token::BlockCont,
            Token::Unknown(s) => Token::Unknown(s.clone()),
        }
    }
}

} // verus!
