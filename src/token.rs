//! Tokens, their mathematical view, and the binary operators.
use vstd::prelude::*;

verus! {

/// One lexical unit of the source text.
#[derive(Debug, Clone, PartialEq)]
pub enum Token {
    Number(i64),
    Ident(String),
    Plus,
    Minus,
    Asterisk,
    Slash,
    LParen,
    RParen,
    GreaterThan,
    LessThan,
    If,
    Then,
    Else,
    Print,
    SemiColon,
    LBrace,
    RBrace,
    While,
    Assign,
    EOF,
}

/// The view of a token: an identifier's name is a sequence of characters.
pub enum SpecToken {
    Number(i64),
    Ident(Seq<char>),
    Plus,
    Minus,
    Asterisk,
    Slash,
    LParen,
    RParen,
    GreaterThan,
    LessThan,
    If,
    Then,
    Else,
    Print,
    SemiColon,
    LBrace,
    RBrace,
    While,
    Assign,
    EOF,
}

impl View for Token {
    type V = SpecToken;

    open spec fn view(&self) -> SpecToken {
        match self {
            Token::Number(n) => SpecToken::Number(*n),
            Token::Ident(s) => SpecToken::Ident(s@),
            Token::Plus => SpecToken::Plus,
            Token::Minus => SpecToken::Minus,
            Token::Asterisk => SpecToken::Asterisk,
            Token::Slash => SpecToken::Slash,
            Token::LParen => SpecToken::LParen,
            Token::RParen => SpecToken::RParen,
            Token::GreaterThan => SpecToken::GreaterThan,
            Token::LessThan => SpecToken::LessThan,
            Token::If => SpecToken::If,
            Token::Then => SpecToken::Then,
            Token::Else => SpecToken::Else,
            Token::Print => SpecToken::Print,
            Token::SemiColon => SpecToken::SemiColon,
            Token::LBrace => SpecToken::LBrace,
            Token::RBrace => SpecToken::RBrace,
            Token::While => SpecToken::While,
            Token::Assign => SpecToken::Assign,
            Token::EOF => SpecToken::EOF,
        }
    }
}

/// A binary operator of the language.
#[derive(Clone, Copy, Debug, PartialEq, Eq, Structural)]
pub enum Op {
    Add,
    Sub,
    Mul,
    Div,
    Gt,
    Lt,
}

/// The operator a token stands for, if it is one of `+ - * / > <`.
pub open spec fn spec_into_op(t: SpecToken) -> Option<Op> {
    match t {
        SpecToken::Plus => Some(Op::Add),
        SpecToken::Minus => Some(Op::Sub),
        SpecToken::Asterisk => Some(Op::Mul),
        SpecToken::Slash => Some(Op::Div),
        SpecToken::GreaterThan => Some(Op::Gt),
        SpecToken::LessThan => Some(Op::Lt),
        _ => None,
    }
}

impl Token {
    /// The operator this token stands for, if any.
    pub fn into_op(&self) -> (r: Option<Op>)
        ensures
            r == spec_into_op(self@),
    {
        match self {
            Token::Plus => Some(Op::Add),
            Token::Minus => Some(Op::Sub),
            Token::Asterisk => Some(Op::Mul),
            Token::Slash => Some(Op::Div),
            Token::GreaterThan => Some(Op::Gt),
            Token::LessThan => Some(Op::Lt),
            _ => None,
        }
    }

    /// Whether two tokens are the same, payload included.
    pub fn same_as(&self, other: &Token) -> (r: bool)
        ensures
            r == (self@ == other@),
    {
        match (self, other) {
            (Token::Number(a), Token::Number(b)) => *a == *b,
            (Token::Ident(a), Token::Ident(b)) => a.eq(b),
            (Token::Plus, Token::Plus) => true,
            (Token::Minus, Token::Minus) => true,
            (Token::Asterisk, Token::Asterisk) => true,
            (Token::Slash, Token::Slash) => true,
            (Token::LParen, Token::LParen) => true,
            (Token::RParen, Token::RParen) => true,
            (Token::GreaterThan, Token::GreaterThan) => true,
            (Token::LessThan, Token::LessThan) => true,
            (Token::If, Token::If) => true,
            (Token::Then, Token::Then) => true,
            (Token::Else, Token::Else) => true,
            (Token::Print, Token::Print) => true,
            (Token::SemiColon, Token::SemiColon) => true,
            (Token::LBrace, Token::LBrace) => true,
            (Token::RBrace, Token::RBrace) => true,
            (Token::While, Token::While) => true,
            (Token::Assign, Token::Assign) => true,
            (Token::EOF, Token::EOF) => true,
            _ => false,
        }
    }
}

} // verus!
