//! Tokens and source positions.

use vstd::prelude::*;
use crate::number::Number;

verus! {

/// A lexical unit of the language.
#[derive(Debug, PartialEq)]
pub enum Token {
    Var,
    Fn,
    If,
    Else,
    While,
    For,
    Switch,
    Case,
    Default,
    Out,
    Return,
    True,
    False,
    Identifier(String),
    Number(Number),
    String(String),
    Plus,
    Minus,
    Multiply,
    Divide,
    Assign,
    Equals,
    NotEquals,
    Greater,
    Less,
    GreaterEquals,
    LessEquals,
    And,
    Or,
    Not,
    LeftParen,
    RightParen,
    LeftBrace,
    RightBrace,
    Comma,
    Semicolon,
    Colon,
    EOF,
}

/// The mathematical value of a token.
pub enum TokenModel {
    Var,
    Fn,
    If,
    Else,
    While,
    For,
    Switch,
    Case,
    Default,
    Out,
    Return,
    True,
    False,
    Identifier(Seq<char>),
    Number(Number),
    String(Seq<char>),
    Plus,
    Minus,
    Multiply,
    Divide,
    Assign,
    Equals,
    NotEquals,
    Greater,
    Less,
    GreaterEquals,
    LessEquals,
    And,
    Or,
    Not,
    LeftParen,
    RightParen,
    LeftBrace,
    RightBrace,
    Comma,
    Semicolon,
    Colon,
    EOF,
}

impl View for Token {
    type V = TokenModel;

    open spec fn view(&self) -> TokenModel {
        match self {
            Token::Var => TokenModel::Var,
            Token::Fn => TokenModel::Fn,
            Token::If => TokenModel::If,
            Token::Else => TokenModel::Else,
            Token::While => TokenModel::While,
            Token::For => TokenModel::For,
            Token::Switch => TokenModel::Switch,
            Token::Case => TokenModel::Case,
            Token::Default => TokenModel::Default,
            Token::Out => TokenModel::Out,
            Token::Return => TokenModel::Return,
            Token::True => TokenModel::True,
            Token::False => TokenModel::False,
            Token::Identifier(name) => TokenModel::Identifier(name@),
            Token::Number(n) => TokenModel::Number(*n),
            Token::String(s) => TokenModel::String(s@),
            Token::Plus => TokenModel::Plus,
            Token::Minus => TokenModel::Minus,
            Token::Multiply => TokenModel::Multiply,
            Token::Divide => TokenModel::Divide,
            Token::Assign => TokenModel::Assign,
            Token::Equals => TokenModel::Equals,
            Token::NotEquals => TokenModel::NotEquals,
            Token::Greater => TokenModel::Greater,
            Token::Less => TokenModel::Less,
            Token::GreaterEquals => TokenModel::GreaterEquals,
            Token::LessEquals => TokenModel::LessEquals,
            Token::And => TokenModel::And,
            Token::Or => TokenModel::Or,
            Token::Not => TokenModel::Not,
            Token::LeftParen => TokenModel::LeftParen,
            Token::RightParen => TokenModel::RightParen,
            Token::LeftBrace => TokenModel::LeftBrace,
            Token::RightBrace => TokenModel::RightBrace,
            Token::Comma => TokenModel::Comma,
            Token::Semicolon => TokenModel::Semicolon,
            Token::Colon => TokenModel::Colon,
            Token::EOF => TokenModel::EOF,
        }
    }
}

/// A place in the source text. Lines count from one; the column of the first
/// character of a line is one, and that of a line break is zero.
#[derive(Debug, Clone, Copy, PartialEq, Eq, Structural)]
pub struct Position {
    pub line: usize,
    pub column: usize,
}

/// A token together with the place where it starts.
#[derive(Debug, PartialEq)]
pub struct TokenWithPosition {
    pub token: Token,
    pub position: Position,
}

impl Clone for Token {
    fn clone(&self) -> (r: Self)
        ensures
            r@ == self@,
    {
        match self {
            Token::Identifier(name) => Token::Identifier(name.clone()),
            Token::Number(n) => Token::Number(*n),
            Token::String(s) => Token::String(s.clone()),
            Token::Var => Token::Var,
            Token::Fn => Token::Fn,
            Token::If => Token::If,
            Token::Else => Token::Else,
            Token::While => Token::While,
            Token::For => Token::For,
            Token::Switch => Token::Switch,
            Token::Case => Token::Case,
            Token::Default => Token::Default,
            Token::Out => Token::Out,
            Token::Return => Token::Return,
            Token::True => Token::True,
            Token::False => Token::False,
            Token::Plus => Token::Plus,
            Token::Minus => Token::Minus,
            Token::Multiply => Token::Multiply,
            Token::Divide => Token::Divide,
            Token::Assign => Token::Assign,
            Token::Equals => Token::Equals,
            Token::NotEquals => Token::NotEquals,
            Token::Greater => Token::Greater,
            Token::Less => Token::Less,
            Token::GreaterEquals => Token::GreaterEquals,
            Token::LessEquals => Token::LessEquals,
            Token::And => Token::And,
            Token::Or => Token::Or,
            Token::Not => Token::Not,
            Token::LeftParen => Token::LeftParen,
            Token::RightParen => Token::RightParen,
            Token::LeftBrace => Token::LeftBrace,
            Token::RightBrace => Token::RightBrace,
            Token::Comma => Token::Comma,
            Token::Semicolon => Token::Semicolon,
            Token::Colon => Token::Colon,
            Token::EOF => Token::EOF,
        }
    }
}

impl Clone for TokenWithPosition {
    fn clone(&self) -> (r: Self)
        ensures
            r.token@ == self.token@,
            r.position == self.position,
    {
        TokenWithPosition { token: self.token.clone(), position: self.position }
    }
}

} // verus!
