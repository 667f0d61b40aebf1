//! The three families of errors: lexical, syntactic and runtime.

use vstd::prelude::*;
use vstd::string::StringExecFns;
use crate::number::{nat_text, push_nat};

verus! {

/// What the scanner rejects. Each error carries a line and a column.
#[derive(Debug, PartialEq)]
pub enum LexerError {
    InvalidCharacter(char, usize, usize),
    UnterminatedString(usize, usize),
    InvalidNumber(String, usize, usize),
    UnterminatedBlockComment(usize, usize),
}

/// What the parser rejects.
#[derive(Debug, PartialEq, Eq, Clone, Copy, Structural)]
pub enum ParserError {
    UnexpectedToken,
    UnexpectedEOF,
    ExpectedIdentifier,
    ExpectedBlock,
    InvalidExpression,
    InvalidStatement,
}

/// What evaluation rejects.
#[derive(Debug, PartialEq)]
pub enum RuntimeError {
    UndefinedVariable(String),
    DivisionByZero,
    InvalidOperation,
    TypeError(String),
    InvalidArgumentCount { expected: usize, got: usize },
    ReturnValue(Box<RuntimeError>),
    Custom(String),
}

/// The mathematical value of a lexical error.
pub enum LexerErrorModel {
    InvalidCharacter(char, int, int),
    UnterminatedString(int, int),
    InvalidNumber(Seq<char>, int, int),
    UnterminatedBlockComment(int, int),
}

/// The mathematical value of a runtime error.
pub enum RuntimeErrorModel {
    UndefinedVariable(Seq<char>),
    DivisionByZero,
    InvalidOperation,
    TypeError(Seq<char>),
    InvalidArgumentCount { expected: int, got: int },
    ReturnValue(Box<RuntimeErrorModel>),
    Custom(Seq<char>),
}

impl View for LexerError {
    type V = LexerErrorModel;

    open spec fn view(&self) -> LexerErrorModel {
        match self {
            LexerError::InvalidCharacter(c, line, column) => LexerErrorModel::InvalidCharacter(
                *c,
                *line as int,
                *column as int,
            ),
            LexerError::UnterminatedString(line, column) => LexerErrorModel::UnterminatedString(
                *line as int,
                *column as int,
            ),
            LexerError::InvalidNumber(text, line, column) => LexerErrorModel::InvalidNumber(
                text@,
                *line as int,
                *column as int,
            ),
            LexerError::UnterminatedBlockComment(line, column) =>
                LexerErrorModel::UnterminatedBlockComment(*line as int, *column as int),
        }
    }
}

/// The value of a runtime error.
pub open spec fn runtime_error_model(e: RuntimeError) -> RuntimeErrorModel
    decreases e,
{
    match e {
        RuntimeError::UndefinedVariable(name) => RuntimeErrorModel::UndefinedVariable(name@),
        RuntimeError::DivisionByZero => RuntimeErrorModel::DivisionByZero,
        RuntimeError::InvalidOperation => RuntimeErrorModel::InvalidOperation,
        RuntimeError::TypeError(text) => RuntimeErrorModel::TypeError(text@),
        RuntimeError::InvalidArgumentCount { expected, got } =>
            RuntimeErrorModel::InvalidArgumentCount { expected: expected as int, got: got as int },
        RuntimeError::ReturnValue(inner) => RuntimeErrorModel::ReturnValue(
            Box::new(runtime_error_model(*inner)),
        ),
        RuntimeError::Custom(text) => RuntimeErrorModel::Custom(text@),
    }
}

impl View for RuntimeError {
    type V = RuntimeErrorModel;

    open spec fn view(&self) -> RuntimeErrorModel {
        runtime_error_model(*self)
    }
}

/// The message of a lexical error.
pub open spec fn lexer_error_text(e: LexerErrorModel) -> Seq<char> {
    match e {
        LexerErrorModel::InvalidCharacter(c, line, column) => "Invalid character '"@.push(c)
            + "' at line "@ + nat_text(line) + ", column "@ + nat_text(column),
        LexerErrorModel::UnterminatedString(line, column) => "Unterminated string at line "@
            + nat_text(line) + ", column "@ + nat_text(column),
        LexerErrorModel::InvalidNumber(text, line, column) => "Invalid number '"@ + text
            + "' at line "@ + nat_text(line) + ", column "@ + nat_text(column),
        LexerErrorModel::UnterminatedBlockComment(line, column) =>
            "Unterminated block comment starting at line "@ + nat_text(line) + ", column "@
                + nat_text(column),
    }
}

/// The message of a syntax error.
pub open spec fn parser_error_text(e: ParserError) -> Seq<char> {
    match e {
        ParserError::UnexpectedToken => "Unexpected token"@,
        ParserError::UnexpectedEOF => "Unexpected end of file"@,
        ParserError::ExpectedIdentifier => "Expected identifier"@,
        ParserError::ExpectedBlock => "Expected block"@,
        ParserError::InvalidExpression => "Invalid expression"@,
        ParserError::InvalidStatement => "Invalid statement"@,
    }
}

/// The message of a runtime error.
pub open spec fn runtime_error_text(e: RuntimeErrorModel) -> Seq<char>
    decreases e,
{
    match e {
        RuntimeErrorModel::UndefinedVariable(name) => "Undefined variable '"@ + name + "'"@,
        RuntimeErrorModel::DivisionByZero => "Division by zero"@,
        RuntimeErrorModel::InvalidOperation => "Invalid operation"@,
        RuntimeErrorModel::TypeError(text) => "Type error: "@ + text,
        RuntimeErrorModel::InvalidArgumentCount { expected, got } =>
            "Invalid argument count: expected "@ + nat_text(expected) + ", got "@ + nat_text(got),
        RuntimeErrorModel::ReturnValue(inner) => "Return value error: "@ + runtime_error_text(
            *inner,
        ),
        RuntimeErrorModel::Custom(text) => text,
    }
}

/// Appends " at line L, column C" behind `lead`.
fn push_place(s: &mut String, lead: &str, line: usize, column: usize)
    ensures
        final(s)@ == old(s)@ + lead@ + nat_text(line as int) + ", column "@ + nat_text(
            column as int,
        ),
{
    s.append(lead);
    push_nat(s, line as u64);
    s.append(", column ");
    push_nat(s, column as u64);
}

impl LexerError {
    /// The message of the error, as shown to a user.
    pub fn message(&self) -> (s: String)
        ensures
            s@ == lexer_error_text(self@),
    {
        match self {
            LexerError::InvalidCharacter(c, line, column) => {
                let mut s = String::from_str("Invalid character '");
                s.push(*c);
                push_place(&mut s, "' at line ", *line, *column);
                s
            },
            LexerError::UnterminatedString(line, column) => {
                let mut s = String::new();
                push_place(&mut s, "Unterminated string at line ", *line, *column);
                assert(s@ =~= lexer_error_text(self@));
                s
            },
            LexerError::InvalidNumber(text, line, column) => {
                let mut s = String::from_str("Invalid number '");
                s.append(text.as_str());
                push_place(&mut s, "' at line ", *line, *column);
                s
            },
            LexerError::UnterminatedBlockComment(line, column) => {
                let mut s = String::new();
                push_place(
                    &mut s,
                    "Unterminated block comment starting at line ",
                    *line,
                    *column,
                );
                assert(s@ =~= lexer_error_text(self@));
                s
            },
        }
    }
}

impl ParserError {
    /// The message of the error, as shown to a user.
    pub fn message(&self) -> (s: String)
        ensures
            s@ == parser_error_text(*self),
    {
        match self {
            ParserError::UnexpectedToken => String::from_str("Unexpected token"),
            ParserError::UnexpectedEOF => String::from_str("Unexpected end of file"),
            ParserError::ExpectedIdentifier => String::from_str("Expected identifier"),
            ParserError::ExpectedBlock => String::from_str("Expected block"),
            ParserError::InvalidExpression => String::from_str("Invalid expression"),
            ParserError::InvalidStatement => String::from_str("Invalid statement"),
        }
    }
}

impl RuntimeError {
    /// The message of the error, as shown to a user.
    pub fn message(&self) -> (s: String)
        ensures
            s@ == runtime_error_text(self@),
        decreases self,
    {
        match self {
            RuntimeError::UndefinedVariable(name) => {
                let mut s = String::from_str("Undefined variable '");
                s.append(name.as_str());
                s.append("'");
                s
            },
            RuntimeError::DivisionByZero => String::from_str("Division by zero"),
            RuntimeError::InvalidOperation => String::from_str("Invalid operation"),
            RuntimeError::TypeError(text) => {
                let mut s = String::from_str("Type error: ");
                s.append(text.as_str());
                s
            },
            RuntimeError::InvalidArgumentCount { expected, got } => {
                let mut s = String::from_str("Invalid argument count: expected ");
                push_nat(&mut s, *expected as u64);
                s.append(", got ");
                push_nat(&mut s, *got as u64);
                s
            },
            RuntimeError::ReturnValue(inner) => {
                let mut s = String::from_str("Return value error: ");
                let rest = inner.message();
                s.append(rest.as_str());
                s
            },
            RuntimeError::Custom(text) => text.clone(),
        }
    }

    /// A copy of the error.
    pub fn duplicate(&self) -> (r: RuntimeError)
        ensures
            r@ == self@,
        decreases self,
    {
        match self {
            RuntimeError::UndefinedVariable(name) => RuntimeError::UndefinedVariable(name.clone()),
            RuntimeError::DivisionByZero => RuntimeError::DivisionByZero,
            RuntimeError::InvalidOperation => RuntimeError::InvalidOperation,
            RuntimeError::TypeError(text) => RuntimeError::TypeError(text.clone()),
            RuntimeError::InvalidArgumentCount { expected, got } =>
                RuntimeError::InvalidArgumentCount { expected: *expected, got: *got },
            RuntimeError::ReturnValue(inner) => RuntimeError::ReturnValue(
                Box::new(inner.duplicate()),
            ),
            RuntimeError::Custom(text) => RuntimeError::Custom(text.clone()),
        }
    }
}

} // verus!
