//! The whole path from a source text to its outcome.

use vstd::prelude::*;
use vstd::string::StringExecFns;
use crate::ast::names_model;
use crate::error::{
    lexer_error_text, parser_error_text, runtime_error_text, LexerError, LexerErrorModel,
    ParserError, RuntimeError, RuntimeErrorModel,
};
use crate::grammar::{head, parse_statements, tokens_from, Tokens};
use crate::lexer::{first_lexical_error, scan_failure};
use crate::interpreter::{accepts, Interpreter, UNBOUNDED};
use crate::parser::Parser;
use crate::semantics::{initial_state, run_program};

verus! {

/// Why a source text did not run to its end.
#[derive(Debug, PartialEq)]
pub enum Failure {
    /// The text could not be scanned: the parser came to a place where a
    /// lexical error cuts the tokens short. The error is the first one of the
    /// text, with its line and column.
    Scan(LexerError),
    /// The text could not be parsed.
    Parse(ParserError),
    /// Evaluation met an error.
    Runtime(RuntimeError),
}

/// The mathematical value of a failure.
pub enum FailureModel {
    Scan(LexerErrorModel),
    Parse(ParserError),
    Runtime(RuntimeErrorModel),
}

impl View for Failure {
    type V = FailureModel;

    open spec fn view(&self) -> FailureModel {
        match self {
            Failure::Scan(e) => FailureModel::Scan(e@),
            Failure::Parse(e) => FailureModel::Parse(*e),
            Failure::Runtime(e) => FailureModel::Runtime(e@),
        }
    }
}

/// The message of a failure: whether the text or its run failed, and why.
pub open spec fn failure_text(f: FailureModel) -> Seq<char> {
    match f {
        FailureModel::Scan(e) => "Parse Error: "@ + lexer_error_text(e),
        FailureModel::Parse(e) => "Parse Error: "@ + parser_error_text(e),
        FailureModel::Runtime(e) => "Runtime Error: "@ + runtime_error_text(e),
    }
}

impl Failure {
    /// The message of the failure, as shown to a user.
    pub fn message(&self) -> (s: String)
        ensures
            s@ == failure_text(self@),
    {
        match self {
            Failure::Scan(e) => {
                let mut s = String::from_str("Parse Error: ");
                let text = e.message();
                s.append(text.as_str());
                s
            },
            Failure::Parse(e) => {
                let mut s = String::from_str("Parse Error: ");
                let text = e.message();
                s.append(text.as_str());
                s
            },
            Failure::Runtime(e) => {
                let mut s = String::from_str("Runtime Error: ");
                let text = e.message();
                s.append(text.as_str());
                s
            },
        }
    }
}

/// What running a source text gave: the lines that `out` wrote, in order,
/// and whether the run reached its end.
#[derive(Debug)]
pub struct Execution {
    pub output: Vec<String>,
    pub result: Result<(), Failure>,
}

/// Why a text fails before it runs: where the parser stopped at a lexical
/// error, that error; else the syntax error.
pub open spec fn text_failure(code: Seq<char>, e: ParserError, rest: Tokens) -> FailureModel {
    match (head(rest), scan_failure(code, 0)) {
        (None, Some(lexical)) => FailureModel::Scan(lexical),
        _ => FailureModel::Parse(e),
    }
}

/// The outcome that a source text must have: a failure of the text and no
/// output, or the output of its run together with the runtime error, if any.
pub open spec fn expected_execution(code: Seq<char>) -> (Seq<Seq<char>>, Result<(), FailureModel>) {
    let parsed = parse_statements(tokens_from(code, 0), Seq::empty());
    match parsed.result {
        Err(e) => (Seq::empty(), Err(text_failure(code, e, parsed.rest))),
        Ok(program) => {
            let ran = run_program(UNBOUNDED as nat, program, initial_state());
            (
                ran.state.output,
                match ran.result {
                    Ok(_) => Ok(()),
                    Err(e) => Err(FailureModel::Runtime(e)),
                },
            )
        },
    }
}

/// The message that reports a run without failure.
pub fn success_message() -> (s: String)
    ensures
        s@ == "Code successfully executed."@,
{
    String::from_str("Code successfully executed.")
}

/// Parses and runs `code` in a fresh evaluator. Nothing runs where the text
/// does not scan or does not parse; where evaluation fails, the lines written before the
/// failure are still there.
pub fn execute(code: &str) -> (execution: Execution)
    requires
        code@.len() < usize::MAX,
    ensures
        names_model(execution.output@) == expected_execution(code@).0,
        match execution.result {
            Ok(()) => expected_execution(code@).1 == Ok::<(), FailureModel>(()),
            Err(f) => expected_execution(code@).1 == Err::<(), FailureModel>(f@),
        },
{
    let quiet = |line: String| {};
    run(code, &quiet, false)
}

/// Parses and runs `code` as `execute` does, and hands each line to
/// `callback` at the moment `out` writes it.
pub fn execute_code<F: Fn(String)>(code: &str, callback: &F) -> (execution: Execution)
    requires
        code@.len() < usize::MAX,
        accepts(callback),
    ensures
        names_model(execution.output@) == expected_execution(code@).0,
        match execution.result {
            Ok(()) => expected_execution(code@).1 == Ok::<(), FailureModel>(()),
            Err(f) => expected_execution(code@).1 == Err::<(), FailureModel>(f@),
        },
{
    run(code, callback, true)
}

/// Parses and runs `code`; with `stream`, lines go to `sink` as they are
/// written.
fn run<F: Fn(String)>(code: &str, sink: &F, stream: bool) -> (execution: Execution)
    requires
        code@.len() < usize::MAX,
        stream ==> accepts(sink),
    ensures
        names_model(execution.output@) == expected_execution(code@).0,
        match execution.result {
            Ok(()) => expected_execution(code@).1 == Ok::<(), FailureModel>(()),
            Err(f) => expected_execution(code@).1 == Err::<(), FailureModel>(f@),
        },
{
    let mut parser = Parser::new(code);
    let statements = match parser.parse_program() {
        Ok(statements) => statements,
        Err(e) => {
            let output: Vec<String> = Vec::new();
            assert(names_model(output@) =~= Seq::empty());
            let failure = if parser.cut_short() {
                match first_lexical_error(code) {
                    Some(lexical) => Failure::Scan(lexical),
                    None => Failure::Parse(e),
                }
            } else {
                Failure::Parse(e)
            };
            return Execution { output, result: Err(failure) };
        },
    };
    let mut interpreter = Interpreter::new();
    let result = if stream {
        interpreter.interpret_with(statements, sink)
    } else {
        interpreter.interpret(statements)
    };
    let output = interpreter.take_output();
    match result {
        Ok(_) => Execution { output, result: Ok(()) },
        Err(e) => Execution { output, result: Err(Failure::Runtime(e)) },
    }
}

/// The sum of two integers that has room in an `i32`.
pub fn add_numbers(a: i32, b: i32) -> (sum: i32)
    requires
        i32::MIN <= a + b <= i32::MAX,
    ensures
        sum == a + b,
{
    a + b
}

} // verus!
