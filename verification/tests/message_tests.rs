use minilang::engine::{add_numbers, execute, execute_code, success_message, Failure};
use std::cell::RefCell;
use minilang::error::{LexerError, ParserError, RuntimeError};
use minilang::value::operator_text;
use minilang::ast::BinaryOperator;

#[test]
fn lexical_messages() {
    assert_eq!(
        LexerError::InvalidCharacter('@', 3, 14).message(),
        "Invalid character '@' at line 3, column 14"
    );
    assert_eq!(
        LexerError::UnterminatedString(1, 0).message(),
        "Unterminated string at line 1, column 0"
    );
    assert_eq!(
        LexerError::InvalidNumber("42.42".to_string(), 120, 7).message(),
        "Invalid number '42.42' at line 120, column 7"
    );
    assert_eq!(
        LexerError::UnterminatedBlockComment(10, 1000).message(),
        "Unterminated block comment starting at line 10, column 1000"
    );
    assert_eq!(
        LexerError::UnterminatedString(usize::MAX, 9).message(),
        format!("Unterminated string at line {}, column 9", usize::MAX)
    );
}

#[test]
fn syntax_messages() {
    assert_eq!(ParserError::UnexpectedToken.message(), "Unexpected token");
    assert_eq!(ParserError::UnexpectedEOF.message(), "Unexpected end of file");
    assert_eq!(ParserError::ExpectedIdentifier.message(), "Expected identifier");
    assert_eq!(ParserError::ExpectedBlock.message(), "Expected block");
    assert_eq!(ParserError::InvalidExpression.message(), "Invalid expression");
    assert_eq!(ParserError::InvalidStatement.message(), "Invalid statement");
}

#[test]
fn runtime_messages() {
    assert_eq!(
        RuntimeError::UndefinedVariable("y".to_string()).message(),
        "Undefined variable 'y'"
    );
    assert_eq!(RuntimeError::DivisionByZero.message(), "Division by zero");
    assert_eq!(RuntimeError::InvalidOperation.message(), "Invalid operation");
    assert_eq!(RuntimeError::TypeError("bad".to_string()).message(), "Type error: bad");
    assert_eq!(
        RuntimeError::InvalidArgumentCount { expected: 2, got: 10 }.message(),
        "Invalid argument count: expected 2, got 10"
    );
    assert_eq!(
        RuntimeError::ReturnValue(Box::new(RuntimeError::ReturnValue(Box::new(
            RuntimeError::DivisionByZero
        ))))
        .message(),
        "Return value error: Return value error: Division by zero"
    );
    assert_eq!(RuntimeError::Custom("as it is".to_string()).message(), "as it is");
}

#[test]
fn copies_of_runtime_errors() {
    let list = vec![
        RuntimeError::UndefinedVariable("y".to_string()),
        RuntimeError::DivisionByZero,
        RuntimeError::InvalidOperation,
        RuntimeError::TypeError("t".to_string()),
        RuntimeError::InvalidArgumentCount { expected: 1, got: 2 },
        RuntimeError::ReturnValue(Box::new(RuntimeError::Custom("c".to_string()))),
        RuntimeError::Custom("c".to_string()),
    ];
    for e in &list {
        assert_eq!(&e.duplicate(), e);
    }
}

#[test]
fn operator_names() {
    assert_eq!(operator_text(BinaryOperator::Add), "Add");
    assert_eq!(operator_text(BinaryOperator::GreaterEqual), "GreaterEqual");
    assert_eq!(operator_text(BinaryOperator::NotEqual), "NotEqual");
    assert_eq!(operator_text(BinaryOperator::Assign), "Assign");
}

#[test]
fn a_program_that_runs() {
    let execution = execute("var x = 1; x = x + 1;");
    assert_eq!(execution.result, Ok(()));
    assert!(execution.output.is_empty());
    assert_eq!(success_message(), "Code successfully executed.");
}

#[test]
fn a_program_that_does_not_parse() {
    let execution = execute("var 42;");
    assert_eq!(execution.result, Err(Failure::Parse(ParserError::ExpectedIdentifier)));
    assert!(execution.output.is_empty());
    assert_eq!(
        execution.result.unwrap_err().message(),
        "Parse Error: Expected identifier"
    );
    let execution = execute("else(1);");
    assert_eq!(execution.result, Err(Failure::Parse(ParserError::UnexpectedToken)));
}

#[test]
fn a_program_that_fails_while_it_runs() {
    let execution = execute("var show = round; var x = y;");
    assert_eq!(
        execution.result,
        Err(Failure::Runtime(RuntimeError::UndefinedVariable("y".to_string())))
    );
    assert_eq!(
        execution.result.unwrap_err().message(),
        "Runtime Error: Undefined variable 'y'"
    );
    let execution = execute("1 / 0;");
    assert_eq!(execution.result.unwrap_err().message(), "Runtime Error: Division by zero");
}

#[test]
fn sums_of_integers() {
    assert_eq!(add_numbers(2, 3), 5);
    assert_eq!(add_numbers(-7, 3), -4);
    assert_eq!(add_numbers(i32::MAX, 0), i32::MAX);
    assert_eq!(add_numbers(i32::MIN, i32::MAX), -1);
}

#[test]
fn a_program_with_a_callback() {
    let heard: RefCell<Vec<String>> = RefCell::new(Vec::new());
    let callback = |line: String| heard.borrow_mut().push(line);
    let execution = execute_code("var x = 1; out(x); x = x + 1; out(x * 1.5); out(\"end\");", &callback);
    assert_eq!(execution.result, Ok(()));
    let expected = vec!["1".to_string(), "3".to_string(), "end".to_string()];
    assert_eq!(execution.output, expected);
    assert_eq!(*heard.borrow(), expected);
    heard.borrow_mut().clear();
    let execution = execute_code("out(1); var x = y; out(2);", &callback);
    assert_eq!(
        execution.result,
        Err(Failure::Runtime(RuntimeError::UndefinedVariable("y".to_string())))
    );
    assert_eq!(execution.output, vec!["1".to_string()]);
    assert_eq!(*heard.borrow(), vec!["1".to_string()]);
    heard.borrow_mut().clear();
    let execution = execute_code("out(1); var;", &callback);
    assert_eq!(execution.result, Err(Failure::Parse(ParserError::ExpectedIdentifier)));
    let execution = execute_code("out(1, 2);", &callback);
    assert_eq!(
        execution.result,
        Err(Failure::Runtime(RuntimeError::InvalidArgumentCount { expected: 1, got: 2 }))
    );
    assert!(heard.borrow().is_empty());
}

#[test]
fn a_program_that_writes() {
    let execution = execute("fn twice(v) { out(v); out(v); } twice(\"a\"); out(round(2.5));");
    assert_eq!(execution.result, Ok(()));
    assert_eq!(execution.output, vec!["a".to_string(), "a".to_string(), "3".to_string()]);
}

#[test]
fn a_program_that_does_not_scan() {
    let execution = execute("var x = 1; @");
    assert_eq!(
        execution.result,
        Err(Failure::Scan(LexerError::InvalidCharacter('@', 1, 12)))
    );
    assert!(execution.output.is_empty());
    assert_eq!(
        execution.result.unwrap_err().message(),
        "Parse Error: Invalid character '@' at line 1, column 12"
    );
    let execution = execute("var x = \"open;\nvar y;");
    assert_eq!(execution.result, Err(Failure::Scan(LexerError::UnterminatedString(1, 9))));
    let execution = execute("{ x;\n /* open }");
    assert_eq!(
        execution.result,
        Err(Failure::Scan(LexerError::UnterminatedBlockComment(2, 1)))
    );
    let execution = execute("f(1.2.3);");
    assert_eq!(
        execution.result,
        Err(Failure::Scan(LexerError::InvalidNumber("1.2".to_string(), 1, 3)))
    );
    let execution = execute("@");
    assert_eq!(execution.result, Err(Failure::Scan(LexerError::InvalidCharacter('@', 1, 1))));
}

#[test]
fn a_syntax_error_before_a_lexical_error_comes_first() {
    let execution = execute("var 1; @");
    assert_eq!(execution.result, Err(Failure::Parse(ParserError::ExpectedIdentifier)));
    let execution = execute("x y; \"open");
    assert_eq!(execution.result, Err(Failure::Parse(ParserError::UnexpectedToken)));
}

#[test]
fn an_empty_program_runs() {
    let execution = execute("");
    assert_eq!(execution.result, Ok(()));
    let execution = execute(" // nothing\n/* at all */ ");
    assert_eq!(execution.result, Ok(()));
}
