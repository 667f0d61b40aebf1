use minilang::ast::{Expression, Statement};
use minilang::error::RuntimeError;
use minilang::interpreter::Interpreter;
use minilang::number::Number;
use minilang::parser::Parser;
use minilang::value::Value;

fn num(x: f64) -> Number {
    Number::from_units((x * 1_000_000.0).round() as i64)
}

fn evaluate_str(input: &str) -> Result<Value, RuntimeError> {
    let mut parser = Parser::new(input);
    let statements = parser.parse_program().unwrap();
    let mut interpreter = Interpreter::new();
    interpreter.interpret(statements)
}

#[test]
fn test_arithmetic() {
    assert!(matches!(evaluate_str("var x = 5 + 3;").unwrap(), Value::Number(n) if n == num(8.0)));
    assert!(matches!(evaluate_str("var x = 10 - 4;").unwrap(), Value::Number(n) if n == num(6.0)));
    assert!(matches!(evaluate_str("var x = 3 * 4;").unwrap(), Value::Number(n) if n == num(12.0)));
    assert!(matches!(evaluate_str("var x = 15 / 3;").unwrap(), Value::Number(n) if n == num(5.0)));
}

#[test]
fn test_variables() {
    let mut interpreter = Interpreter::new();
    let statements = vec![
        Statement::VarDeclaration {
            name: "x".to_string(),
            initializer: Some(Expression::Number(num(42.0))),
        },
        Statement::Expression(Expression::Identifier("x".to_string())),
    ];

    assert!(matches!(interpreter.interpret(statements).unwrap(), Value::Number(n) if n == num(42.0)));
}

#[test]
fn test_if_statement() {
    let input = r#"
            var result;
            if (true) {
                result = 1;
            } else {
                result = 2;
            }
            result;
        "#;
    assert!(matches!(evaluate_str(input).unwrap(), Value::Number(n) if n == num(1.0)));
}

#[test]
fn test_boolean_operations() {
    let input = r#"
            var x = true;
            var y = false;
            var z = x && y;
            z;
        "#;
    assert!(matches!(evaluate_str(input).unwrap(), Value::Boolean(false)));
}

#[test]
fn test_comparison() {
    assert!(matches!(evaluate_str("var x = 5 > 3;").unwrap(), Value::Boolean(true)));
    assert!(matches!(evaluate_str("var x = 5 < 3;").unwrap(), Value::Boolean(false)));
    assert!(matches!(evaluate_str("var x = 5 == 5;").unwrap(), Value::Boolean(true)));
    assert!(matches!(evaluate_str("var x = 5 != 3;").unwrap(), Value::Boolean(true)));
}

#[test]
fn test_string_operations() {
    assert!(matches!(
        evaluate_str(r#"var x = "Hello" + " World";"#).unwrap(),
        Value::String(s) if s == "Hello World"
    ));
}

#[test]
fn test_division_by_zero() {
    let result = evaluate_str("var x = 5 / 0;");
    assert!(matches!(result, Err(RuntimeError::DivisionByZero)));
}

#[test]
fn test_undefined_variable() {
    let result = evaluate_str("var x = y;");
    assert!(matches!(result, Err(RuntimeError::UndefinedVariable(name)) if name == "y"));
}

#[test]
fn test_block_scope() {
    let input = r#"
            var x = 1;
            {
                var x = 2;
                x = 3;
            }
            x;
        "#;
    assert!(matches!(evaluate_str(input).unwrap(), Value::Number(n) if n == num(1.0)));
}

#[test]
fn test_function_call() {
    let input = r#"
            fn test(x, y) {
                return x + y;
            }
            test(2, 3);
        "#;
    assert!(matches!(evaluate_str(input).unwrap(), Value::Number(n) if n == num(5.0)));
}

#[test]
fn test_function_call_errors() {
    assert!(matches!(
        evaluate_str("nonexistent(1, 2);"),
        Err(RuntimeError::UndefinedVariable(_))
    ));

    let input = r#"
            fn test(x) {
                return x;
            }
            test(1, 2);
        "#;
    assert!(matches!(
        evaluate_str(input),
        Err(RuntimeError::InvalidArgumentCount { expected: 1, got: 2 })
    ));
}

#[test]
fn test_round_function() {
    let mut interpreter = Interpreter::new();
    let inputs = [
        ("{ var x = round(3.14159, 2); x; }", 3.0),
        ("{ var x = round(3.7, 0); x; }", 4.0),
        ("{ var x = round(1234.5678, -2); x; }", 1235.0),
        ("{ var x = round(3.14159, 4); x; }", 3.0),
    ];
    for (input, expected) in inputs {
        let mut parser = Parser::new(input);
        let statements = match parser.parse_program() {
            Ok(stmts) => stmts,
            Err(e) => {
                println!("Parser error for input '{}': {:?}", input, e);
                panic!("Parser error");
            }
        };
        println!("Parsed statements: {:?}", statements);
        assert!(matches!(
            interpreter.interpret(statements).unwrap(),
            Value::Number(n) if n == num(expected)
        ));
    }
}

#[test]
fn test_round_function_errors() {
    assert!(matches!(evaluate_str("round(3.14);"), Ok(Value::Number(n)) if n == num(3.0)));
    assert!(matches!(evaluate_str("round(\"3.14\", 2);"), Err(RuntimeError::TypeError(_))));
    assert!(matches!(evaluate_str("round(3.14, true);"), Ok(Value::Number(n)) if n == num(3.0)));
    assert!(matches!(evaluate_str("round(3.14, 2.5);"), Ok(Value::Number(n)) if n == num(3.0)));
    assert!(matches!(
        evaluate_str("round();"),
        Err(RuntimeError::InvalidArgumentCount { expected: 1, got: 0 })
    ));
}

#[test]
fn test_out_function() {
    let test_cases = vec![
        ("out(42);", Value::Number(num(42.0))),
        ("out(\"Hello\");", Value::String("Hello".to_string())),
        ("out(true);", Value::Boolean(true)),
        ("var x = 123; out(x);", Value::Number(num(123.0))),
    ];

    for (input, expected_value) in test_cases {
        let result = evaluate_str(input);
        assert!(result.is_ok(), "Failed to evaluate: {}", input);
        let mut parser = Parser::new(input);
        let mut interpreter = Interpreter::new();
        interpreter.interpret(parser.parse_program().unwrap()).unwrap();
        assert_eq!(interpreter.take_output(), vec![expected_value.display_string()]);
    }
}

#[test]
fn test_out_function_errors() {
    let result = evaluate_str("out();");
    assert!(matches!(
        result,
        Err(RuntimeError::InvalidArgumentCount { expected: 1, got: 0 })
    ));
}
