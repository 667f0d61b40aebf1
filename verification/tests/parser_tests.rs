use minilang::ast::{BinaryOperator, Expression, Statement};
use minilang::number::Number;
use minilang::parser::Parser;

fn num(x: f64) -> Number {
    Number::from_units((x * 1_000_000.0).round() as i64)
}

#[test]
fn test_parse_variable_declaration() {
    let input = "var x = 42;";
    let mut parser = Parser::new(input);
    let result = parser.parse_program().unwrap();

    assert_eq!(result.len(), 1);
    if let Statement::VarDeclaration { name, initializer } = &result[0] {
        assert_eq!(name, "x");
        if let Some(Expression::Number(value)) = initializer {
            assert_eq!(*value, num(42.0));
        } else {
            panic!("Expected number initializer");
        }
    } else {
        panic!("Expected variable declaration");
    }
}

#[test]
fn test_parse_function_declaration() {
    let input = "fn add(x, y) { return x + y; }";
    let mut parser = Parser::new(input);
    let result = parser.parse_program().unwrap();

    assert_eq!(result.len(), 1);
    if let Statement::FunctionDeclaration { name, params, body } = &result[0] {
        assert_eq!(name, "add");
        assert_eq!(params, &vec!["x".to_string(), "y".to_string()]);
        assert_eq!(body.len(), 1);
    } else {
        panic!("Expected function declaration");
    }
}

#[test]
fn test_parse_if_statement() {
    let input = "if (x > 5) { return true; } else { return false; }";
    let mut parser = Parser::new(input);
    let result = parser.parse_program().unwrap();

    assert_eq!(result.len(), 1);
    if let Statement::If { condition, then_branch: _, else_branch } = &result[0] {
        if let Expression::Binary { operator, .. } = condition {
            assert_eq!(*operator, BinaryOperator::Greater);
        } else {
            panic!("Expected binary expression");
        }
        assert!(else_branch.is_some());
    } else {
        panic!("Expected if statement");
    }
}

#[test]
fn test_parse_binary_expression() {
    let input = "2 + 3 * 4;";
    let mut parser = Parser::new(input);
    let result = parser.parse_program().unwrap();

    assert_eq!(result.len(), 1);
    if let Statement::Expression(Expression::Binary { left, operator, right }) = &result[0] {
        assert_eq!(*operator, BinaryOperator::Add);
        if let Expression::Number(left_val) = &**left {
            assert_eq!(*left_val, num(2.0));
        } else {
            panic!("Expected number on left side");
        }
        if let Expression::Binary { operator, .. } = &**right {
            assert_eq!(*operator, BinaryOperator::Multiply);
        } else {
            panic!("Expected multiplication on right side");
        }
    } else {
        panic!("Expected binary expression");
    }
}

#[test]
fn test_parse_function_call() {
    let input = "print(\"Hello\", 42);";
    let mut parser = Parser::new(input);
    let result = parser.parse_program().unwrap();

    assert_eq!(result.len(), 1);
    if let Statement::Expression(Expression::Call { callee, arguments }) = &result[0] {
        if let Expression::Identifier(name) = &**callee {
            assert_eq!(name, "print");
        } else {
            panic!("Expected function identifier");
        }
        assert_eq!(arguments.len(), 2);
    } else {
        panic!("Expected function call");
    }
}

#[test]
fn test_parse_block() {
    let input = "{ var x = 1; x = x + 1; }";
    let mut parser = Parser::new(input);
    let result = parser.parse_program().unwrap();

    assert_eq!(result.len(), 1);
    if let Statement::Block(statements) = &result[0] {
        assert_eq!(statements.len(), 2);
    } else {
        panic!("Expected block statement");
    }
}

#[test]
fn test_parse_error_unexpected_token() {
    let input = "var 42;";
    let mut parser = Parser::new(input);
    let result = parser.parse_program();
    assert!(result.is_err());
}

#[test]
fn test_parse_error_unexpected_eof() {
    let input = "var x =";
    let mut parser = Parser::new(input);
    let result = parser.parse_program();
    assert!(result.is_err());
}

#[test]
fn test_parse_error_expected_block() {
    let input = "fn test() return x;";
    let mut parser = Parser::new(input);
    let result = parser.parse_program();
    assert!(result.is_err());
}
