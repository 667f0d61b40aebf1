use minilang::error::LexerError;
use minilang::lexer::Lexer;
use minilang::number::Number;
use minilang::types::Token;

fn num(x: f64) -> Number {
    Number::from_units((x * 1_000_000.0).round() as i64)
}

#[test]
fn test_keywords() {
    let input = "var fn if else while for switch case default out return";
    let mut lexer = Lexer::new(input);

    let expected = vec![
        Token::Var,
        Token::Fn,
        Token::If,
        Token::Else,
        Token::While,
        Token::For,
        Token::Switch,
        Token::Case,
        Token::Default,
        Token::Out,
        Token::Return,
        Token::EOF,
    ];

    for expected_token in expected {
        let result = lexer.next_token().unwrap();
        assert_eq!(result.token, expected_token);
    }
}

#[test]
fn test_identifiers() {
    let input = "abc x123 _test test_var";
    let mut lexer = Lexer::new(input);

    let expected = vec![
        Token::Identifier("abc".to_string()),
        Token::Identifier("x123".to_string()),
        Token::Identifier("_test".to_string()),
        Token::Identifier("test_var".to_string()),
        Token::EOF,
    ];

    for expected_token in expected {
        let result = lexer.next_token().unwrap();
        assert_eq!(result.token, expected_token);
    }
}

#[test]
fn test_numbers() {
    let input = "42 3.14 0.123 42.0";
    let mut lexer = Lexer::new(input);

    let expected = vec![
        Token::Number(num(42.0)),
        Token::Number(num(3.14)),
        Token::Number(num(0.123)),
        Token::Number(num(42.0)),
        Token::EOF,
    ];

    for expected_token in expected {
        let result = lexer.next_token().unwrap();
        assert_eq!(result.token, expected_token);
    }
}

#[test]
fn test_strings() {
    let input = r#""Hello" "World\n" "Test \"quoted\"" "\\backslash""#;
    let mut lexer = Lexer::new(input);

    let expected = vec![
        Token::String("Hello".to_string()),
        Token::String("World\n".to_string()),
        Token::String("Test \"quoted\"".to_string()),
        Token::String("\\backslash".to_string()),
        Token::EOF,
    ];

    for expected_token in expected {
        let result = lexer.next_token().unwrap();
        assert_eq!(result.token, expected_token);
    }
}

#[test]
fn test_operators() {
    let input = "+ - * / = == != > < >= <= && || !";
    let mut lexer = Lexer::new(input);

    let expected = vec![
        Token::Plus,
        Token::Minus,
        Token::Multiply,
        Token::Divide,
        Token::Assign,
        Token::Equals,
        Token::NotEquals,
        Token::Greater,
        Token::Less,
        Token::GreaterEquals,
        Token::LessEquals,
        Token::And,
        Token::Or,
        Token::Not,
        Token::EOF,
    ];

    for expected_token in expected {
        let result = lexer.next_token().unwrap();
        assert_eq!(result.token, expected_token);
    }
}

#[test]
fn test_delimiters() {
    let input = "( ) { } , ;";
    let mut lexer = Lexer::new(input);

    let expected = vec![
        Token::LeftParen,
        Token::RightParen,
        Token::LeftBrace,
        Token::RightBrace,
        Token::Comma,
        Token::Semicolon,
        Token::EOF,
    ];

    for expected_token in expected {
        let result = lexer.next_token().unwrap();
        assert_eq!(result.token, expected_token);
    }
}

#[test]
fn test_complex_expression() {
    let input = "if (x > 5) { print(\"Hello\"); }";
    let mut lexer = Lexer::new(input);

    let expected = vec![
        Token::If,
        Token::LeftParen,
        Token::Identifier("x".to_string()),
        Token::Greater,
        Token::Number(num(5.0)),
        Token::RightParen,
        Token::LeftBrace,
        Token::Identifier("print".to_string()),
        Token::LeftParen,
        Token::String("Hello".to_string()),
        Token::RightParen,
        Token::Semicolon,
        Token::RightBrace,
        Token::EOF,
    ];

    for expected_token in expected {
        let result = lexer.next_token().unwrap();
        assert_eq!(result.token, expected_token);
    }
}

#[test]
fn test_error_invalid_character() {
    let input = "@";
    let mut lexer = Lexer::new(input);
    let result = lexer.next_token();
    assert!(result.is_err());
}

#[test]
fn test_error_unterminated_string() {
    let input = "\"unterminated";
    let mut lexer = Lexer::new(input);
    let result = lexer.next_token();
    assert!(result.is_err());
}

#[test]
fn test_error_invalid_number() {
    let input = "42.42.42";
    let mut lexer = Lexer::new(input);
    let result = lexer.next_token();
    assert!(result.is_err());
}

#[test]
fn test_single_line_comments() {
    let input = "var x = 42; // Dies ist ein Kommentar\nvar y = 23;";
    let mut lexer = Lexer::new(input);

    assert_eq!(lexer.next_token().unwrap().token, Token::Var);
    assert_eq!(lexer.next_token().unwrap().token, Token::Identifier("x".to_string()));
    assert_eq!(lexer.next_token().unwrap().token, Token::Assign);
    assert_eq!(lexer.next_token().unwrap().token, Token::Number(num(42.0)));
    assert_eq!(lexer.next_token().unwrap().token, Token::Semicolon);

    assert_eq!(lexer.next_token().unwrap().token, Token::Var);
    assert_eq!(lexer.next_token().unwrap().token, Token::Identifier("y".to_string()));
    assert_eq!(lexer.next_token().unwrap().token, Token::Assign);
    assert_eq!(lexer.next_token().unwrap().token, Token::Number(num(23.0)));
    assert_eq!(lexer.next_token().unwrap().token, Token::Semicolon);
    assert_eq!(lexer.next_token().unwrap().token, Token::EOF);
}

#[test]
fn test_multi_line_comments() {
    let input = "var x = /* Mehrzeiliger\nKommentar */ 42;\n/* Noch ein\nKommentar */var y = 23;";
    let mut lexer = Lexer::new(input);

    assert_eq!(lexer.next_token().unwrap().token, Token::Var);
    assert_eq!(lexer.next_token().unwrap().token, Token::Identifier("x".to_string()));
    assert_eq!(lexer.next_token().unwrap().token, Token::Assign);
    assert_eq!(lexer.next_token().unwrap().token, Token::Number(num(42.0)));
    assert_eq!(lexer.next_token().unwrap().token, Token::Semicolon);

    assert_eq!(lexer.next_token().unwrap().token, Token::Var);
    assert_eq!(lexer.next_token().unwrap().token, Token::Identifier("y".to_string()));
    assert_eq!(lexer.next_token().unwrap().token, Token::Assign);
    assert_eq!(lexer.next_token().unwrap().token, Token::Number(num(23.0)));
    assert_eq!(lexer.next_token().unwrap().token, Token::Semicolon);
    assert_eq!(lexer.next_token().unwrap().token, Token::EOF);
}

#[test]
fn test_unterminated_block_comment() {
    let input = "var x = /* Ungeschlossener\nKommentar\n";
    let mut lexer = Lexer::new(input);

    assert_eq!(lexer.next_token().unwrap().token, Token::Var);
    assert_eq!(lexer.next_token().unwrap().token, Token::Identifier("x".to_string()));
    assert_eq!(lexer.next_token().unwrap().token, Token::Assign);

    match lexer.next_token() {
        Err(LexerError::UnterminatedBlockComment(line, col)) => {
            assert_eq!(line, 1);
            assert_eq!(col, 8);
        }
        other => panic!("Expected UnterminatedBlockComment error, got {:?}", other),
    }
}

#[test]
fn test_nested_comments() {
    let input = "var x = /* Äußerer /* Innerer */ Kommentar */ 42;";
    let mut lexer = Lexer::new(input);

    assert_eq!(lexer.next_token().unwrap().token, Token::Var);
    assert_eq!(lexer.next_token().unwrap().token, Token::Identifier("x".to_string()));
    assert_eq!(lexer.next_token().unwrap().token, Token::Assign);
    assert_eq!(lexer.next_token().unwrap().token, Token::Number(num(42.0)));
    assert_eq!(lexer.next_token().unwrap().token, Token::Semicolon);
    assert_eq!(lexer.next_token().unwrap().token, Token::EOF);
}

#[test]
fn test_language_module() {
    let mut lexer = Lexer::new("var x = 42;");
    let tokens: Vec<_> = std::iter::from_fn(|| lexer.next_token().ok())
        .take_while(|t| !matches!(t.token, Token::EOF))
        .collect();

    assert!(!tokens.is_empty());
}
