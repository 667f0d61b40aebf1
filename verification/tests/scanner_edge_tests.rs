use minilang::error::LexerError;
use minilang::lexer::{
    first_lexical_error, is_decimal_digit, is_identifier_start, is_whitespace, Lexer,
};
use minilang::number::Number;
use minilang::types::{Position, Token};

fn tokens(input: &str) -> Vec<Token> {
    let mut lexer = Lexer::new(input);
    let mut list = Vec::new();
    loop {
        let t = lexer.next_token().unwrap();
        let end = t.token == Token::EOF;
        list.push(t.token);
        if end {
            return list;
        }
    }
}

#[test]
fn end_of_input_repeats() {
    let mut lexer = Lexer::new("x  ");
    assert_eq!(lexer.next_token().unwrap().token, Token::Identifier("x".to_string()));
    let first = lexer.next_token().unwrap();
    assert_eq!(first.token, Token::EOF);
    for _ in 0..5 {
        let again = lexer.next_token().unwrap();
        assert_eq!(again.token, Token::EOF);
        assert_eq!(again.position, first.position);
    }
}

#[test]
fn end_of_empty_input() {
    let mut lexer = Lexer::new("");
    let t = lexer.next_token().unwrap();
    assert_eq!(t.token, Token::EOF);
    assert_eq!(t.position, Position { line: 1, column: 1 });
    assert_eq!(lexer.next_token().unwrap().token, Token::EOF);
}

#[test]
fn positions_follow_lines_and_columns() {
    let mut lexer = Lexer::new("ab\n  cd = 1;\n\nz");
    let t = lexer.next_token().unwrap();
    assert_eq!(t.position, Position { line: 1, column: 1 });
    let t = lexer.next_token().unwrap();
    assert_eq!(t.token, Token::Identifier("cd".to_string()));
    assert_eq!(t.position, Position { line: 2, column: 3 });
    let t = lexer.next_token().unwrap();
    assert_eq!(t.token, Token::Assign);
    assert_eq!(t.position, Position { line: 2, column: 6 });
    let t = lexer.next_token().unwrap();
    assert_eq!(t.position, Position { line: 2, column: 8 });
    let t = lexer.next_token().unwrap();
    assert_eq!(t.token, Token::Semicolon);
    assert_eq!(t.position, Position { line: 2, column: 9 });
    let t = lexer.next_token().unwrap();
    assert_eq!(t.token, Token::Identifier("z".to_string()));
    assert_eq!(t.position, Position { line: 4, column: 1 });
    let t = lexer.next_token().unwrap();
    assert_eq!(t.token, Token::EOF);
    assert_eq!(t.position, Position { line: 4, column: 2 });
}

#[test]
fn a_first_line_break_counts() {
    let mut lexer = Lexer::new("\nx");
    let t = lexer.next_token().unwrap();
    assert_eq!(t.position, Position { line: 2, column: 1 });
}

#[test]
fn comments_do_not_change_the_tokens() {
    let with = "var x = 1; // one\nvar /* a /* b */ c */ y = x /* d */ + 2; // end";
    let without = "var x = 1; \nvar  y = x  + 2; ";
    assert_eq!(tokens(with), tokens(without));
    assert_eq!(tokens("a /**/ b"), tokens("a  b"));
    assert_eq!(tokens("// only a comment"), vec![Token::EOF]);
    assert_eq!(tokens("/* only a comment */"), vec![Token::EOF]);
}

#[test]
fn a_slash_alone_divides() {
    assert_eq!(
        tokens("a/b /"),
        vec![
            Token::Identifier("a".to_string()),
            Token::Divide,
            Token::Identifier("b".to_string()),
            Token::Divide,
            Token::EOF
        ]
    );
}

#[test]
fn block_comment_marks_nest_by_pairs() {
    // The `/` that opens the inner comment takes the `*` behind it.
    assert_eq!(tokens("/* /*/ */ */ x"), vec![Token::Identifier("x".to_string()), Token::EOF]);
    let mut lexer = Lexer::new("/* a /* b */");
    assert_eq!(lexer.next_token(), Err(LexerError::UnterminatedBlockComment(1, 0)));
    assert_eq!(lexer.next_token().unwrap().token, Token::EOF);
}

#[test]
fn unterminated_comment_names_its_opening() {
    let mut lexer = Lexer::new("x;\n   /* never\n closed");
    lexer.next_token().unwrap();
    lexer.next_token().unwrap();
    assert_eq!(lexer.next_token(), Err(LexerError::UnterminatedBlockComment(2, 3)));
}

#[test]
fn keywords_are_whole_words() {
    assert_eq!(
        tokens("variable iff truex _if If returns"),
        vec![
            Token::Identifier("variable".to_string()),
            Token::Identifier("iff".to_string()),
            Token::Identifier("truex".to_string()),
            Token::Identifier("_if".to_string()),
            Token::Identifier("If".to_string()),
            Token::Identifier("returns".to_string()),
            Token::EOF
        ]
    );
    assert_eq!(tokens("true false"), vec![Token::True, Token::False, Token::EOF]);
}

#[test]
fn identifiers_are_ascii() {
    let mut lexer = Lexer::new("caf\u{e9}");
    assert_eq!(lexer.next_token().unwrap().token, Token::Identifier("caf".to_string()));
    assert_eq!(lexer.next_token(), Err(LexerError::InvalidCharacter('\u{e9}', 1, 4)));
}

#[test]
fn an_invalid_character_stays_in_the_way() {
    let mut lexer = Lexer::new(" @x");
    assert_eq!(lexer.next_token(), Err(LexerError::InvalidCharacter('@', 1, 2)));
    assert_eq!(lexer.next_token(), Err(LexerError::InvalidCharacter('@', 1, 2)));
}

#[test]
fn single_ampersand_and_bar() {
    let mut lexer = Lexer::new("&x");
    assert_eq!(lexer.next_token(), Err(LexerError::InvalidCharacter('&', 1, 1)));
    assert_eq!(lexer.next_token().unwrap().token, Token::Identifier("x".to_string()));
    let mut lexer = Lexer::new("a |");
    lexer.next_token().unwrap();
    assert_eq!(lexer.next_token(), Err(LexerError::InvalidCharacter('|', 1, 3)));
    assert_eq!(lexer.next_token().unwrap().token, Token::EOF);
    assert_eq!(tokens("a&&b||c"), vec![
        Token::Identifier("a".to_string()),
        Token::And,
        Token::Identifier("b".to_string()),
        Token::Or,
        Token::Identifier("c".to_string()),
        Token::EOF
    ]);
}

#[test]
fn two_character_marks_are_taken_greedily() {
    assert_eq!(
        tokens("===!==<=>=<>!"),
        vec![
            Token::Equals,
            Token::Assign,
            Token::NotEquals,
            Token::Assign,
            Token::LessEquals,
            Token::GreaterEquals,
            Token::Less,
            Token::Greater,
            Token::Not,
            Token::EOF
        ]
    );
    assert_eq!(tokens(":"), vec![Token::Colon, Token::EOF]);
}

#[test]
fn a_second_decimal_point_is_an_error() {
    let mut lexer = Lexer::new("  42.42.42");
    assert_eq!(lexer.next_token(), Err(LexerError::InvalidNumber("42.42".to_string(), 1, 3)));
    let mut lexer = Lexer::new("1..2");
    assert_eq!(lexer.next_token(), Err(LexerError::InvalidNumber("1.".to_string(), 1, 1)));
}

#[test]
fn a_number_too_large_is_an_error() {
    let mut lexer = Lexer::new("9223372036855 1");
    assert_eq!(
        lexer.next_token(),
        Err(LexerError::InvalidNumber("9223372036855".to_string(), 1, 1))
    );
    assert_eq!(
        lexer.next_token().unwrap().token,
        Token::Number(Number::from_units(1_000_000))
    );
}

#[test]
fn numbers_end_at_the_first_other_character() {
    assert_eq!(
        tokens("12abc 3.x"),
        vec![
            Token::Number(Number::from_units(12_000_000)),
            Token::Identifier("abc".to_string()),
            Token::Number(Number::from_units(3_000_000)),
            Token::Identifier("x".to_string()),
            Token::EOF
        ]
    );
}

#[test]
fn escapes_in_strings() {
    assert_eq!(
        tokens(r#""a\tb\rc\nd\\e\"f\qg""#),
        vec![Token::String("a\tb\rc\nd\\e\"fqg".to_string()), Token::EOF]
    );
    assert_eq!(tokens("\"\""), vec![Token::String(String::new()), Token::EOF]);
    assert_eq!(tokens("\"line\nbreak\""), vec![Token::String("line\nbreak".to_string()), Token::EOF]);
}

#[test]
fn unterminated_strings_name_their_start() {
    let mut lexer = Lexer::new("x = \"abc");
    lexer.next_token().unwrap();
    lexer.next_token().unwrap();
    assert_eq!(lexer.next_token(), Err(LexerError::UnterminatedString(1, 5)));
    assert_eq!(lexer.next_token().unwrap().token, Token::EOF);
    let mut lexer = Lexer::new("\"abc\\");
    assert_eq!(lexer.next_token(), Err(LexerError::UnterminatedString(1, 1)));
    let mut lexer = Lexer::new("\"abc\\\"");
    assert_eq!(lexer.next_token(), Err(LexerError::UnterminatedString(1, 1)));
}

#[test]
fn white_space_of_every_kind() {
    assert_eq!(
        tokens("\u{a0}a\u{2003}\t\r\nb\u{3000}\u{85}\u{1680}\u{2028}\u{2029}\u{202f}\u{205f}\u{b}\u{c}"),
        vec![Token::Identifier("a".to_string()), Token::Identifier("b".to_string()), Token::EOF]
    );
    for c in ['\u{9}', '\u{a}', '\u{d}', ' ', '\u{85}', '\u{a0}', '\u{1680}', '\u{2000}', '\u{200a}', '\u{3000}'] {
        assert!(is_whitespace(c));
    }
    for c in ['a', '0', '\u{200b}', '\u{180e}', '\u{feff}', '\u{8}', '\u{e}', '\u{1f}', '\u{2007}'] {
        assert_eq!(is_whitespace(c), c.is_whitespace());
    }
    let mut lexer = Lexer::new("\u{200b}");
    assert_eq!(lexer.next_token(), Err(LexerError::InvalidCharacter('\u{200b}', 1, 1)));
}

#[test]
fn white_space_agrees_with_the_standard_library() {
    let mut c = 0u32;
    while c < 0x11_0000 {
        if let Some(ch) = char::from_u32(c) {
            assert_eq!(is_whitespace(ch), ch.is_whitespace());
        }
        c += 1;
    }
}

#[test]
fn character_classes() {
    assert!(is_decimal_digit('0') && is_decimal_digit('9'));
    assert!(!is_decimal_digit('a') && !is_decimal_digit('\u{661}'));
    assert!(is_identifier_start('a') && is_identifier_start('Z') && is_identifier_start('_'));
    assert!(!is_identifier_start('1') && !is_identifier_start('\u{e9}'));
}

#[test]
fn peek_looks_one_character_ahead() {
    let lexer = Lexer::new("ab");
    assert_eq!(lexer.peek(), Some('b'));
    let lexer = Lexer::new("a");
    assert_eq!(lexer.peek(), None);
    let lexer = Lexer::new("");
    assert_eq!(lexer.peek(), None);
}

#[test]
fn one_space_stands_for_a_comment() {
    let with = "a/* x */b // c\nd /* e /* f */ g */\"/* no comment */\" h//";
    let spaced = "a b d  \"/* no comment */\" h ";
    assert_eq!(tokens(with), tokens(spaced));
    let mut joined = Lexer::new("a/**/b");
    assert_eq!(joined.next_token().unwrap().token, Token::Identifier("a".to_string()));
    assert_eq!(joined.next_token().unwrap().token, Token::Identifier("b".to_string()));
}

#[test]
fn the_first_lexical_error_of_a_text() {
    assert_eq!(first_lexical_error(""), None);
    assert_eq!(first_lexical_error("var x = 1; // fine\n x;"), None);
    assert_eq!(
        first_lexical_error("x @ & y"),
        Some(LexerError::InvalidCharacter('@', 1, 3))
    );
    assert_eq!(
        first_lexical_error("x & @ y"),
        Some(LexerError::InvalidCharacter('&', 1, 3))
    );
    assert_eq!(first_lexical_error("\n \"open"), Some(LexerError::UnterminatedString(2, 2)));
    assert_eq!(first_lexical_error("\"@\" /* @ */ // @"), None);
}
