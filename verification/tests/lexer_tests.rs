use orbit::lexer::{Lexer, TokenType};

#[test]
fn test_tokenize_keywords() {
    let mut lexer = Lexer::new("let const fn if else");
    let tokens = lexer.tokenize();
    assert_eq!(tokens.len(), 6); // 5 keywords + EOF
    assert!(matches!(tokens[0].token_type, TokenType::Let));
    assert!(matches!(tokens[1].token_type, TokenType::Const));
    assert!(matches!(tokens[2].token_type, TokenType::Fn));
    assert!(matches!(tokens[3].token_type, TokenType::If));
    assert!(matches!(tokens[4].token_type, TokenType::Else));
}

#[test]
fn test_tokenize_numbers() {
    let mut lexer = Lexer::new("42 3.14 100");
    let tokens = lexer.tokenize();
    assert!(matches!(tokens[0].token_type, TokenType::Integer(42)));
    assert!(matches!(tokens[1].token_type, TokenType::Float(_)));
    assert!(matches!(tokens[2].token_type, TokenType::Integer(100)));
}

#[test]
fn test_tokenize_strings() {
    let mut lexer = Lexer::new(r#""hello world""#);
    let tokens = lexer.tokenize();
    match &tokens[0].token_type {
        TokenType::String(s) => assert_eq!(s, "hello world"),
        _ => panic!("Expected string token"),
    }
}

#[test]
fn test_tokenize_types() {
    let mut lexer = Lexer::new("i32 i64 f64 bool");
    let tokens = lexer.tokenize();
    assert!(matches!(tokens[0].token_type, TokenType::I32));
    assert!(matches!(tokens[1].token_type, TokenType::I64));
    assert!(matches!(tokens[2].token_type, TokenType::F64));
    assert!(matches!(tokens[3].token_type, TokenType::Bool));
}

#[test]
fn test_tokenize_operators() {
    let mut lexer = Lexer::new("+ - * / == != < > <= >=");
    let tokens = lexer.tokenize();
    assert!(matches!(tokens[0].token_type, TokenType::Plus));
    assert!(matches!(tokens[1].token_type, TokenType::Minus));
    assert!(matches!(tokens[2].token_type, TokenType::Star));
    assert!(matches!(tokens[3].token_type, TokenType::Slash));
    assert!(matches!(tokens[4].token_type, TokenType::EqualEqual));
    assert!(matches!(tokens[5].token_type, TokenType::NotEqual));
}

#[test]
fn test_tokenize_variable_declaration() {
    let mut lexer = Lexer::new("let x: i32 = 42;");
    let tokens = lexer.tokenize();
    assert!(matches!(tokens[0].token_type, TokenType::Let));
    match &tokens[1].token_type {
        TokenType::Identifier(name) => assert_eq!(name, "x"),
        _ => panic!("Expected identifier"),
    }
    assert!(matches!(tokens[2].token_type, TokenType::Colon));
    assert!(matches!(tokens[3].token_type, TokenType::I32));
    assert!(matches!(tokens[4].token_type, TokenType::Equal));
    assert!(matches!(tokens[5].token_type, TokenType::Integer(42)));
    assert!(matches!(tokens[6].token_type, TokenType::Semicolon));
}

#[test]
fn test_tokenize_function_declaration() {
    let mut lexer = Lexer::new("fn add(a: i32, b: i32) -> i32 { }");
    let tokens = lexer.tokenize();
    assert!(matches!(tokens[0].token_type, TokenType::Fn));
    match &tokens[1].token_type {
        TokenType::Identifier(name) => assert_eq!(name, "add"),
        _ => panic!("Expected function name"),
    }
    assert!(matches!(tokens[2].token_type, TokenType::LeftParen));
}

#[test]
fn test_skip_comments() {
    let mut lexer = Lexer::new("let x // this is a comment\n let y;");
    let tokens = lexer.tokenize();
    // Should skip the comment and correctly parse both let statements
    assert!(matches!(tokens[0].token_type, TokenType::Let));
    assert!(matches!(tokens[3].token_type, TokenType::Let));
}

#[test]
fn test_multiline_comments() {
    let mut lexer = Lexer::new("let /* comment */ x;");
    let tokens = lexer.tokenize();
    assert!(matches!(tokens[0].token_type, TokenType::Let));
    match &tokens[1].token_type {
        TokenType::Identifier(name) => assert_eq!(name, "x"),
        _ => panic!("Expected identifier"),
    }
}

#[test]
fn test_error_handling_syntax() {
    let mut lexer = Lexer::new("fn fail() -> !i32 { }");
    let tokens = lexer.tokenize();
    // Should tokenize the ! character
    let has_exclaim = tokens
        .iter()
        .any(|t| matches!(t.token_type, TokenType::Exclaim));
    assert!(has_exclaim);
}

fn lexer_kinds(source: &str) -> Vec<TokenType> {
    Lexer::new(source).tokenize().into_iter().map(|t| t.token_type).collect()
}

#[test]
fn line_break_after_statement_end_reads_as_semicolon() {
    assert_eq!(
        lexer_kinds("x\ny"),
        vec![
            TokenType::Identifier("x".to_string()),
            TokenType::Semicolon,
            TokenType::Identifier("y".to_string()),
            TokenType::Eof,
        ]
    );
    assert_eq!(
        lexer_kinds("42 )\n"),
        vec![TokenType::Integer(42), TokenType::RightParen, TokenType::Semicolon, TokenType::Eof]
    );
}

#[test]
fn line_break_after_operator_is_blank() {
    assert_eq!(
        lexer_kinds("a +\nb"),
        vec![
            TokenType::Identifier("a".to_string()),
            TokenType::Plus,
            TokenType::Identifier("b".to_string()),
            TokenType::Eof,
        ]
    );
    assert_eq!(lexer_kinds("\n\n"), vec![TokenType::Eof]);
}

#[test]
fn tokens_carry_line_and_column() {
    let tokens = Lexer::new("let\n  x = 1").tokenize();
    assert_eq!((tokens[0].line, tokens[0].column), (1, 1));
    assert_eq!((tokens[1].line, tokens[1].column), (2, 3));
    assert_eq!((tokens[2].line, tokens[2].column), (2, 5));
    assert_eq!((tokens[3].line, tokens[3].column), (2, 7));
    assert!(matches!(tokens[4].token_type, TokenType::Eof));
}

#[test]
fn float_keeps_its_text_and_unknown_characters_are_kept() {
    assert_eq!(
        lexer_kinds("3.25 @"),
        vec![TokenType::Float("3.25".to_string()), TokenType::Unknown('@'), TokenType::Eof]
    );
}

#[test]
fn two_character_operators() {
    assert_eq!(
        lexer_kinds("-> => && || <= >= != == ?"),
        vec![
            TokenType::Arrow,
            TokenType::FatArrow,
            TokenType::And,
            TokenType::Or,
            TokenType::LessEqual,
            TokenType::GreaterEqual,
            TokenType::NotEqual,
            TokenType::EqualEqual,
            TokenType::Question,
            TokenType::Eof,
        ]
    );
}

#[test]
fn next_token_stays_at_end() {
    let mut lexer = Lexer::new("");
    assert!(matches!(lexer.next_token().token_type, TokenType::Eof));
    assert!(matches!(lexer.next_token().token_type, TokenType::Eof));
}
