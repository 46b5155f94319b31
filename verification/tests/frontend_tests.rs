use orbit::frontend::ast::ASTNode;
use orbit::frontend::lexer::{Lexer, Token};
use orbit::frontend::parser::Parser;

fn front_kinds(source: &str) -> Vec<Token> {
    Lexer::new(source).tokenize().into_iter().map(|t| t.token).collect()
}

#[test]
fn declaration_tokens() {
    assert_eq!(
        front_kinds("let mut x: i32 = 5;"),
        vec![
            Token::Let,
            Token::Mut,
            Token::Identifier("x".to_string()),
            Token::Colon,
            Token::TypeI32,
            Token::Assign,
            Token::LiteralInteger(5),
            Token::SemiColon,
            Token::EOF,
        ]
    );
}

#[test]
fn byte_arrays_directives_and_arrows() {
    assert_eq!(
        front_kinds("[u8] [i8] jit!(\"a.sh\") -> -"),
        vec![
            Token::TypeU8Array,
            Token::LBracket,
            Token::TypeI8,
            Token::RBracket,
            Token::JitBang,
            Token::LParen,
            Token::LiteralString("a.sh".to_string()),
            Token::RParen,
            Token::Arrow,
            Token::EOF,
            Token::EOF,
        ]
    );
}

#[test]
fn keywords_and_types() {
    assert_eq!(
        front_kinds("fn const check except HashMap bool i8 i16 i64 i128 f32 f64 jit"),
        vec![
            Token::Fn,
            Token::Const,
            Token::Check,
            Token::Except,
            Token::HashMap,
            Token::Bool,
            Token::TypeI8,
            Token::TypeI16,
            Token::TypeI64,
            Token::TypeI128,
            Token::TypeF32,
            Token::TypeF64,
            Token::Identifier("jit".to_string()),
            Token::EOF,
        ]
    );
}

#[test]
fn tokens_carry_their_place() {
    let tokens = Lexer::new("let\n  x").tokenize();
    assert_eq!((tokens[0].line, tokens[0].col), (1, 1));
    assert_eq!((tokens[1].line, tokens[1].col), (2, 3));
    assert_eq!((tokens[2].line, tokens[2].col), (2, 4));
    assert_eq!(tokens[2].token, Token::EOF);
}

#[test]
fn empty_source_gives_only_eof() {
    let tokens = Lexer::new("").tokenize();
    assert_eq!(tokens.len(), 1);
    assert_eq!(tokens[0].token, Token::EOF);
}

#[test]
fn parser_reads_declarations_and_skips_the_rest() {
    let tokens = Lexer::new("let mut count: i64 = 10; 7 let name: [u8] = \"orbit\";").tokenize();
    let nodes = Parser::new(tokens).parse();
    assert_eq!(nodes.len(), 3);
    match &nodes[0] {
        ASTNode::VarDecl { name, is_mut, declared_type, initial_value } => {
            assert_eq!(name, "count");
            assert!(*is_mut);
            assert_eq!(declared_type, "i64");
            assert!(matches!(initial_value.as_deref(), Some(ASTNode::IntegerLiteral(10))));
        }
        other => panic!("expected a declaration, got {:?}", other),
    }
    assert!(matches!(nodes[1], ASTNode::IntegerLiteral(0)));
    match &nodes[2] {
        ASTNode::VarDecl { name, is_mut, declared_type, initial_value } => {
            assert_eq!(name, "name");
            assert!(!*is_mut);
            assert_eq!(declared_type, "[u8]");
            assert!(matches!(initial_value.as_deref(), Some(ASTNode::StringLiteral(s)) if s == "orbit"));
        }
        other => panic!("expected a declaration, got {:?}", other),
    }
}

#[test]
fn parser_names_other_types_unknown() {
    let tokens = Lexer::new("let b: bool;").tokenize();
    let nodes = Parser::new(tokens).parse();
    assert!(matches!(&nodes[0], ASTNode::VarDecl { declared_type, initial_value: None, .. } if declared_type == "unknown"));
}

#[test]
fn try_tokenize_refuses_what_tokenize_cannot_read() {
    assert!(Lexer::new("let x: i64 = 99999999999999999999;").try_tokenize().is_none());
    assert!(Lexer::new("[é").try_tokenize().is_none());
    let checked = Lexer::new("let x: i64 = 9223372036854775807;").try_tokenize().unwrap();
    assert_eq!(checked[5].token, Token::LiteralInteger(i64::MAX));
    let plain: Vec<Token> = Lexer::new("é [u8]").tokenize().into_iter().map(|t| t.token).collect();
    let tried: Vec<Token> =
        Lexer::new("é [u8]").try_tokenize().unwrap().into_iter().map(|t| t.token).collect();
    assert_eq!(plain, tried);
}

#[test]
fn try_parse_refuses_what_parse_cannot_read() {
    assert!(Parser::new(Lexer::new("let x").tokenize()).try_parse().is_none());
    assert!(Parser::new(Lexer::new("let 5: i32;").tokenize()).try_parse().is_none());
    assert!(Parser::new(Lexer::new("let x: i32 = y;").tokenize()).try_parse().is_none());
    assert!(Parser::new(vec![]).try_parse().is_none());
    let nodes = Parser::new(Lexer::new("let x: i32 = 4; 1").tokenize()).try_parse().unwrap();
    assert_eq!(nodes.len(), 2);
}
