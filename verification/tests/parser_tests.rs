use orbit::ast::{Expression, Statement, TypeNode};
use orbit::compiler::{ParseError, Parser, Token};

fn ident(s: &str) -> Token {
    Token::Ident(s.to_string())
}

fn parse(tokens: Vec<Token>) -> Result<Vec<Statement>, ParseError> {
    Parser::new(tokens).parse_program()
}

#[test]
fn variable_declaration_with_value() {
    let program = parse(vec![
        Token::Let,
        ident("user_id"),
        Token::Colon,
        ident("i64"),
        Token::Assign,
        Token::IntLiteral(42),
        Token::Semicolon,
        Token::EOF,
    ])
    .unwrap();
    assert_eq!(program.len(), 1);
    match &program[0] {
        Statement::VarDecl { name, var_type, initial_value } => {
            assert_eq!(name, "user_id");
            assert_eq!(*var_type, TypeNode::I64);
            assert!(matches!(initial_value, Some(Expression::IntegerLiteral(42))));
        }
        other => panic!("expected a declaration, got {:?}", other),
    }
}

#[test]
fn function_with_error_contract() {
    let program = parse(vec![
        Token::Fn,
        ident("open_file"),
        Token::LParen,
        ident("path"),
        Token::Colon,
        Token::LBracket,
        ident("i8"),
        Token::RBracket,
        Token::RParen,
        Token::Arrow,
        Token::Exclamation,
        ident("i32"),
        Token::LBrace,
        Token::RBrace,
        Token::EOF,
    ])
    .unwrap();
    match &program[0] {
        Statement::FnDecl { fn_name, args, return_type, is_error_contract, body } => {
            assert_eq!(fn_name, "open_file");
            assert_eq!(args.len(), 1);
            assert_eq!(args[0].name, "path");
            assert_eq!(args[0].var_type, TypeNode::U8Array);
            assert_eq!(*return_type, Some(TypeNode::I32));
            assert!(*is_error_contract);
            assert!(body.is_empty());
        }
        other => panic!("expected a function, got {:?}", other),
    }
}

#[test]
fn jit_directive_and_check_block() {
    let program = parse(vec![
        Token::Jit,
        Token::Exclamation,
        Token::LParen,
        Token::StringLiteral("deploy.sh".to_string()),
        Token::RParen,
        Token::Semicolon,
        Token::Check,
        Token::LBrace,
        Token::Let,
        ident("x"),
        Token::Colon,
        Token::LBracket,
        ident("i32"),
        Token::Semicolon,
        Token::IntLiteral(4),
        Token::RBracket,
        Token::Semicolon,
        Token::RBrace,
        Token::Except,
        Token::LBrace,
        Token::RBrace,
        Token::EOF,
    ])
    .unwrap();
    assert_eq!(program.len(), 2);
    assert!(matches!(&program[0], Statement::JitDirective(p) if p == "deploy.sh"));
    match &program[1] {
        Statement::CheckExcept { check_block, except_block } => {
            assert_eq!(check_block.len(), 1);
            assert!(except_block.is_empty());
            match &check_block[0] {
                Statement::VarDecl { var_type, initial_value, .. } => {
                    assert_eq!(*var_type, TypeNode::Array(Box::new(TypeNode::I32), 4));
                    assert!(initial_value.is_none());
                }
                other => panic!("expected a declaration, got {:?}", other),
            }
        }
        other => panic!("expected check/except, got {:?}", other),
    }
}

#[test]
fn pipelines_and_process_calls() {
    // let p: i32 = Process("grep", ["-r"]).then(Process("wc"))[0];
    let program = parse(vec![
        Token::Let,
        ident("p"),
        Token::Colon,
        ident("i32"),
        Token::Assign,
        ident("Process"),
        Token::LParen,
        Token::StringLiteral("grep".to_string()),
        Token::Comma,
        Token::LBracket,
        Token::StringLiteral("-r".to_string()),
        Token::RBracket,
        Token::RParen,
        Token::Dot,
        ident("then"),
        Token::LParen,
        ident("Process"),
        Token::LParen,
        Token::StringLiteral("wc".to_string()),
        Token::RParen,
        Token::RParen,
        Token::LBracket,
        Token::IntLiteral(0),
        Token::RBracket,
        Token::Semicolon,
        Token::EOF,
    ])
    .unwrap();
    match &program[0] {
        Statement::VarDecl { initial_value: Some(Expression::IndexAccess { aggregate, index }), .. } => {
            assert!(matches!(**index, Expression::IntegerLiteral(0)));
            match &**aggregate {
                Expression::Pipeline { lhs, rhs } => {
                    match &**lhs {
                        Expression::ProcessCall { command, args } => {
                            assert_eq!(command, "grep");
                            assert_eq!(args.len(), 1);
                            assert!(matches!(&args[0], Expression::StringLiteral(a) if a == "-r"));
                        }
                        other => panic!("expected a process call, got {:?}", other),
                    }
                    assert!(matches!(&**rhs, Expression::ProcessCall { command, args } if command == "wc" && args.is_empty()));
                }
                other => panic!("expected a pipeline, got {:?}", other),
            }
        }
        other => panic!("expected an indexed pipeline, got {:?}", other),
    }
}

#[test]
fn empty_program_and_missing_eof() {
    assert!(parse(vec![Token::EOF]).unwrap().is_empty());
    assert!(parse(vec![]).unwrap().is_empty());
}

#[test]
fn errors_name_the_offending_token() {
    assert_eq!(parse(vec![Token::Semicolon, Token::EOF]).unwrap_err(), ParseError::UnexpectedStatement(Token::Semicolon));
    assert_eq!(
        parse(vec![Token::Let, Token::IntLiteral(1), Token::EOF]).unwrap_err(),
        ParseError::ExpectedVariableName(Token::IntLiteral(1))
    );
    assert_eq!(
        parse(vec![Token::Let, ident("x"), Token::Assign, Token::EOF]).unwrap_err(),
        ParseError::Expected { expected: Token::Colon, found: Token::Assign }
    );
    assert_eq!(
        parse(vec![Token::Let, ident("x"), Token::Colon, ident("u7"), Token::EOF]).unwrap_err(),
        ParseError::UnknownPrimitiveType("u7".to_string())
    );
    assert_eq!(
        parse(vec![Token::Let, ident("x"), Token::Colon, Token::LBracket, ident("i32"), Token::RBracket, Token::EOF])
            .unwrap_err(),
        ParseError::InvalidArrayType
    );
    assert_eq!(
        parse(vec![Token::Fn, Token::LParen, Token::EOF]).unwrap_err(),
        ParseError::ExpectedFunctionName(Token::LParen)
    );
    assert_eq!(
        parse(vec![Token::Jit, Token::Exclamation, Token::LParen, Token::IntLiteral(3), Token::EOF]).unwrap_err(),
        ParseError::ExpectedJitPath(Token::IntLiteral(3))
    );
    assert_eq!(
        parse(vec![
            Token::Let, ident("x"), Token::Colon, ident("i8"), Token::Assign,
            Token::IntLiteral(1), Token::Dot, ident("map"), Token::EOF
        ])
        .unwrap_err(),
        ParseError::UnsupportedPipelineMethod("map".to_string())
    );
    assert_eq!(
        parse(vec![Token::Let, ident("x"), Token::Colon, ident("i8"), Token::Assign, Token::Semicolon, Token::EOF])
            .unwrap_err(),
        ParseError::UnexpectedExpressionToken(Token::Semicolon)
    );
}

#[test]
fn map_types_read_their_key_and_value() {
    let program = parse(vec![
        Token::Let,
        ident("m"),
        Token::Colon,
        ident("HashMap"),
        ident("less than symbol here"),
        ident("i32"),
        Token::Comma,
        ident("i64"),
        ident(">"),
        Token::Semicolon,
        Token::EOF,
    ])
    .unwrap();
    match &program[0] {
        Statement::VarDecl { var_type, .. } => assert_eq!(
            *var_type,
            TypeNode::HashMap(Box::new(TypeNode::I32), Box::new(TypeNode::I64))
        ),
        other => panic!("expected a declaration, got {:?}", other),
    }
}

#[test]
fn remaining_error_variants() {
    assert_eq!(
        parse(vec![Token::Fn, ident("f"), Token::LParen, Token::Colon, Token::EOF]).unwrap_err(),
        ParseError::ExpectedParameterName(Token::Colon)
    );
    assert_eq!(
        parse(vec![
            Token::Let, ident("a"), Token::Colon, Token::LBracket, ident("i8"), Token::Semicolon,
            ident("n"), Token::EOF
        ])
        .unwrap_err(),
        ParseError::ExpectedArraySize(ident("n"))
    );
    assert_eq!(
        parse(vec![Token::Let, ident("a"), Token::Colon, Token::Comma, Token::EOF]).unwrap_err(),
        ParseError::UnexpectedTypeToken(Token::Comma)
    );
    assert_eq!(
        parse(vec![
            Token::Let, ident("a"), Token::Colon, ident("i8"), Token::Assign, Token::IntLiteral(1),
            Token::Dot, Token::IntLiteral(2), Token::EOF
        ])
        .unwrap_err(),
        ParseError::ExpectedChainIdentifier(Token::IntLiteral(2))
    );
    assert_eq!(
        parse(vec![
            Token::Let, ident("a"), Token::Colon, ident("i8"), Token::Assign, ident("Process"),
            Token::LParen, ident("ls"), Token::EOF
        ])
        .unwrap_err(),
        ParseError::ProcessCommandNotString(ident("ls"))
    );
}

#[test]
fn array_sizes_are_truncated_to_32_bits() {
    let program = parse(vec![
        Token::Let,
        ident("a"),
        Token::Colon,
        Token::LBracket,
        ident("i8"),
        Token::Semicolon,
        Token::IntLiteral(4_294_967_298),
        Token::RBracket,
        Token::Semicolon,
        Token::EOF,
    ])
    .unwrap();
    match &program[0] {
        Statement::VarDecl { var_type, .. } => {
            assert_eq!(*var_type, TypeNode::Array(Box::new(TypeNode::I8), 2))
        }
        other => panic!("expected a declaration, got {:?}", other),
    }
}

#[test]
fn byte_array_parameter_parses() {
    let program = parse(vec![
        Token::Fn,
        ident("open_file"),
        Token::LParen,
        ident("path"),
        Token::Colon,
        Token::LBracket,
        ident("u8"),
        Token::RBracket,
        Token::RParen,
        Token::Arrow,
        Token::Exclamation,
        ident("i32"),
        Token::LBrace,
        Token::RBrace,
        Token::EOF,
    ])
    .unwrap();
    match &program[0] {
        Statement::FnDecl { fn_name, args, return_type, is_error_contract, body } => {
            assert_eq!(fn_name, "open_file");
            assert_eq!(args.len(), 1);
            assert_eq!(args[0].var_type, TypeNode::U8Array);
            assert_eq!(*return_type, Some(TypeNode::I32));
            assert!(*is_error_contract);
            assert!(body.is_empty());
        }
        other => panic!("expected a function, got {:?}", other),
    }
}

#[test]
fn byte_array_with_size_is_not_a_type() {
    assert_eq!(
        parse(vec![
            Token::Let, ident("b"), Token::Colon, Token::LBracket, ident("u8"), Token::Semicolon,
            Token::IntLiteral(4), Token::RBracket, Token::Semicolon, Token::EOF
        ])
        .unwrap_err(),
        ParseError::UnknownPrimitiveType("u8".to_string())
    );
}

#[test]
fn parsing_resumes_from_the_parser_position() {
    let mut parser = Parser::new(vec![
        Token::Jit,
        Token::Exclamation,
        Token::LParen,
        Token::StringLiteral("a.sh".to_string()),
        Token::RParen,
        Token::Semicolon,
        Token::EOF,
    ]);
    assert_eq!(parser.parse_program().unwrap().len(), 1);
    assert!(parser.parse_program().unwrap().is_empty());
}

#[test]
fn statements_clone_deeply() {
    let original = Statement::FnDecl {
        fn_name: "f".to_string(),
        args: vec![orbit::ast::VarDecl {
            name: "a".to_string(),
            var_type: TypeNode::Array(Box::new(TypeNode::I8), 3),
            initial_value: Some(Expression::ProcessCall {
                command: "ls".to_string(),
                args: vec![Expression::StringLiteral("-l".to_string())],
            }),
        }],
        return_type: Some(TypeNode::HashMap(Box::new(TypeNode::I8), Box::new(TypeNode::F64))),
        is_error_contract: true,
        body: vec![Statement::CheckExcept {
            check_block: vec![Statement::JitDirective("x.sh".to_string())],
            except_block: vec![],
        }],
    };
    let copy = original.clone();
    assert_eq!(format!("{:?}", copy), format!("{:?}", original));
}
