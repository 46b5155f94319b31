pub mod ast;
pub mod codegen;
pub mod compiler;
pub mod engine;
pub mod frontend;
pub mod lexer;
pub mod passes;
pub mod runtime;
pub mod stdlib;
pub mod text;

pub use ast::{Expression, Statement, TypeNode, VarDecl};
pub use compiler::Compiler;
pub use lexer::{Lexer, Token, TokenType};
