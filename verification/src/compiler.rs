//! The recursive-descent parser that turns a sequence of tokens into the
//! statements of a Spaceship program.
use vstd::prelude::*;
use crate::ast::{
    exprs_view, lemma_exprs_view_push, lemma_stmts_view_push, lemma_var_decls_view_push,
    stmts_view, var_decls_view, ExprV, Expression, Statement, StmtV, TypeNode, VarDecl, VarDeclV,
};
use crate::text::str_eq;

pub use crate::codegen::compiler::Compiler;

verus! {

/// The tokens that the parser reads.
#[derive(Debug, Clone, PartialEq)]
pub enum Token {
    EOF,
    Ident(String),
    IntLiteral(i64),
    StringLiteral(String),
    Let,
    Fn,
    Jit,
    Check,
    Except,
    Colon,
    Assign,
    Semicolon,
    Comma,
    Dot,
    Arrow,
    Exclamation,
    LParen,
    RParen,
    LBrace,
    RBrace,
    LBracket,
    RBracket,
}

/// A token as a value.
pub enum TokV {
    EOF,
    Ident(Seq<char>),
    IntLiteral(i64),
    StringLiteral(Seq<char>),
    Let,
    Fn,
    Jit,
    Check,
    Except,
    Colon,
    Assign,
    Semicolon,
    Comma,
    Dot,
    Arrow,
    Exclamation,
    LParen,
    RParen,
    LBrace,
    RBrace,
    LBracket,
    RBracket,
}

impl View for Token {
    type V = TokV;

    open spec fn view(&self) -> TokV {
        match self {
            Token::EOF => TokV::EOF,
            Token::Ident(s) => TokV::Ident(s@),
            Token::IntLiteral(v) => TokV::IntLiteral(*v),
            Token::StringLiteral(s) => TokV::StringLiteral(s@),
            Token::Let => TokV::Let,
            Token::Fn => TokV::Fn,
            Token::Jit => TokV::Jit,
            Token::Check => TokV::Check,
            Token::Except => TokV::Except,
            Token::Colon => TokV::Colon,
            Token::Assign => TokV::Assign,
            Token::Semicolon => TokV::Semicolon,
            Token::Comma => TokV::Comma,
            Token::Dot => TokV::Dot,
            Token::Arrow => TokV::Arrow,
            Token::Exclamation => TokV::Exclamation,
            Token::LParen => TokV::LParen,
            Token::RParen => TokV::RParen,
            Token::LBrace => TokV::LBrace,
            Token::RBrace => TokV::RBrace,
            Token::LBracket => TokV::LBracket,
            Token::RBracket => TokV::RBracket,
        }
    }
}

/// Why a parse failed; each variant names the token (or text) that was met.
#[derive(Debug, Clone, PartialEq)]
pub enum ParseError {
    /// A fixed token was needed and another one came.
    Expected { expected: Token, found: Token },
    /// No statement starts with this token.
    UnexpectedStatement(Token),
    /// `let` is not followed by an identifier.
    ExpectedVariableName(Token),
    /// `fn` is not followed by an identifier.
    ExpectedFunctionName(Token),
    /// A parameter does not start with an identifier.
    ExpectedParameterName(Token),
    /// `jit!(` is not followed by a string literal.
    ExpectedJitPath(Token),
    /// An identifier in type position names no type.
    UnknownPrimitiveType(String),
    /// `[T;` is not followed by an integer.
    ExpectedArraySize(Token),
    /// `[T]` with another element type than `i8`.
    InvalidArrayType,
    /// No type starts with this token.
    UnexpectedTypeToken(Token),
    /// `.` is not followed by an identifier.
    ExpectedChainIdentifier(Token),
    /// `.m(..)` with another method than `then`.
    UnsupportedPipelineMethod(String),
    /// `Process(` is not followed by a string literal.
    ProcessCommandNotString(Token),
    /// No expression starts with this token.
    UnexpectedExpressionToken(Token),
}

/// A parse error as a value.
pub enum ErrV {
    Expected { expected: TokV, found: TokV },
    UnexpectedStatement(TokV),
    ExpectedVariableName(TokV),
    ExpectedFunctionName(TokV),
    ExpectedParameterName(TokV),
    ExpectedJitPath(TokV),
    UnknownPrimitiveType(Seq<char>),
    ExpectedArraySize(TokV),
    InvalidArrayType,
    UnexpectedTypeToken(TokV),
    ExpectedChainIdentifier(TokV),
    UnsupportedPipelineMethod(Seq<char>),
    ProcessCommandNotString(TokV),
    UnexpectedExpressionToken(TokV),
}

impl View for ParseError {
    type V = ErrV;

    open spec fn view(&self) -> ErrV {
        match self {
            ParseError::Expected { expected, found } => ErrV::Expected {
                expected: expected@,
                found: found@,
            },
            ParseError::UnexpectedStatement(t) => ErrV::UnexpectedStatement(t@),
            ParseError::ExpectedVariableName(t) => ErrV::ExpectedVariableName(t@),
            ParseError::ExpectedFunctionName(t) => ErrV::ExpectedFunctionName(t@),
            ParseError::ExpectedParameterName(t) => ErrV::ExpectedParameterName(t@),
            ParseError::ExpectedJitPath(t) => ErrV::ExpectedJitPath(t@),
            ParseError::UnknownPrimitiveType(s) => ErrV::UnknownPrimitiveType(s@),
            ParseError::ExpectedArraySize(t) => ErrV::ExpectedArraySize(t@),
            ParseError::InvalidArrayType => ErrV::InvalidArrayType,
            ParseError::UnexpectedTypeToken(t) => ErrV::UnexpectedTypeToken(t@),
            ParseError::ExpectedChainIdentifier(t) => ErrV::ExpectedChainIdentifier(t@),
            ParseError::UnsupportedPipelineMethod(s) => ErrV::UnsupportedPipelineMethod(s@),
            ParseError::ProcessCommandNotString(t) => ErrV::ProcessCommandNotString(t@),
            ParseError::UnexpectedExpressionToken(t) => ErrV::UnexpectedExpressionToken(t@),
        }
    }
}

/// The value of a parse result, given the view of what it holds on success.
pub open spec fn rview<T, V>(r: Result<T, ParseError>, f: spec_fn(T) -> V) -> Result<V, ErrV> {
    match r {
        Ok(t) => Ok(f(t)),
        Err(e) => Err(e@),
    }
}

/// The text of the identifier that stands for `<` after `HashMap`.
pub open spec fn map_open_text() -> Seq<char> {
    "less than symbol here"@
}

// ---------------------------------------------------------------------------
// The grammar, as functions of the token sequence and a position in it.
// Each returns what was parsed (or why it failed) and the position after it.
// The last argument bounds the depth of the recursion: with none left the
// result is left unspecified. Once it is large enough the bound no longer matters
// (`lemma_parse_program_bound`).
// ---------------------------------------------------------------------------

/// The token at `p`; past the end, `EOF`.
pub open spec fn tok_at(ts: Seq<TokV>, p: int) -> TokV {
    if 0 <= p < ts.len() {
        ts[p]
    } else {
        TokV::EOF
    }
}

/// The position after reading one token at `p`: `EOF` is never passed.
pub open spec fn next_pos(ts: Seq<TokV>, p: int) -> int {
    if tok_at(ts, p) == TokV::EOF {
        p
    } else {
        p + 1
    }
}

/// Reading one token that must be `e`.
pub open spec fn expect_at(ts: Seq<TokV>, p: int, e: TokV) -> (Result<(), ErrV>, int) {
    let cur = tok_at(ts, p);
    (
        if cur == e {
            Ok(())
        } else {
            Err(ErrV::Expected { expected: e, found: cur })
        },
        next_pos(ts, p),
    )
}

/// Recursion depth that suffices from position `p`.
pub open spec fn budget(ts: Seq<TokV>, p: int) -> int {
    8 * (ts.len() - p)
}

/// The primitive type named by an identifier.
pub open spec fn primitive_type(t: Seq<char>) -> Option<TypeNode> {
    if t == "bool"@ {
        Some(TypeNode::Bool)
    } else if t == "i8"@ {
        Some(TypeNode::I8)
    } else if t == "i16"@ {
        Some(TypeNode::I16)
    } else if t == "i32"@ {
        Some(TypeNode::I32)
    } else if t == "i64"@ {
        Some(TypeNode::I64)
    } else if t == "i128"@ {
        Some(TypeNode::I128)
    } else if t == "f32"@ {
        Some(TypeNode::F32)
    } else if t == "f64"@ {
        Some(TypeNode::F64)
    } else {
        None
    }
}

/// A type: a primitive name, `HashMap<less than symbol here K, V>` (any token
/// closes it), `[T; n]`, or the byte array `[u8]` (also written `[i8]`).
pub open spec fn type_at(ts: Seq<TokV>, p: int, f: nat) -> (Result<TypeNode, ErrV>, int)
    decreases f,
{
    if f == 0 {
        arbitrary()
    } else {
        let q = next_pos(ts, p);
        match tok_at(ts, p) {
            TokV::Ident(t) => {
                if primitive_type(t) is Some {
                    (Ok(primitive_type(t)->0), q)
                } else if t == "HashMap"@ {
                    let (r1, q1) = expect_at(ts, q, TokV::Ident(map_open_text()));
                    if r1 is Err {
                        (Err(r1->Err_0), q1)
                    } else {
                        let (rk, qk) = type_at(ts, q1, (f - 1) as nat);
                        match rk {
                            Err(e) => (Err(e), qk),
                            Ok(k) => {
                                let (rc, qc) = expect_at(ts, qk, TokV::Comma);
                                if rc is Err {
                                    (Err(rc->Err_0), qc)
                                } else {
                                    let (rv, qv) = type_at(ts, qc, (f - 1) as nat);
                                    match rv {
                                        Err(e) => (Err(e), qv),
                                        Ok(v) => (
                                            Ok(TypeNode::HashMap(Box::new(k), Box::new(v))),
                                            next_pos(ts, qv),
                                        ),
                                    }
                                }
                            },
                        }
                    }
                } else {
                    (Err(ErrV::UnknownPrimitiveType(t)), q)
                }
            },
            TokV::LBracket => if tok_at(ts, q) == TokV::Ident("u8"@) && tok_at(ts, q + 1)
                == TokV::RBracket {
                (Ok(TypeNode::U8Array), q + 2)
            } else {
                let (ri, qi) = type_at(ts, q, (f - 1) as nat);
                match ri {
                    Err(e) => (Err(e), qi),
                    Ok(inner) => {
                        if tok_at(ts, qi) == TokV::Semicolon {
                            let qs = next_pos(ts, qi);
                            match tok_at(ts, qs) {
                                TokV::IntLiteral(n) => {
                                    let (rb, qb) = expect_at(ts, next_pos(ts, qs), TokV::RBracket);
                                    if rb is Err {
                                        (Err(rb->Err_0), qb)
                                    } else {
                                        (Ok(TypeNode::Array(Box::new(inner), n as u32)), qb)
                                    }
                                },
                                other => (Err(ErrV::ExpectedArraySize(other)), next_pos(ts, qs)),
                            }
                        } else {
                            let (rb, qb) = expect_at(ts, qi, TokV::RBracket);
                            if rb is Err {
                                (Err(rb->Err_0), qb)
                            } else if inner == TypeNode::I8 {
                                (Ok(TypeNode::U8Array), qb)
                            } else {
                                (Err(ErrV::InvalidArrayType), qb)
                            }
                        }
                    },
                }
            },
            other => (Err(ErrV::UnexpectedTypeToken(other)), q),
        }
    }
}

/// An expression: a primary expression followed by any number of `[index]`
/// and `.then(expression)`.
pub open spec fn expr_at(ts: Seq<TokV>, p: int, f: nat) -> (Result<ExprV, ErrV>, int)
    decreases f, 2int,
{
    if f == 0 {
        arbitrary()
    } else {
        let (r, q) = primary_at(ts, p, (f - 1) as nat);
        match r {
            Err(e) => (Err(e), q),
            Ok(e0) => postfix_at(ts, q, e0, (f - 1) as nat),
        }
    }
}

/// The postfix operations that follow `lhs` from position `p` on.
pub open spec fn postfix_at(ts: Seq<TokV>, p: int, lhs: ExprV, f: nat) -> (
    Result<ExprV, ErrV>,
    int,
)
    decreases f, 1int,
{
    if f == 0 {
        arbitrary()
    } else {
        match tok_at(ts, p) {
            TokV::LBracket => {
                let (ri, qi) = expr_at(ts, p + 1, (f - 1) as nat);
                match ri {
                    Err(e) => (Err(e), qi),
                    Ok(idx) => {
                        let (rb, qb) = expect_at(ts, qi, TokV::RBracket);
                        if rb is Err {
                            (Err(rb->Err_0), qb)
                        } else {
                            postfix_at(
                                ts,
                                qb,
                                ExprV::IndexAccess { aggregate: Box::new(lhs), index: Box::new(idx) },
                                (f - 1) as nat,
                            )
                        }
                    },
                }
            },
            TokV::Dot => {
                let q = p + 1;
                match tok_at(ts, q) {
                    TokV::Ident(m) => {
                        if m == "then"@ {
                            let (rl, ql) = expect_at(ts, q + 1, TokV::LParen);
                            if rl is Err {
                                (Err(rl->Err_0), ql)
                            } else {
                                let (rn, qn) = expr_at(ts, ql, (f - 1) as nat);
                                match rn {
                                    Err(e) => (Err(e), qn),
                                    Ok(next) => {
                                        let (rr, qr) = expect_at(ts, qn, TokV::RParen);
                                        if rr is Err {
                                            (Err(rr->Err_0), qr)
                                        } else {
                                            postfix_at(
                                                ts,
                                                qr,
                                                ExprV::Pipeline {
                                                    lhs: Box::new(lhs),
                                                    rhs: Box::new(next),
                                                },
                                                (f - 1) as nat,
                                            )
                                        }
                                    },
                                }
                            }
                        } else {
                            (Err(ErrV::UnsupportedPipelineMethod(m)), q + 1)
                        }
                    },
                    other => (Err(ErrV::ExpectedChainIdentifier(other)), next_pos(ts, q)),
                }
            },
            _ => (Ok(lhs), p),
        }
    }
}

/// The arguments of `Process(cmd, [..])` from `p` up to the closing `]`
/// (or the end), each optionally followed by a comma; `acc` holds those read.
pub open spec fn args_at(ts: Seq<TokV>, p: int, acc: Seq<ExprV>, f: nat) -> (
    Result<Seq<ExprV>, ErrV>,
    int,
)
    decreases f, 3int,
{
    if f == 0 {
        arbitrary()
    } else if tok_at(ts, p) == TokV::RBracket || tok_at(ts, p) == TokV::EOF {
        (Ok(acc), p)
    } else {
        let (r, q) = expr_at(ts, p, (f - 1) as nat);
        match r {
            Err(e) => (Err(e), q),
            Ok(a) => {
                let q2 = if tok_at(ts, q) == TokV::Comma {
                    q + 1
                } else {
                    q
                };
                args_at(ts, q2, acc.push(a), (f - 1) as nat)
            },
        }
    }
}

/// A primary expression: an integer, a string, or `Process("cmd")`, or
/// `Process("cmd", [args])`.
pub open spec fn primary_at(ts: Seq<TokV>, p: int, f: nat) -> (Result<ExprV, ErrV>, int)
    decreases f, 0int,
{
    if f == 0 {
        arbitrary()
    } else {
        let q = next_pos(ts, p);
        match tok_at(ts, p) {
            TokV::IntLiteral(v) => (Ok(ExprV::IntegerLiteral(v)), q),
            TokV::StringLiteral(s) => (Ok(ExprV::StringLiteral(s)), q),
            TokV::Ident(name) => {
                if name == "Process"@ {
                    let (rl, q1) = expect_at(ts, q, TokV::LParen);
                    if rl is Err {
                        (Err(rl->Err_0), q1)
                    } else {
                        match tok_at(ts, q1) {
                            TokV::StringLiteral(cmd) => {
                                let q2 = q1 + 1;
                                if tok_at(ts, q2) == TokV::Comma {
                                    let (rb, q4) = expect_at(ts, q2 + 1, TokV::LBracket);
                                    if rb is Err {
                                        (Err(rb->Err_0), q4)
                                    } else {
                                        let (ra, qa) = args_at(ts, q4, seq![], (f - 1) as nat);
                                        match ra {
                                            Err(e) => (Err(e), qa),
                                            Ok(args) => {
                                                let (rc, qc) = expect_at(ts, qa, TokV::RBracket);
                                                if rc is Err {
                                                    (Err(rc->Err_0), qc)
                                                } else {
                                                    let (rp, qp) = expect_at(ts, qc, TokV::RParen);
                                                    if rp is Err {
                                                        (Err(rp->Err_0), qp)
                                                    } else {
                                                        (
                                                            Ok(
                                                                ExprV::ProcessCall {
                                                                    command: cmd,
                                                                    args,
                                                                },
                                                            ),
                                                            qp,
                                                        )
                                                    }
                                                }
                                            },
                                        }
                                    }
                                } else {
                                    let (rp, qp) = expect_at(ts, q2, TokV::RParen);
                                    if rp is Err {
                                        (Err(rp->Err_0), qp)
                                    } else {
                                        (Ok(ExprV::ProcessCall { command: cmd, args: seq![] }), qp)
                                    }
                                }
                            },
                            other => (Err(ErrV::ProcessCommandNotString(other)), next_pos(ts, q1)),
                        }
                    }
                } else {
                    (Err(ErrV::UnexpectedExpressionToken(TokV::Ident(name))), q)
                }
            },
            other => (Err(ErrV::UnexpectedExpressionToken(other)), q),
        }
    }
}

/// A parameter `name: type`.
pub open spec fn argument_at(ts: Seq<TokV>, p: int, f: nat) -> (Result<VarDeclV, ErrV>, int) {
    let q = next_pos(ts, p);
    match tok_at(ts, p) {
        TokV::Ident(name) => {
            let (rc, qc) = expect_at(ts, q, TokV::Colon);
            if rc is Err {
                (Err(rc->Err_0), qc)
            } else {
                let (rt, qt) = type_at(ts, qc, f);
                match rt {
                    Err(e) => (Err(e), qt),
                    Ok(t) => (Ok(VarDeclV { name, var_type: t, initial_value: None }), qt),
                }
            }
        },
        other => (Err(ErrV::ExpectedParameterName(other)), q),
    }
}

/// Parameters from `p` up to the closing `)` (or the end), each optionally
/// followed by a comma; `acc` holds those read.
pub open spec fn params_at(ts: Seq<TokV>, p: int, acc: Seq<VarDeclV>, f: nat) -> (
    Result<Seq<VarDeclV>, ErrV>,
    int,
)
    decreases f,
{
    if f == 0 {
        arbitrary()
    } else if tok_at(ts, p) == TokV::RParen || tok_at(ts, p) == TokV::EOF {
        (Ok(acc), p)
    } else {
        let (r, q) = argument_at(ts, p, (f - 1) as nat);
        match r {
            Err(e) => (Err(e), q),
            Ok(a) => {
                let q2 = if tok_at(ts, q) == TokV::Comma {
                    q + 1
                } else {
                    q
                };
                params_at(ts, q2, acc.push(a), (f - 1) as nat)
            },
        }
    }
}

/// `jit!("path");`
pub open spec fn jit_at(ts: Seq<TokV>, p: int) -> (Result<StmtV, ErrV>, int) {
    let (r1, q1) = expect_at(ts, p, TokV::Jit);
    let (r2, q2) = expect_at(ts, q1, TokV::Exclamation);
    let (r3, q3) = expect_at(ts, q2, TokV::LParen);
    if r1 is Err {
        (Err(r1->Err_0), q1)
    } else if r2 is Err {
        (Err(r2->Err_0), q2)
    } else if r3 is Err {
        (Err(r3->Err_0), q3)
    } else {
        match tok_at(ts, q3) {
            TokV::StringLiteral(path) => {
                let (r4, q4) = expect_at(ts, q3 + 1, TokV::RParen);
                let (r5, q5) = expect_at(ts, q4, TokV::Semicolon);
                if r4 is Err {
                    (Err(r4->Err_0), q4)
                } else if r5 is Err {
                    (Err(r5->Err_0), q5)
                } else {
                    (Ok(StmtV::JitDirective(path)), q5)
                }
            },
            other => (Err(ErrV::ExpectedJitPath(other)), next_pos(ts, q3)),
        }
    }
}

/// `let name: type;` or `let name: type = expression;`
pub open spec fn var_decl_at(ts: Seq<TokV>, p: int, f: nat) -> (Result<StmtV, ErrV>, int) {
    let (r0, q0) = expect_at(ts, p, TokV::Let);
    if r0 is Err {
        (Err(r0->Err_0), q0)
    } else {
        let q = next_pos(ts, q0);
        match tok_at(ts, q0) {
            TokV::Ident(name) => {
                let (rc, qc) = expect_at(ts, q, TokV::Colon);
                if rc is Err {
                    (Err(rc->Err_0), qc)
                } else {
                    let (rt, qt) = type_at(ts, qc, f);
                    match rt {
                        Err(e) => (Err(e), qt),
                        Ok(t) => {
                            let (ri, qi): (Result<Option<ExprV>, ErrV>, int) = if tok_at(ts, qt)
                                == TokV::Assign {
                                let (re, qe) = expr_at(ts, qt + 1, f);
                                match re {
                                    Err(e) => (Err(e), qe),
                                    Ok(e) => (Ok(Some(e)), qe),
                                }
                            } else {
                                (Ok(None), qt)
                            };
                            match ri {
                                Err(e) => (Err(e), qi),
                                Ok(init) => {
                                    let (rs, qs) = expect_at(ts, qi, TokV::Semicolon);
                                    if rs is Err {
                                        (Err(rs->Err_0), qs)
                                    } else {
                                        (
                                            Ok(
                                                StmtV::VarDecl {
                                                    name,
                                                    var_type: t,
                                                    initial_value: init,
                                                },
                                            ),
                                            qs,
                                        )
                                    }
                                },
                            }
                        },
                    }
                }
            },
            other => (Err(ErrV::ExpectedVariableName(other)), q),
        }
    }
}

/// `fn name(params) body`, `fn name(params) -> type body`, or
/// `fn name(params) -> !type body` (an error contract).
pub open spec fn fn_decl_at(ts: Seq<TokV>, p: int, f: nat) -> (Result<StmtV, ErrV>, int)
    decreases f, 1int,
{
    if f == 0 {
        arbitrary()
    } else {
        let (r0, q0) = expect_at(ts, p, TokV::Fn);
        if r0 is Err {
            (Err(r0->Err_0), q0)
        } else {
            let q = next_pos(ts, q0);
            match tok_at(ts, q0) {
                TokV::Ident(fn_name) => {
                    let (rl, ql) = expect_at(ts, q, TokV::LParen);
                    if rl is Err {
                        (Err(rl->Err_0), ql)
                    } else {
                        let (ra, qa) = params_at(ts, ql, seq![], (f - 1) as nat);
                        match ra {
                            Err(e) => (Err(e), qa),
                            Ok(args) => fn_decl_tail(ts, qa, fn_name, args, f),
                        }
                    }
                },
                other => (Err(ErrV::ExpectedFunctionName(other)), q),
            }
        }
    }
}

/// What follows the parameters of a function declaration: `)`, the optional
/// return type, and the body.
pub open spec fn fn_decl_tail(
    ts: Seq<TokV>,
    qa: int,
    fn_name: Seq<char>,
    args: Seq<VarDeclV>,
    f: nat,
) -> (Result<StmtV, ErrV>, int)
    decreases f, 0int,
{
    if f == 0 {
        arbitrary()
    } else {
        let (rr, qr) = expect_at(ts, qa, TokV::RParen);
        if rr is Err {
            (Err(rr->Err_0), qr)
        } else {
            let (rt, qt): (Result<(Option<TypeNode>, bool), ErrV>, int) = if tok_at(ts, qr)
                == TokV::Arrow {
                let qx = qr + 1;
                let contract = tok_at(ts, qx) == TokV::Exclamation;
                let qy = if contract {
                    qx + 1
                } else {
                    qx
                };
                let (rty, qty) = type_at(ts, qy, (f - 1) as nat);
                match rty {
                    Err(e) => (Err(e), qty),
                    Ok(t) => (Ok((Some(t), contract)), qty),
                }
            } else {
                (Ok((None, false)), qr)
            };
            match rt {
                Err(e) => (Err(e), qt),
                Ok((return_type, is_error_contract)) => {
                    let (rb, qb) = block_at(ts, qt, (f - 1) as nat);
                    match rb {
                        Err(e) => (Err(e), qb),
                        Ok(body) => (
                            Ok(StmtV::FnDecl { fn_name, args, return_type, is_error_contract, body }),
                            qb,
                        ),
                    }
                },
            }
        }
    }
}

/// `check block except block`
pub open spec fn check_at(ts: Seq<TokV>, p: int, f: nat) -> (Result<StmtV, ErrV>, int)
    decreases f, 1int,
{
    if f == 0 {
        arbitrary()
    } else {
        let (r0, q0) = expect_at(ts, p, TokV::Check);
        if r0 is Err {
            (Err(r0->Err_0), q0)
        } else {
            let (rc, qc) = block_at(ts, q0, (f - 1) as nat);
            match rc {
                Err(e) => (Err(e), qc),
                Ok(check_block) => {
                    let (re, qe) = expect_at(ts, qc, TokV::Except);
                    if re is Err {
                        (Err(re->Err_0), qe)
                    } else {
                        let (rx, qx) = block_at(ts, qe, (f - 1) as nat);
                        match rx {
                            Err(e) => (Err(e), qx),
                            Ok(except_block) => (
                                Ok(StmtV::CheckExcept { check_block, except_block }),
                                qx,
                            ),
                        }
                    }
                },
            }
        }
    }
}

/// `{ statements }`
pub open spec fn block_at(ts: Seq<TokV>, p: int, f: nat) -> (Result<Seq<StmtV>, ErrV>, int)
    decreases f, 0int,
{
    if f == 0 {
        arbitrary()
    } else {
        let (r0, q0) = expect_at(ts, p, TokV::LBrace);
        if r0 is Err {
            (Err(r0->Err_0), q0)
        } else {
            let (rs, qs) = stmts_at(ts, q0, seq![], (f - 1) as nat);
            match rs {
                Err(e) => (Err(e), qs),
                Ok(body) => {
                    let (rb, qb) = expect_at(ts, qs, TokV::RBrace);
                    if rb is Err {
                        (Err(rb->Err_0), qb)
                    } else {
                        (Ok(body), qb)
                    }
                },
            }
        }
    }
}

/// Statements from `p` up to the closing `}` (or the end); `acc` holds those read.
pub open spec fn stmts_at(ts: Seq<TokV>, p: int, acc: Seq<StmtV>, f: nat) -> (
    Result<Seq<StmtV>, ErrV>,
    int,
)
    decreases f, 3int,
{
    if f == 0 {
        arbitrary()
    } else if tok_at(ts, p) == TokV::RBrace || tok_at(ts, p) == TokV::EOF {
        (Ok(acc), p)
    } else {
        let (r, q) = statement_at(ts, p, (f - 1) as nat);
        match r {
            Err(e) => (Err(e), q),
            Ok(s) => stmts_at(ts, q, acc.push(s), (f - 1) as nat),
        }
    }
}

/// A statement, chosen by its first token.
pub open spec fn statement_at(ts: Seq<TokV>, p: int, f: nat) -> (Result<StmtV, ErrV>, int)
    decreases f, 2int,
{
    if f == 0 {
        arbitrary()
    } else {
        match tok_at(ts, p) {
            TokV::Let => var_decl_at(ts, p, (f - 1) as nat),
            TokV::Fn => fn_decl_at(ts, p, (f - 1) as nat),
            TokV::Jit => jit_at(ts, p),
            TokV::Check => check_at(ts, p, (f - 1) as nat),
            other => (Err(ErrV::UnexpectedStatement(other)), p),
        }
    }
}

/// Statements from `p` up to the end; `acc` holds those read.
pub open spec fn program_at(ts: Seq<TokV>, p: int, acc: Seq<StmtV>, f: nat) -> (
    Result<Seq<StmtV>, ErrV>,
    int,
)
    decreases f,
{
    if f == 0 {
        arbitrary()
    } else if tok_at(ts, p) == TokV::EOF {
        (Ok(acc), p)
    } else {
        let (r, q) = statement_at(ts, p, (f - 1) as nat);
        match r {
            Err(e) => (Err(e), q),
            Ok(s) => program_at(ts, q, acc.push(s), (f - 1) as nat),
        }
    }
}

/// The result of parsing statements from position `p` up to the end, and the
/// position where the parser stops.
pub open spec fn parse_program_spec(ts: Seq<TokV>, p: int) -> (Result<Seq<StmtV>, ErrV>, int) {
    program_at(ts, p, seq![], (budget(ts, p) + 4) as nat)
}

// ---------------------------------------------------------------------------
// The recursion bound does not matter once it is large enough: with any bound
// above the one the parser starts with, each grammar function gives the same
// result, and it never moves backwards.
// ---------------------------------------------------------------------------

proof fn lemma_type_fuel(ts: Seq<TokV>, p: int, f1: nat, f2: nat)
    requires
        0 <= p <= ts.len(),
        f1 > budget(ts, p) + 1,
        f2 >= f1,
    ensures
        type_at(ts, p, f1) == type_at(ts, p, f2),
        p <= type_at(ts, p, f1).1 <= ts.len(),
        type_at(ts, p, f1).0 is Ok ==> p < type_at(ts, p, f1).1,
    decreases f1,
{
    let q = next_pos(ts, p);
    match tok_at(ts, p) {
        TokV::Ident(t) => {
            if primitive_type(t) is None && t == "HashMap"@ {
                let (r1, q1) = expect_at(ts, q, TokV::Ident(map_open_text()));
                if r1 is Ok {
                    lemma_type_fuel(ts, q1, (f1 - 1) as nat, (f2 - 1) as nat);
                    let (rk, qk) = type_at(ts, q1, (f1 - 1) as nat);
                    if rk is Ok {
                        let (rc, qc) = expect_at(ts, qk, TokV::Comma);
                        if rc is Ok {
                            lemma_type_fuel(ts, qc, (f1 - 1) as nat, (f2 - 1) as nat);
                        }
                    }
                }
            }
        },
        TokV::LBracket => {
            lemma_type_fuel(ts, q, (f1 - 1) as nat, (f2 - 1) as nat);
        },
        _ => {},
    }
}

proof fn lemma_expr_fuel(ts: Seq<TokV>, p: int, f1: nat, f2: nat)
    requires
        0 <= p <= ts.len(),
        f1 > budget(ts, p) + 2,
        f2 >= f1,
    ensures
        expr_at(ts, p, f1) == expr_at(ts, p, f2),
        p <= expr_at(ts, p, f1).1 <= ts.len(),
        expr_at(ts, p, f1).0 is Ok ==> p < expr_at(ts, p, f1).1,
    decreases f1,
{
    lemma_primary_fuel(ts, p, (f1 - 1) as nat, (f2 - 1) as nat);
    let (r, q) = primary_at(ts, p, (f1 - 1) as nat);
    if r is Ok {
        lemma_postfix_fuel(ts, q, r->Ok_0, (f1 - 1) as nat, (f2 - 1) as nat);
    }
}

proof fn lemma_postfix_fuel(ts: Seq<TokV>, p: int, lhs: ExprV, f1: nat, f2: nat)
    requires
        0 <= p <= ts.len(),
        f1 > budget(ts, p) + 1,
        f2 >= f1,
    ensures
        postfix_at(ts, p, lhs, f1) == postfix_at(ts, p, lhs, f2),
        p <= postfix_at(ts, p, lhs, f1).1 <= ts.len(),
    decreases f1,
{
    match tok_at(ts, p) {
        TokV::LBracket => {
            lemma_expr_fuel(ts, p + 1, (f1 - 1) as nat, (f2 - 1) as nat);
            let (ri, qi) = expr_at(ts, p + 1, (f1 - 1) as nat);
            if ri is Ok {
                let (rb, qb) = expect_at(ts, qi, TokV::RBracket);
                if rb is Ok {
                    lemma_postfix_fuel(
                        ts,
                        qb,
                        ExprV::IndexAccess { aggregate: Box::new(lhs), index: Box::new(ri->Ok_0) },
                        (f1 - 1) as nat,
                        (f2 - 1) as nat,
                    );
                }
            }
        },
        TokV::Dot => {
            let q = p + 1;
            match tok_at(ts, q) {
                TokV::Ident(m) => {
                    if m == "then"@ {
                        let (rl, ql) = expect_at(ts, q + 1, TokV::LParen);
                        if rl is Ok {
                            lemma_expr_fuel(ts, ql, (f1 - 1) as nat, (f2 - 1) as nat);
                            let (rn, qn) = expr_at(ts, ql, (f1 - 1) as nat);
                            if rn is Ok {
                                let (rr, qr) = expect_at(ts, qn, TokV::RParen);
                                if rr is Ok {
                                    lemma_postfix_fuel(
                                        ts,
                                        qr,
                                        ExprV::Pipeline {
                                            lhs: Box::new(lhs),
                                            rhs: Box::new(rn->Ok_0),
                                        },
                                        (f1 - 1) as nat,
                                        (f2 - 1) as nat,
                                    );
                                }
                            }
                        }
                    }
                },
                _ => {},
            }
        },
        _ => {},
    }
}

proof fn lemma_args_fuel(ts: Seq<TokV>, p: int, acc: Seq<ExprV>, f1: nat, f2: nat)
    requires
        0 <= p <= ts.len(),
        f1 > budget(ts, p) + 3,
        f2 >= f1,
    ensures
        args_at(ts, p, acc, f1) == args_at(ts, p, acc, f2),
        p <= args_at(ts, p, acc, f1).1 <= ts.len(),
    decreases f1,
{
    if !(tok_at(ts, p) == TokV::RBracket || tok_at(ts, p) == TokV::EOF) {
        lemma_expr_fuel(ts, p, (f1 - 1) as nat, (f2 - 1) as nat);
        let (r, q) = expr_at(ts, p, (f1 - 1) as nat);
        if r is Ok {
            let q2 = if tok_at(ts, q) == TokV::Comma {
                q + 1
            } else {
                q
            };
            lemma_args_fuel(ts, q2, acc.push(r->Ok_0), (f1 - 1) as nat, (f2 - 1) as nat);
        }
    }
}

proof fn lemma_primary_fuel(ts: Seq<TokV>, p: int, f1: nat, f2: nat)
    requires
        0 <= p <= ts.len(),
        f1 > budget(ts, p) + 1,
        f2 >= f1,
    ensures
        primary_at(ts, p, f1) == primary_at(ts, p, f2),
        p <= primary_at(ts, p, f1).1 <= ts.len(),
        primary_at(ts, p, f1).0 is Ok ==> p < primary_at(ts, p, f1).1,
    decreases f1,
{
    let q = next_pos(ts, p);
    match tok_at(ts, p) {
        TokV::Ident(name) => {
            if name == "Process"@ {
                let (rl, q1) = expect_at(ts, q, TokV::LParen);
                if rl is Ok {
                    match tok_at(ts, q1) {
                        TokV::StringLiteral(cmd) => {
                            let q2 = q1 + 1;
                            if tok_at(ts, q2) == TokV::Comma {
                                let (rb, q4) = expect_at(ts, q2 + 1, TokV::LBracket);
                                if rb is Ok {
                                    lemma_args_fuel(ts, q4, seq![], (f1 - 1) as nat, (f2 - 1) as nat);
                                }
                            }
                        },
                        _ => {},
                    }
                }
            }
        },
        _ => {},
    }
}

proof fn lemma_argument_fuel(ts: Seq<TokV>, p: int, f1: nat, f2: nat)
    requires
        0 <= p <= ts.len(),
        f1 > budget(ts, p) + 1,
        f2 >= f1,
    ensures
        argument_at(ts, p, f1) == argument_at(ts, p, f2),
        p <= argument_at(ts, p, f1).1 <= ts.len(),
        argument_at(ts, p, f1).0 is Ok ==> p < argument_at(ts, p, f1).1,
{
    let q = next_pos(ts, p);
    match tok_at(ts, p) {
        TokV::Ident(name) => {
            let (rc, qc) = expect_at(ts, q, TokV::Colon);
            if rc is Ok {
                lemma_type_fuel(ts, qc, f1, f2);
            }
        },
        _ => {},
    }
}

proof fn lemma_params_fuel(ts: Seq<TokV>, p: int, acc: Seq<VarDeclV>, f1: nat, f2: nat)
    requires
        0 <= p <= ts.len(),
        f1 > budget(ts, p) + 2,
        f2 >= f1,
    ensures
        params_at(ts, p, acc, f1) == params_at(ts, p, acc, f2),
        p <= params_at(ts, p, acc, f1).1 <= ts.len(),
    decreases f1,
{
    if !(tok_at(ts, p) == TokV::RParen || tok_at(ts, p) == TokV::EOF) {
        lemma_argument_fuel(ts, p, (f1 - 1) as nat, (f2 - 1) as nat);
        let (r, q) = argument_at(ts, p, (f1 - 1) as nat);
        if r is Ok {
            let q2 = if tok_at(ts, q) == TokV::Comma {
                q + 1
            } else {
                q
            };
            lemma_params_fuel(ts, q2, acc.push(r->Ok_0), (f1 - 1) as nat, (f2 - 1) as nat);
        }
    }
}

proof fn lemma_var_decl_fuel(ts: Seq<TokV>, p: int, f1: nat, f2: nat)
    requires
        0 <= p <= ts.len(),
        f1 > budget(ts, p) + 1,
        f2 >= f1,
    ensures
        var_decl_at(ts, p, f1) == var_decl_at(ts, p, f2),
        p <= var_decl_at(ts, p, f1).1 <= ts.len(),
        var_decl_at(ts, p, f1).0 is Ok ==> p < var_decl_at(ts, p, f1).1,
{
    let (r0, q0) = expect_at(ts, p, TokV::Let);
    if r0 is Ok {
        let q = next_pos(ts, q0);
        match tok_at(ts, q0) {
            TokV::Ident(name) => {
                let (rc, qc) = expect_at(ts, q, TokV::Colon);
                if rc is Ok {
                    lemma_type_fuel(ts, qc, f1, f2);
                    let (rt, qt) = type_at(ts, qc, f1);
                    if rt is Ok && tok_at(ts, qt) == TokV::Assign {
                        lemma_expr_fuel(ts, qt + 1, f1, f2);
                    }
                }
            },
            _ => {},
        }
    }
}

proof fn lemma_jit_progress(ts: Seq<TokV>, p: int)
    requires
        0 <= p <= ts.len(),
    ensures
        p <= jit_at(ts, p).1 <= ts.len(),
        jit_at(ts, p).0 is Ok ==> p < jit_at(ts, p).1,
{
}

proof fn lemma_fn_decl_fuel(ts: Seq<TokV>, p: int, f1: nat, f2: nat)
    requires
        0 <= p <= ts.len(),
        f1 > budget(ts, p) + 1,
        f2 >= f1,
    ensures
        fn_decl_at(ts, p, f1) == fn_decl_at(ts, p, f2),
        p <= fn_decl_at(ts, p, f1).1 <= ts.len(),
        fn_decl_at(ts, p, f1).0 is Ok ==> p < fn_decl_at(ts, p, f1).1,
    decreases f1, 1int,
{
    let (r0, q0) = expect_at(ts, p, TokV::Fn);
    if r0 is Ok {
        let q = next_pos(ts, q0);
        match tok_at(ts, q0) {
            TokV::Ident(fn_name) => {
                let (rl, ql) = expect_at(ts, q, TokV::LParen);
                if rl is Ok {
                    lemma_params_fuel(ts, ql, seq![], (f1 - 1) as nat, (f2 - 1) as nat);
                    let (ra, qa) = params_at(ts, ql, seq![], (f1 - 1) as nat);
                    if ra is Ok {
                        lemma_fn_decl_tail_fuel(ts, qa, fn_name, ra->Ok_0, f1, f2);
                    }
                }
            },
            _ => {},
        }
    }
}

proof fn lemma_fn_decl_tail_fuel(
    ts: Seq<TokV>,
    qa: int,
    fn_name: Seq<char>,
    args: Seq<VarDeclV>,
    f1: nat,
    f2: nat,
)
    requires
        0 <= qa <= ts.len(),
        f1 > budget(ts, qa) + 1,
        f2 >= f1,
    ensures
        fn_decl_tail(ts, qa, fn_name, args, f1) == fn_decl_tail(ts, qa, fn_name, args, f2),
        qa <= fn_decl_tail(ts, qa, fn_name, args, f1).1 <= ts.len(),
    decreases f1, 0int,
{
    let (rr, qr) = expect_at(ts, qa, TokV::RParen);
    if rr is Ok {
        if tok_at(ts, qr) == TokV::Arrow {
            let qx = qr + 1;
            let contract = tok_at(ts, qx) == TokV::Exclamation;
            let qy = if contract {
                qx + 1
            } else {
                qx
            };
            lemma_type_fuel(ts, qy, (f1 - 1) as nat, (f2 - 1) as nat);
            let (rty, qty) = type_at(ts, qy, (f1 - 1) as nat);
            if rty is Ok {
                lemma_block_fuel(ts, qty, (f1 - 1) as nat, (f2 - 1) as nat);
            }
        } else {
            lemma_block_fuel(ts, qr, (f1 - 1) as nat, (f2 - 1) as nat);
        }
    }
}

proof fn lemma_check_fuel(ts: Seq<TokV>, p: int, f1: nat, f2: nat)
    requires
        0 <= p <= ts.len(),
        f1 > budget(ts, p) + 1,
        f2 >= f1,
    ensures
        check_at(ts, p, f1) == check_at(ts, p, f2),
        p <= check_at(ts, p, f1).1 <= ts.len(),
        check_at(ts, p, f1).0 is Ok ==> p < check_at(ts, p, f1).1,
    decreases f1, 0int,
{
    let (r0, q0) = expect_at(ts, p, TokV::Check);
    if r0 is Ok {
        lemma_block_fuel(ts, q0, (f1 - 1) as nat, (f2 - 1) as nat);
        let (rc, qc) = block_at(ts, q0, (f1 - 1) as nat);
        if rc is Ok {
            let (re, qe) = expect_at(ts, qc, TokV::Except);
            if re is Ok {
                lemma_block_fuel(ts, qe, (f1 - 1) as nat, (f2 - 1) as nat);
            }
        }
    }
}

proof fn lemma_block_fuel(ts: Seq<TokV>, p: int, f1: nat, f2: nat)
    requires
        0 <= p <= ts.len(),
        f1 > budget(ts, p) + 1,
        f2 >= f1,
    ensures
        block_at(ts, p, f1) == block_at(ts, p, f2),
        p <= block_at(ts, p, f1).1 <= ts.len(),
        block_at(ts, p, f1).0 is Ok ==> p < block_at(ts, p, f1).1,
    decreases f1, 0int,
{
    let (r0, q0) = expect_at(ts, p, TokV::LBrace);
    if r0 is Ok {
        lemma_stmts_fuel(ts, q0, seq![], (f1 - 1) as nat, (f2 - 1) as nat);
    }
}

proof fn lemma_stmts_fuel(ts: Seq<TokV>, p: int, acc: Seq<StmtV>, f1: nat, f2: nat)
    requires
        0 <= p <= ts.len(),
        f1 > budget(ts, p) + 3,
        f2 >= f1,
    ensures
        stmts_at(ts, p, acc, f1) == stmts_at(ts, p, acc, f2),
        p <= stmts_at(ts, p, acc, f1).1 <= ts.len(),
    decreases f1, 0int,
{
    if !(tok_at(ts, p) == TokV::RBrace || tok_at(ts, p) == TokV::EOF) {
        lemma_statement_fuel(ts, p, (f1 - 1) as nat, (f2 - 1) as nat);
        let (r, q) = statement_at(ts, p, (f1 - 1) as nat);
        if r is Ok {
            lemma_stmts_fuel(ts, q, acc.push(r->Ok_0), (f1 - 1) as nat, (f2 - 1) as nat);
        }
    }
}

proof fn lemma_statement_fuel(ts: Seq<TokV>, p: int, f1: nat, f2: nat)
    requires
        0 <= p <= ts.len(),
        f1 > budget(ts, p) + 2,
        f2 >= f1,
    ensures
        statement_at(ts, p, f1) == statement_at(ts, p, f2),
        p <= statement_at(ts, p, f1).1 <= ts.len(),
        statement_at(ts, p, f1).0 is Ok ==> p < statement_at(ts, p, f1).1,
    decreases f1, 0int,
{
    match tok_at(ts, p) {
        TokV::Let => lemma_var_decl_fuel(ts, p, (f1 - 1) as nat, (f2 - 1) as nat),
        TokV::Fn => lemma_fn_decl_fuel(ts, p, (f1 - 1) as nat, (f2 - 1) as nat),
        TokV::Jit => lemma_jit_progress(ts, p),
        TokV::Check => lemma_check_fuel(ts, p, (f1 - 1) as nat, (f2 - 1) as nat),
        _ => {},
    }
}

proof fn lemma_program_fuel(ts: Seq<TokV>, p: int, acc: Seq<StmtV>, f1: nat, f2: nat)
    requires
        0 <= p <= ts.len(),
        f1 > budget(ts, p) + 3,
        f2 >= f1,
    ensures
        program_at(ts, p, acc, f1) == program_at(ts, p, acc, f2),
    decreases f1,
{
    if tok_at(ts, p) != TokV::EOF {
        lemma_statement_fuel(ts, p, (f1 - 1) as nat, (f2 - 1) as nat);
        let (r, q) = statement_at(ts, p, (f1 - 1) as nat);
        if r is Ok {
            lemma_program_fuel(ts, q, acc.push(r->Ok_0), (f1 - 1) as nat, (f2 - 1) as nat);
        }
    }
}

/// After a function's parameters (whose `)` is at `qa`), the declaration has
/// a return type exactly when `->` follows, and is an error contract exactly
/// when that `->` is followed by `!`.
pub proof fn lemma_error_contract_marker_tail(
    ts: Seq<TokV>,
    qa: int,
    fn_name: Seq<char>,
    args: Seq<VarDeclV>,
    f: nat,
)
    requires
        f > 0,
        fn_decl_tail(ts, qa, fn_name, args, f).0 is Ok,
    ensures
        fn_decl_tail(ts, qa, fn_name, args, f).0->Ok_0 matches StmtV::FnDecl {
            return_type,
            is_error_contract,
            ..
        } && tok_at(ts, qa) == TokV::RParen && (return_type is Some <==> tok_at(ts, qa + 1)
            == TokV::Arrow) && (is_error_contract <==> (tok_at(ts, qa + 1) == TokV::Arrow
            && tok_at(ts, qa + 2) == TokV::Exclamation)),
{
}

/// A parsed function declaration is an error contract exactly when its
/// return type is written with a `!` after the `->`; without `->` it has no
/// return type and is no error contract.
pub proof fn lemma_error_contract_marker(ts: Seq<TokV>, p: int, f: nat)
    requires
        0 <= p <= ts.len(),
        f > budget(ts, p) + 1,
        fn_decl_at(ts, p, f).0 is Ok,
    ensures
        fn_decl_at(ts, p, f).0->Ok_0 matches StmtV::FnDecl { return_type, is_error_contract, .. }
            && exists|k: int|
            #![trigger tok_at(ts, k)]
            p < k && tok_at(ts, k) == TokV::RParen && (return_type is Some <==> tok_at(ts, k + 1)
                == TokV::Arrow) && (is_error_contract <==> (tok_at(ts, k + 1) == TokV::Arrow
                && tok_at(ts, k + 2) == TokV::Exclamation)),
{
    let (r0, q0) = expect_at(ts, p, TokV::Fn);
    let q = next_pos(ts, q0);
    let fn_name = tok_at(ts, q0)->Ident_0;
    let (rl, ql) = expect_at(ts, q, TokV::LParen);
    lemma_params_fuel(ts, ql, seq![], (f - 1) as nat, (f - 1) as nat);
    let (ra, qa) = params_at(ts, ql, seq![], (f - 1) as nat);
    lemma_error_contract_marker_tail(ts, qa, fn_name, ra->Ok_0, f);
}

/// What a program's statements start with: parsing from `p` keeps the
/// statements read before it, in order, and adds those that follow.
proof fn lemma_program_keeps_prefix(ts: Seq<TokV>, p: int, acc: Seq<StmtV>, f: nat)
    requires
        0 <= p <= ts.len(),
        f > budget(ts, p) + 3,
        program_at(ts, p, acc, f).0 is Ok,
    ensures
        acc.len() <= program_at(ts, p, acc, f).0->Ok_0.len(),
        forall|i: int|
            0 <= i < acc.len() ==> #[trigger] program_at(ts, p, acc, f).0->Ok_0[i] == acc[i],
    decreases f,
{
    if tok_at(ts, p) != TokV::EOF {
        lemma_statement_fuel(ts, p, (f - 1) as nat, (f - 1) as nat);
        let (r, q) = statement_at(ts, p, (f - 1) as nat);
        lemma_program_keeps_prefix(ts, q, acc.push(r->Ok_0), (f - 1) as nat);
        let out = program_at(ts, q, acc.push(r->Ok_0), (f - 1) as nat).0->Ok_0;
        assert forall|i: int| 0 <= i < acc.len() implies out[i] == acc[i] by {
            assert(out[i] == acc.push(r->Ok_0)[i]);
        }
    }
}

/// A program that starts with `fn` starts with a function declaration, and
/// that declaration is an error contract exactly when the `)` that closes its
/// parameters is followed by `->` and `!`; it has a return type exactly when
/// that `)` is followed by `->`.
pub proof fn lemma_program_error_contract(ts: Seq<TokV>, p: int)
    requires
        0 <= p <= ts.len(),
        tok_at(ts, p) == TokV::Fn,
        parse_program_spec(ts, p).0 is Ok,
    ensures
        parse_program_spec(ts, p).0->Ok_0.len() > 0,
        parse_program_spec(ts, p).0->Ok_0[0] matches StmtV::FnDecl {
            return_type,
            is_error_contract,
            ..
        } && exists|k: int|
            #![trigger tok_at(ts, k)]
            p < k && tok_at(ts, k) == TokV::RParen && (return_type is Some <==> tok_at(ts, k + 1)
                == TokV::Arrow) && (is_error_contract <==> (tok_at(ts, k + 1) == TokV::Arrow
                && tok_at(ts, k + 2) == TokV::Exclamation)),
{
    let f = (budget(ts, p) + 4) as nat;
    let (r, q) = statement_at(ts, p, (f - 1) as nat);
    assert(r == fn_decl_at(ts, p, (f - 2) as nat).0);
    lemma_error_contract_marker(ts, p, (f - 2) as nat);
    lemma_statement_fuel(ts, p, (f - 1) as nat, (f - 1) as nat);
    lemma_program_keeps_prefix(ts, q, seq![r->Ok_0], (f - 1) as nat);
    assert(parse_program_spec(ts, p).0->Ok_0[0] == seq![r->Ok_0][0]);
}

/// The bound on the depth of recursion that `parse_program_spec` fixes does
/// not matter: with any larger bound the grammar gives the same result.
pub proof fn lemma_parse_program_bound(ts: Seq<TokV>, p: int, f: nat)
    requires
        0 <= p <= ts.len(),
        f >= budget(ts, p) + 4,
    ensures
        program_at(ts, p, seq![], f) == parse_program_spec(ts, p),
{
    lemma_program_fuel(ts, p, seq![], (budget(ts, p) + 4) as nat, f);
}

// ---------------------------------------------------------------------------
// The parser.
// ---------------------------------------------------------------------------

/// A copy of a token.
fn copy_token(t: &Token) -> (r: Token)
    ensures
        r@ == t@,
{
    match t {
        Token::EOF => Token::EOF,
        Token::Ident(s) => Token::Ident(s.clone()),
        Token::IntLiteral(v) => Token::IntLiteral(*v),
        Token::StringLiteral(s) => Token::StringLiteral(s.clone()),
        Token::Let => Token::Let,
        Token::Fn => Token::Fn,
        Token::Jit => Token::Jit,
        Token::Check => Token::Check,
        Token::Except => Token::Except,
        Token::Colon => Token::Colon,
        Token::Assign => Token::Assign,
        Token::Semicolon => Token::Semicolon,
        Token::Comma => Token::Comma,
        Token::Dot => Token::Dot,
        Token::Arrow => Token::Arrow,
        Token::Exclamation => Token::Exclamation,
        Token::LParen => Token::LParen,
        Token::RParen => Token::RParen,
        Token::LBrace => Token::LBrace,
        Token::RBrace => Token::RBrace,
        Token::LBracket => Token::LBracket,
        Token::RBracket => Token::RBracket,
    }
}

/// Whether two tokens are equal.
fn same_token(a: &Token, b: &Token) -> (r: bool)
    ensures
        r == (a@ == b@),
{
    match a {
        Token::Ident(x) => match b {
            Token::Ident(y) => str_eq(x.as_str(), y.as_str()),
            _ => false,
        },
        Token::StringLiteral(x) => match b {
            Token::StringLiteral(y) => str_eq(x.as_str(), y.as_str()),
            _ => false,
        },
        Token::IntLiteral(x) => match b {
            Token::IntLiteral(y) => *x == *y,
            _ => false,
        },
        Token::EOF => matches!(b, Token::EOF),
        Token::Let => matches!(b, Token::Let),
        Token::Fn => matches!(b, Token::Fn),
        Token::Jit => matches!(b, Token::Jit),
        Token::Check => matches!(b, Token::Check),
        Token::Except => matches!(b, Token::Except),
        Token::Colon => matches!(b, Token::Colon),
        Token::Assign => matches!(b, Token::Assign),
        Token::Semicolon => matches!(b, Token::Semicolon),
        Token::Comma => matches!(b, Token::Comma),
        Token::Dot => matches!(b, Token::Dot),
        Token::Arrow => matches!(b, Token::Arrow),
        Token::Exclamation => matches!(b, Token::Exclamation),
        Token::LParen => matches!(b, Token::LParen),
        Token::RParen => matches!(b, Token::RParen),
        Token::LBrace => matches!(b, Token::LBrace),
        Token::RBrace => matches!(b, Token::RBrace),
        Token::LBracket => matches!(b, Token::LBracket),
        Token::RBracket => matches!(b, Token::RBracket),
    }
}

/// The primitive type that an identifier names.
fn primitive_type_of(t: &String) -> (r: Option<TypeNode>)
    ensures
        r == primitive_type(t@),
{
    let t = t.as_str();
    if str_eq(t, "bool") {
        Some(TypeNode::Bool)
    } else if str_eq(t, "i8") {
        Some(TypeNode::I8)
    } else if str_eq(t, "i16") {
        Some(TypeNode::I16)
    } else if str_eq(t, "i32") {
        Some(TypeNode::I32)
    } else if str_eq(t, "i64") {
        Some(TypeNode::I64)
    } else if str_eq(t, "i128") {
        Some(TypeNode::I128)
    } else if str_eq(t, "f32") {
        Some(TypeNode::F32)
    } else if str_eq(t, "f64") {
        Some(TypeNode::F64)
    } else {
        None
    }
}

pub struct Parser {
    tokens: Vec<Token>,
    position: usize,
}

impl Parser {
    /// The tokens being parsed.
    pub closed spec fn toks(&self) -> Seq<TokV> {
        self.tokens@.map_values(|t: Token| t@)
    }

    /// The position of the next token to read.
    pub closed spec fn pos(&self) -> int {
        self.position as int
    }

    /// The position lies within the tokens.
    pub closed spec fn wf(&self) -> bool {
        self.position <= self.tokens.len()
    }

    pub fn new(tokens: Vec<Token>) -> (parser: Self)
        ensures
            parser.wf(),
            parser.toks() == tokens@.map_values(|t: Token| t@),
            parser.pos() == 0,
    {
        Self { tokens, position: 0 }
    }

    // --- Core Navigation Infrastructure ---
    fn peek(&self) -> (r: Token)
        requires
            self.wf(),
        ensures
            r@ == tok_at(self.toks(), self.pos()),
    {
        if self.position < self.tokens.len() {
            copy_token(&self.tokens[self.position])
        } else {
            Token::EOF
        }
    }

    /// The token after the next one.
    fn peek_second(&self) -> (r: Token)
        requires
            self.wf(),
        ensures
            r@ == tok_at(self.toks(), self.pos() + 1),
    {
        if self.position < self.tokens.len() && self.position + 1 < self.tokens.len() {
            copy_token(&self.tokens[self.position + 1])
        } else {
            Token::EOF
        }
    }

    fn advance(&mut self) -> (r: Token)
        requires
            old(self).wf(),
        ensures
            final(self).wf(),
            final(self).toks() == old(self).toks(),
            r@ == tok_at(old(self).toks(), old(self).pos()),
            final(self).pos() == next_pos(old(self).toks(), old(self).pos()),
    {
        let current = self.peek();
        if !matches!(current, Token::EOF) {
            self.position += 1;
        }
        current
    }

    fn expect(&mut self, expected: Token) -> (r: Result<(), ParseError>)
        requires
            old(self).wf(),
        ensures
            final(self).wf(),
            final(self).toks() == old(self).toks(),
            (rview(r, |u: ()| u), final(self).pos()) == expect_at(
                old(self).toks(),
                old(self).pos(),
                expected@,
            ),
    {
        let current = self.advance();
        if same_token(&current, &expected) {
            Ok(())
        } else {
            Err(ParseError::Expected { expected, found: current })
        }
    }
    // --- Type Variant Parsing Engine ---
    fn parse_type(&mut self, Ghost(f): Ghost<nat>) -> (r: Result<TypeNode, ParseError>)
        requires
            old(self).wf(),
            f > budget(old(self).toks(), old(self).pos()) + 1,
        ensures
            final(self).wf(),
            final(self).toks() == old(self).toks(),
            old(self).pos() <= final(self).pos(),
            (rview(r, |t: TypeNode| t), final(self).pos()) == type_at(
                old(self).toks(),
                old(self).pos(),
                f,
            ),
        decreases f,
    {
        let ghost ts = self.toks();
        let ghost p = self.pos();
        match self.advance() {
            Token::Ident(t) => {
                match primitive_type_of(&t) {
                    Some(ty) => Ok(ty),
                    None => {
                        if str_eq(t.as_str(), "HashMap") {
                            let open = Token::Ident("less than symbol here".to_owned());
                            match self.expect(open) {
                                Ok(()) => {},
                                Err(e) => return Err(e),
                            }
                            let key = match self.parse_type(Ghost((f - 1) as nat)) {
                                Ok(k) => k,
                                Err(e) => return Err(e),
                            };
                            match self.expect(Token::Comma) {
                                Ok(()) => {},
                                Err(e) => return Err(e),
                            }
                            let value = match self.parse_type(Ghost((f - 1) as nat)) {
                                Ok(v) => v,
                                Err(e) => return Err(e),
                            };
                            // Consume closing '>'
                            self.advance();
                            Ok(TypeNode::HashMap(Box::new(key), Box::new(value)))
                        } else {
                            Err(ParseError::UnknownPrimitiveType(t))
                        }
                    },
                }
            },
            Token::LBracket => {
                let names_u8 = match self.peek() {
                    Token::Ident(t) => str_eq(t.as_str(), "u8"),
                    _ => false,
                };
                if names_u8 && matches!(self.peek_second(), Token::RBracket) {
                    self.advance();  // `u8`
                    self.advance();  // `]`
                    return Ok(TypeNode::U8Array);
                }
                let inner_type = match self.parse_type(Ghost((f - 1) as nat)) {
                    Ok(t) => t,
                    Err(e) => return Err(e),
                };
                if matches!(self.peek(), Token::Semicolon) {
                    self.advance();  // consume ';'
                    let size = match self.advance() {
                        Token::IntLiteral(s) => s as u32,
                        other => return Err(ParseError::ExpectedArraySize(other)),
                    };
                    match self.expect(Token::RBracket) {
                        Ok(()) => {},
                        Err(e) => return Err(e),
                    }
                    Ok(TypeNode::Array(Box::new(inner_type), size))
                } else {
                    match self.expect(Token::RBracket) {
                        Ok(()) => {},
                        Err(e) => return Err(e),
                    }
                    if matches!(inner_type, TypeNode::I8) {
                        Ok(TypeNode::U8Array)  // [u8] optimization mapping

                    } else {
                        Err(ParseError::InvalidArrayType)
                    }
                }
            },
            other => Err(ParseError::UnexpectedTypeToken(other)),
        }
    }

    // --- Expression Engine (Handles method cascading pipelines & arrays) ---
    fn parse_expression(&mut self, Ghost(f): Ghost<nat>) -> (r: Result<Expression, ParseError>)
        requires
            old(self).wf(),
            f > budget(old(self).toks(), old(self).pos()) + 2,
        ensures
            final(self).wf(),
            final(self).toks() == old(self).toks(),
            old(self).pos() <= final(self).pos(),
            (rview(r, |e: Expression| e@), final(self).pos()) == expr_at(
                old(self).toks(),
                old(self).pos(),
                f,
            ),
            r is Ok ==> old(self).pos() < final(self).pos(),
        decreases f, 2int,
    {
        let ghost ts = self.toks();
        let ghost p = self.pos();
        let mut expr = match self.parse_primary_expression(Ghost((f - 1) as nat)) {
            Ok(e) => e,
            Err(e) => return Err(e),
        };
        let ghost q0 = self.pos();
        let ghost e0 = expr@;
        let ghost mut g: nat = (f - 1) as nat;
        // Lookahead loop tracking index lookups (`[index]`) and fluent methods (`.then()`)
        loop
            invariant_except_break
                postfix_at(ts, self.pos(), expr@, g) == postfix_at(ts, q0, e0, (f - 1) as nat),
                g > budget(ts, self.pos()) + 1,
            invariant
                self.wf(),
                self.toks() == ts,
                ts == old(self).toks(),
                p == old(self).pos(),
                p < q0 <= self.pos(),
                g < f,
                expr_at(ts, p, f) == postfix_at(ts, q0, e0, (f - 1) as nat),
            ensures
                self.wf(),
                self.toks() == ts,
                p < self.pos(),
                postfix_at(ts, q0, e0, (f - 1) as nat) == (Ok::<ExprV, ErrV>(expr@), self.pos()),
            decreases g,
        {
            let ghost pos = self.pos();
            match self.peek() {
                Token::LBracket => {
                    self.advance();  // consume '['
                    let index = match self.parse_expression(Ghost((g - 1) as nat)) {
                        Ok(i) => i,
                        Err(e) => return Err(e),
                    };
                    match self.expect(Token::RBracket) {
                        Ok(()) => {},
                        Err(e) => return Err(e),
                    }
                    expr = Expression::IndexAccess { aggregate: Box::new(expr), index: Box::new(index) };
                    proof {
                        g = (g - 1) as nat;
                    }
                },
                Token::Dot => {
                    self.advance();  // consume '.'
                    let method = match self.advance() {
                        Token::Ident(name) => name,
                        other => return Err(ParseError::ExpectedChainIdentifier(other)),
                    };
                    if str_eq(method.as_str(), "then") {
                        match self.expect(Token::LParen) {
                            Ok(()) => {},
                            Err(e) => return Err(e),
                        }
                        let next_expr = match self.parse_expression(Ghost((g - 1) as nat)) {
                            Ok(n) => n,
                            Err(e) => return Err(e),
                        };
                        match self.expect(Token::RParen) {
                            Ok(()) => {},
                            Err(e) => return Err(e),
                        }
                        expr = Expression::Pipeline { lhs: Box::new(expr), rhs: Box::new(next_expr) };
                        proof {
                            g = (g - 1) as nat;
                        }
                    } else {
                        return Err(ParseError::UnsupportedPipelineMethod(method));
                    }
                },
                _ => break,
            }
        }
        Ok(expr)
    }

    fn parse_primary_expression(&mut self, Ghost(f): Ghost<nat>) -> (r: Result<
        Expression,
        ParseError,
    >)
        requires
            old(self).wf(),
            f > budget(old(self).toks(), old(self).pos()) + 1,
        ensures
            final(self).wf(),
            final(self).toks() == old(self).toks(),
            old(self).pos() <= final(self).pos(),
            (rview(r, |e: Expression| e@), final(self).pos()) == primary_at(
                old(self).toks(),
                old(self).pos(),
                f,
            ),
            r is Ok ==> old(self).pos() < final(self).pos(),
        decreases f, 0int,
    {
        let ghost ts = self.toks();
        let ghost p = self.pos();
        match self.advance() {
            Token::IntLiteral(val) => Ok(Expression::IntegerLiteral(val)),
            Token::StringLiteral(val) => Ok(Expression::StringLiteral(val)),
            Token::Ident(name) => {
                if str_eq(name.as_str(), "Process") {
                    match self.expect(Token::LParen) {
                        Ok(()) => {},
                        Err(e) => return Err(e),
                    }
                    let command = match self.advance() {
                        Token::StringLiteral(cmd) => cmd,
                        other => return Err(ParseError::ProcessCommandNotString(other)),
                    };
                    let mut args: Vec<Expression> = Vec::new();
                    if matches!(self.peek(), Token::Comma) {
                        self.advance();  // consume ','
                        match self.expect(Token::LBracket) {
                            Ok(()) => {},
                            Err(e) => return Err(e),
                        }
                        let ghost q4 = self.pos();
                        let ghost mut g: nat = (f - 1) as nat;
                        proof {
                            assert(exprs_view(args@) =~= seq![]);
                        }
                        loop
                            invariant_except_break
                                args_at(ts, self.pos(), exprs_view(args@), g) == args_at(
                                    ts,
                                    q4,
                                    seq![],
                                    (f - 1) as nat,
                                ),
                                g > budget(ts, self.pos()) + 3,
                            invariant
                                self.wf(),
                                self.toks() == ts,
                                ts == old(self).toks(),
                                p == old(self).pos(),
                                p < self.pos(),
                                g < f,
                                tok_at(ts, p) == TokV::Ident(name@),
                                name@ == "Process"@,
                                primary_at(ts, p, f) == ({
                                    let (ra, qa) = args_at(ts, q4, seq![], (f - 1) as nat);
                                    match ra {
                                        Err(e) => (Err(e), qa),
                                        Ok(args) => {
                                            let (rc, qc) = expect_at(ts, qa, TokV::RBracket);
                                            if rc is Err {
                                                (Err(rc->Err_0), qc)
                                            } else {
                                                let (rp, qp) = expect_at(ts, qc, TokV::RParen);
                                                if rp is Err {
                                                    (Err(rp->Err_0), qp)
                                                } else {
                                                    (
                                                        Ok(
                                                            ExprV::ProcessCall {
                                                                command: command@,
                                                                args,
                                                            },
                                                        ),
                                                        qp,
                                                    )
                                                }
                                            }
                                        },
                                    }
                                }),
                            ensures
                                self.wf(),
                                self.toks() == ts,
                                p < self.pos(),
                                args_at(ts, q4, seq![], (f - 1) as nat) == (
                                    Ok::<Seq<ExprV>, ErrV>(exprs_view(args@)),
                                    self.pos(),
                                ),
                            decreases g,
                        {
                            let next = self.peek();
                            if matches!(next, Token::RBracket) || matches!(next, Token::EOF) {
                                break;
                            }
                            let arg = match self.parse_expression(Ghost((g - 1) as nat)) {
                                Ok(a) => a,
                                Err(e) => return Err(e),
                            };
                            proof {
                                lemma_exprs_view_push(args@, arg);
                            }
                            args.push(arg);
                            if matches!(self.peek(), Token::Comma) {
                                self.advance();
                            }
                            proof {
                                g = (g - 1) as nat;
                            }
                        }
                        match self.expect(Token::RBracket) {
                            Ok(()) => {},
                            Err(e) => return Err(e),
                        }
                    }
                    match self.expect(Token::RParen) {
                        Ok(()) => {},
                        Err(e) => return Err(e),
                    }
                    let call = Expression::ProcessCall { command, args };
                    assert(call@ == ExprV::ProcessCall { command: command@, args: exprs_view(args@) });
                    assert(primary_at(ts, p, f) == (Ok::<ExprV, ErrV>(call@), self.pos()));
                    Ok(call)
                } else {
                    Err(ParseError::UnexpectedExpressionToken(Token::Ident(name)))
                }
            },
            other => Err(ParseError::UnexpectedExpressionToken(other)),
        }
    }

    // --- AST Parsing Rules ---
    pub fn parse_program(&mut self) -> (r: Result<Vec<Statement>, ParseError>)
        requires
            old(self).wf(),
        ensures
            final(self).wf(),
            final(self).toks() == old(self).toks(),
            (rview(r, |v: Vec<Statement>| stmts_view(v@)), final(self).pos())
                == parse_program_spec(old(self).toks(), old(self).pos()),
    {
        let ghost ts = self.toks();
        let ghost p0 = self.pos();
        let ghost f: nat = (budget(ts, p0) + 4) as nat;
        let mut program: Vec<Statement> = Vec::new();
        let ghost mut g: nat = f;
        proof {
            assert(stmts_view(program@) =~= seq![]);
        }
        loop
            invariant_except_break
                program_at(ts, self.pos(), stmts_view(program@), g) == program_at(
                    ts,
                    p0,
                    seq![],
                    f,
                ),
                g > budget(ts, self.pos()) + 3,
            invariant
                self.wf(),
                self.toks() == ts,
                ts == old(self).toks(),
                p0 == old(self).pos(),
                g <= f,
                f == budget(ts, p0) + 4,
            ensures
                self.wf(),
                self.toks() == ts,
                program_at(ts, p0, seq![], f) == (
                    Ok::<Seq<StmtV>, ErrV>(stmts_view(program@)),
                    self.pos(),
                ),
            decreases g,
        {
            if matches!(self.peek(), Token::EOF) {
                break;
            }
            let statement = match self.parse_statement(Ghost((g - 1) as nat)) {
                Ok(st) => st,
                Err(e) => return Err(e),
            };
            proof {
                lemma_stmts_view_push(program@, statement);
            }
            program.push(statement);
            proof {
                g = (g - 1) as nat;
            }
        }
        Ok(program)
    }

    fn parse_statement(&mut self, Ghost(f): Ghost<nat>) -> (r: Result<Statement, ParseError>)
        requires
            old(self).wf(),
            f > budget(old(self).toks(), old(self).pos()) + 2,
        ensures
            final(self).wf(),
            final(self).toks() == old(self).toks(),
            old(self).pos() <= final(self).pos(),
            (rview(r, |st: Statement| st@), final(self).pos()) == statement_at(
                old(self).toks(),
                old(self).pos(),
                f,
            ),
            r is Ok ==> old(self).pos() < final(self).pos(),
        decreases f, 2int,
    {
        match self.peek() {
            Token::Let => self.parse_variable_declaration(Ghost((f - 1) as nat)),
            Token::Fn => self.parse_function_declaration(Ghost((f - 1) as nat)),
            Token::Jit => self.parse_jit_directive(),
            Token::Check => self.parse_check_except(Ghost((f - 1) as nat)),
            other => Err(ParseError::UnexpectedStatement(other)),
        }
    }

    /// Parses: `let user_id: i64 = 42;`
    fn parse_variable_declaration(&mut self, Ghost(f): Ghost<nat>) -> (r: Result<
        Statement,
        ParseError,
    >)
        requires
            old(self).wf(),
            f > budget(old(self).toks(), old(self).pos()) + 1,
        ensures
            final(self).wf(),
            final(self).toks() == old(self).toks(),
            old(self).pos() <= final(self).pos(),
            (rview(r, |st: Statement| st@), final(self).pos()) == var_decl_at(
                old(self).toks(),
                old(self).pos(),
                f,
            ),
            r is Ok ==> old(self).pos() < final(self).pos(),
    {
        let ghost ts = self.toks();
        match self.expect(Token::Let) {
            Ok(()) => {},
            Err(e) => return Err(e),
        }
        let name = match self.advance() {
            Token::Ident(name) => name,
            other => return Err(ParseError::ExpectedVariableName(other)),
        };
        match self.expect(Token::Colon) {
            Ok(()) => {},
            Err(e) => return Err(e),
        }
        let var_type = match self.parse_type(Ghost(f)) {
            Ok(t) => t,
            Err(e) => return Err(e),
        };
        let initial_value = if matches!(self.peek(), Token::Assign) {
            self.advance();  // consume '='
            match self.parse_expression(Ghost(f)) {
                Ok(e) => Some(e),
                Err(e) => return Err(e),
            }
        } else {
            None
        };
        match self.expect(Token::Semicolon) {
            Ok(()) => {},
            Err(e) => return Err(e),
        }
        Ok(Statement::VarDecl { name, var_type, initial_value })
    }

    /// Parses: `fn open_file(path: [u8]) -> !i32 { ... }`
    fn parse_function_declaration(&mut self, Ghost(f): Ghost<nat>) -> (r: Result<
        Statement,
        ParseError,
    >)
        requires
            old(self).wf(),
            f > budget(old(self).toks(), old(self).pos()) + 1,
        ensures
            final(self).wf(),
            final(self).toks() == old(self).toks(),
            old(self).pos() <= final(self).pos(),
            (rview(r, |st: Statement| st@), final(self).pos()) == fn_decl_at(
                old(self).toks(),
                old(self).pos(),
                f,
            ),
            r is Ok ==> old(self).pos() < final(self).pos(),
        decreases f, 1int,
    {
        let ghost ts = self.toks();
        let ghost p = self.pos();
        match self.expect(Token::Fn) {
            Ok(()) => {},
            Err(e) => return Err(e),
        }
        let fn_name = match self.advance() {
            Token::Ident(name) => name,
            other => return Err(ParseError::ExpectedFunctionName(other)),
        };
        match self.expect(Token::LParen) {
            Ok(()) => {},
            Err(e) => return Err(e),
        }
        let ghost ql = self.pos();
        let mut args: Vec<VarDecl> = Vec::new();
        let ghost mut g: nat = (f - 1) as nat;
        proof {
            assert(var_decls_view(args@) =~= seq![]);
        }
        loop
            invariant_except_break
                params_at(ts, self.pos(), var_decls_view(args@), g) == params_at(
                    ts,
                    ql,
                    seq![],
                    (f - 1) as nat,
                ),
                g > budget(ts, self.pos()) + 2,
            invariant
                self.wf(),
                self.toks() == ts,
                ts == old(self).toks(),
                p == old(self).pos(),
                p < ql <= self.pos(),
                g < f,
                tok_at(ts, p + 1) == TokV::Ident(fn_name@),
                fn_decl_at(ts, p, f) == ({
                    let (ra, qa) = params_at(ts, ql, seq![], (f - 1) as nat);
                    match ra {
                        Err(e) => (Err(e), qa),
                        Ok(args) => fn_decl_tail(ts, qa, fn_name@, args, f),
                    }
                }),
            ensures
                self.wf(),
                self.toks() == ts,
                p < self.pos(),
                params_at(ts, ql, seq![], (f - 1) as nat) == (
                    Ok::<Seq<VarDeclV>, ErrV>(var_decls_view(args@)),
                    self.pos(),
                ),
            decreases g,
        {
            let next = self.peek();
            if matches!(next, Token::RParen) || matches!(next, Token::EOF) {
                break;
            }
            let arg = match self.parse_var_decl_argument(Ghost((g - 1) as nat)) {
                Ok(a) => a,
                Err(e) => return Err(e),
            };
            proof {
                lemma_var_decls_view_push(args@, arg);
            }
            args.push(arg);
            if matches!(self.peek(), Token::Comma) {
                self.advance();
            }
            proof {
                g = (g - 1) as nat;
            }
        }
        match self.expect(Token::RParen) {
            Ok(()) => {},
            Err(e) => return Err(e),
        }
        // Track standard return type details and if the '!' modifier is attached
        let mut return_type = None;
        let mut is_error_contract = false;
        if matches!(self.peek(), Token::Arrow) {
            self.advance();  // consume '->'
            if matches!(self.peek(), Token::Exclamation) {
                self.advance();  // consume '!'
                is_error_contract = true;
            }
            return_type = match self.parse_type(Ghost((f - 1) as nat)) {
                Ok(t) => Some(t),
                Err(e) => return Err(e),
            };
        }
        let body = match self.parse_block(Ghost((f - 1) as nat)) {
            Ok(b) => b,
            Err(e) => return Err(e),
        };
        Ok(Statement::FnDecl { fn_name, args, return_type, is_error_contract, body })
    }

    /// Helper for function argument blocks matching structural signatures
    fn parse_var_decl_argument(&mut self, Ghost(f): Ghost<nat>) -> (r: Result<
        VarDecl,
        ParseError,
    >)
        requires
            old(self).wf(),
            f > budget(old(self).toks(), old(self).pos()) + 1,
        ensures
            final(self).wf(),
            final(self).toks() == old(self).toks(),
            old(self).pos() <= final(self).pos(),
            (rview(r, |d: VarDecl| d@), final(self).pos()) == argument_at(
                old(self).toks(),
                old(self).pos(),
                f,
            ),
            r is Ok ==> old(self).pos() < final(self).pos(),
    {
        let name = match self.advance() {
            Token::Ident(name) => name,
            other => return Err(ParseError::ExpectedParameterName(other)),
        };
        match self.expect(Token::Colon) {
            Ok(()) => {},
            Err(e) => return Err(e),
        }
        let var_type = match self.parse_type(Ghost(f)) {
            Ok(t) => t,
            Err(e) => return Err(e),
        };
        Ok(VarDecl { name, var_type, initial_value: None })
    }

    /// Parses: `jit!("deploy.sh");`
    fn parse_jit_directive(&mut self) -> (r: Result<Statement, ParseError>)
        requires
            old(self).wf(),
        ensures
            final(self).wf(),
            final(self).toks() == old(self).toks(),
            old(self).pos() <= final(self).pos(),
            (rview(r, |st: Statement| st@), final(self).pos()) == jit_at(
                old(self).toks(),
                old(self).pos(),
            ),
            r is Ok ==> old(self).pos() < final(self).pos(),
    {
        match self.expect(Token::Jit) {
            Ok(()) => {},
            Err(e) => return Err(e),
        }
        match self.expect(Token::Exclamation) {
            Ok(()) => {},
            Err(e) => return Err(e),
        }
        match self.expect(Token::LParen) {
            Ok(()) => {},
            Err(e) => return Err(e),
        }
        let path = match self.advance() {
            Token::StringLiteral(s) => s,
            other => return Err(ParseError::ExpectedJitPath(other)),
        };
        match self.expect(Token::RParen) {
            Ok(()) => {},
            Err(e) => return Err(e),
        }
        match self.expect(Token::Semicolon) {
            Ok(()) => {},
            Err(e) => return Err(e),
        }
        Ok(Statement::JitDirective(path))
    }

    /// Parses structural: `check { ... } except { ... }`
    fn parse_check_except(&mut self, Ghost(f): Ghost<nat>) -> (r: Result<Statement, ParseError>)
        requires
            old(self).wf(),
            f > budget(old(self).toks(), old(self).pos()) + 1,
        ensures
            final(self).wf(),
            final(self).toks() == old(self).toks(),
            old(self).pos() <= final(self).pos(),
            (rview(r, |st: Statement| st@), final(self).pos()) == check_at(
                old(self).toks(),
                old(self).pos(),
                f,
            ),
            r is Ok ==> old(self).pos() < final(self).pos(),
        decreases f, 1int,
    {
        match self.expect(Token::Check) {
            Ok(()) => {},
            Err(e) => return Err(e),
        }
        let check_block = match self.parse_block(Ghost((f - 1) as nat)) {
            Ok(b) => b,
            Err(e) => return Err(e),
        };
        match self.expect(Token::Except) {
            Ok(()) => {},
            Err(e) => return Err(e),
        }
        let except_block = match self.parse_block(Ghost((f - 1) as nat)) {
            Ok(b) => b,
            Err(e) => return Err(e),
        };
        Ok(Statement::CheckExcept { check_block, except_block })
    }

    fn parse_block(&mut self, Ghost(f): Ghost<nat>) -> (r: Result<Vec<Statement>, ParseError>)
        requires
            old(self).wf(),
            f > budget(old(self).toks(), old(self).pos()) + 1,
        ensures
            final(self).wf(),
            final(self).toks() == old(self).toks(),
            old(self).pos() <= final(self).pos(),
            (rview(r, |v: Vec<Statement>| stmts_view(v@)), final(self).pos()) == block_at(
                old(self).toks(),
                old(self).pos(),
                f,
            ),
            r is Ok ==> old(self).pos() < final(self).pos(),
        decreases f, 0int,
    {
        let ghost ts = self.toks();
        let ghost p = self.pos();
        match self.expect(Token::LBrace) {
            Ok(()) => {},
            Err(e) => return Err(e),
        }
        let ghost q0 = self.pos();
        let mut statements: Vec<Statement> = Vec::new();
        let ghost mut g: nat = (f - 1) as nat;
        proof {
            assert(stmts_view(statements@) =~= seq![]);
        }
        loop
            invariant_except_break
                stmts_at(ts, self.pos(), stmts_view(statements@), g) == stmts_at(
                    ts,
                    q0,
                    seq![],
                    (f - 1) as nat,
                ),
                g > budget(ts, self.pos()) + 3,
            invariant
                self.wf(),
                self.toks() == ts,
                ts == old(self).toks(),
                p == old(self).pos(),
                p < q0 <= self.pos(),
                g < f,
                block_at(ts, p, f) == ({
                    let (rs, qs) = stmts_at(ts, q0, seq![], (f - 1) as nat);
                    match rs {
                        Err(e) => (Err(e), qs),
                        Ok(body) => {
                            let (rb, qb) = expect_at(ts, qs, TokV::RBrace);
                            if rb is Err {
                                (Err(rb->Err_0), qb)
                            } else {
                                (Ok(body), qb)
                            }
                        },
                    }
                }),
            ensures
                self.wf(),
                self.toks() == ts,
                p < self.pos(),
                stmts_at(ts, q0, seq![], (f - 1) as nat) == (
                    Ok::<Seq<StmtV>, ErrV>(stmts_view(statements@)),
                    self.pos(),
                ),
            decreases g,
        {
            let next = self.peek();
            if matches!(next, Token::RBrace) || matches!(next, Token::EOF) {
                break;
            }
            let statement = match self.parse_statement(Ghost((g - 1) as nat)) {
                Ok(st) => st,
                Err(e) => return Err(e),
            };
            proof {
                lemma_stmts_view_push(statements@, statement);
            }
            statements.push(statement);
            proof {
                g = (g - 1) as nat;
            }
        }
        match self.expect(Token::RBrace) {
            Ok(()) => {},
            Err(e) => return Err(e),
        }
        Ok(statements)
    }
}

} // verus!
