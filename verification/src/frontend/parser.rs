//! The front end's parser: it reads `let` declarations and passes over every
//! other statement token by token.
use vstd::prelude::*;
use super::ast::{lemma_nodes_view_push, nodes_view, ASTNode, NodeV};
use super::lexer::{TokV, Token, TokenInfo};

verus! {

/// The `let` declaration that starts at `c` (where the tokens hold `let`),
/// and the position after it; `None` where the parser panics: a token is
/// read past the end, the name is not an identifier, or the initial value
/// is not a literal.
pub open spec fn var_decl_at(ts: Seq<TokV>, c: int) -> Option<(NodeV, int)> {
    let c1 = c + 1;
    if !(0 <= c && c1 < ts.len()) {
        None
    } else {
        let is_mut = ts[c1] == TokV::Mut;
        let c2 = if is_mut {
            c1 + 1
        } else {
            c1
        };
        if c2 + 2 >= ts.len() {
            None
        } else {
            match ts[c2] {
                TokV::Identifier(name) => {
                    let c4 = c2 + 2;
                    let declared_type = match ts[c4] {
                        TokV::TypeI32 => "i32"@,
                        TokV::TypeI64 => "i64"@,
                        TokV::TypeU8Array => "[u8]"@,
                        _ => "unknown"@,
                    };
                    let c5 = c4 + 1;
                    if c5 >= ts.len() {
                        None
                    } else if ts[c5] == TokV::Assign {
                        if c5 + 2 >= ts.len() {
                            None
                        } else {
                            let init = match ts[c5 + 1] {
                                TokV::LiteralInteger(v) => Some(NodeV::IntegerLiteral(v)),
                                TokV::LiteralString(s) => Some(NodeV::StringLiteral(s)),
                                _ => None,
                            };
                            match init {
                                None => None,
                                Some(e) => Some(
                                    (
                                        NodeV::VarDecl {
                                            name,
                                            is_mut,
                                            declared_type,
                                            initial_value: Some(Box::new(e)),
                                        },
                                        c5 + 3,
                                    ),
                                ),
                            }
                        }
                    } else {
                        Some(
                            (
                                NodeV::VarDecl { name, is_mut, declared_type, initial_value: None },
                                c5 + 1,
                            ),
                        )
                    }
                },
                _ => None,
            }
        }
    }
}

/// The statement that starts at `c`: a `let` declaration, or, for any other
/// token, the placeholder `IntegerLiteral(0)` after passing over that token.
pub open spec fn statement_at(ts: Seq<TokV>, c: int) -> Option<(NodeV, int)> {
    if !(0 <= c < ts.len()) {
        None
    } else if ts[c] == TokV::Let {
        var_decl_at(ts, c)
    } else {
        Some((NodeV::IntegerLiteral(0), c + 1))
    }
}

/// The statements from `c` up to the first `EOF` token; `acc` holds those
/// read. `None` where the parser panics, which it does when no `EOF` token
/// is reached.
pub open spec fn nodes_from(ts: Seq<TokV>, c: int, acc: Seq<NodeV>) -> Option<(Seq<NodeV>, int)>
    decreases ts.len() - c,
{
    if !(0 <= c < ts.len()) {
        None
    } else if ts[c] == TokV::EOF {
        Some((acc, c))
    } else {
        match statement_at(ts, c) {
            None => None,
            Some((n, q)) => {
                if q <= c {
                    None
                } else {
                    nodes_from(ts, q, acc.push(n))
                }
            },
        }
    }
}

/// A `let` declaration takes its name from the token after `let` (or after
/// `mut`), is mutable exactly when `mut` follows `let`, and names as its
/// declared type the type token two places after the name: `TypeI32` gives
/// `"i32"`, `TypeI64` gives `"i64"`, `TypeU8Array` gives `"[u8]"`, and any
/// other token `"unknown"`; different type tokens give different names.
pub proof fn lemma_declared_type_names_token(ts: Seq<TokV>, c: int)
    requires
        var_decl_at(ts, c) is Some,
    ensures
        ({
            let k = if ts[c + 1] == TokV::Mut {
                c + 3
            } else {
                c + 2
            };
            &&& 0 <= c && k + 1 < ts.len()
            &&& decl_node(ts, c) matches NodeV::VarDecl {
                name,
                is_mut,
                declared_type,
                ..
            } && (is_mut <==> ts[c + 1] == TokV::Mut) && ts[k - 1] == TokV::Identifier(name)
                && (declared_type == "i32"@ <==> ts[k + 1] == TokV::TypeI32) && (declared_type
                == "i64"@ <==> ts[k + 1] == TokV::TypeI64) && (declared_type == "[u8]"@ <==> ts[k
                + 1] == TokV::TypeU8Array) && (declared_type == "unknown"@ <==> !(ts[k + 1]
                == TokV::TypeI32 || ts[k + 1] == TokV::TypeI64 || ts[k + 1] == TokV::TypeU8Array))
        }),
{
    reveal_strlit("i32");
    reveal_strlit("i64");
    reveal_strlit("[u8]");
    reveal_strlit("unknown");
    assert("i32"@[1] != "i64"@[1]);
    assert("i32"@.len() == 3 && "i64"@.len() == 3 && "[u8]"@.len() == 4 && "unknown"@.len() == 7);
}

/// The statements parsed from `c` after those in `acc`, where parsing
/// succeeds.
pub open spec fn parsed_nodes(ts: Seq<TokV>, c: int, acc: Seq<NodeV>) -> Seq<NodeV> {
    match nodes_from(ts, c, acc) {
        Some((nodes, _)) => nodes,
        None => seq![],
    }
}

/// The `let` declaration read at `c`, where there is one.
pub open spec fn decl_node(ts: Seq<TokV>, c: int) -> NodeV {
    match var_decl_at(ts, c) {
        Some((n, _)) => n,
        None => NodeV::IntegerLiteral(0),
    }
}

/// Parsing from `c` keeps the statements read before it, in order.
proof fn lemma_nodes_keep_prefix(ts: Seq<TokV>, c: int, acc: Seq<NodeV>)
    requires
        nodes_from(ts, c, acc) is Some,
    ensures
        acc.len() <= parsed_nodes(ts, c, acc).len(),
        forall|i: int|
            0 <= i < acc.len() ==> #[trigger] parsed_nodes(ts, c, acc)[i] == acc[i],
    decreases ts.len() - c,
{
    if 0 <= c < ts.len() && ts[c] != TokV::EOF {
        let (n, q) = statement_at(ts, c)->0;
        lemma_nodes_keep_prefix(ts, q, acc.push(n));
        let out = parsed_nodes(ts, q, acc.push(n));
        assert forall|i: int| 0 <= i < acc.len() implies out[i] == acc[i] by {
            assert(out[i] == acc.push(n)[i]);
        }
    }
}

/// Statements that start with `let` start with that declaration: the first
/// node parsed is the `let` declaration read at the start.
pub proof fn lemma_parse_leading_declaration(ts: Seq<TokV>, c: int)
    requires
        0 <= c < ts.len(),
        ts[c] == TokV::Let,
        nodes_from(ts, c, seq![]) is Some,
    ensures
        var_decl_at(ts, c) is Some,
        parsed_nodes(ts, c, seq![]).len() > 0,
        parsed_nodes(ts, c, seq![])[0] == decl_node(ts, c),
{
    let (n, q) = var_decl_at(ts, c)->0;
    lemma_nodes_keep_prefix(ts, q, seq![n]);
    assert(parsed_nodes(ts, c, seq![])[0] == seq![n][0]);
}

/// A copy of a token.
fn copy_token(t: &Token) -> (r: Token)
    ensures
        r@ == t@,
{
    match t {
        Token::EOF => Token::EOF,
        Token::Identifier(s) => Token::Identifier(s.clone()),
        Token::LiteralInteger(v) => Token::LiteralInteger(*v),
        Token::LiteralString(s) => Token::LiteralString(s.clone()),
        Token::Let => Token::Let,
        Token::Mut => Token::Mut,
        Token::Fn => Token::Fn,
        Token::Const => Token::Const,
        Token::Check => Token::Check,
        Token::Except => Token::Except,
        Token::HashMap => Token::HashMap,
        Token::Bool => Token::Bool,
        Token::TypeI8 => Token::TypeI8,
        Token::TypeI16 => Token::TypeI16,
        Token::TypeI32 => Token::TypeI32,
        Token::TypeI64 => Token::TypeI64,
        Token::TypeI128 => Token::TypeI128,
        Token::TypeF32 => Token::TypeF32,
        Token::TypeF64 => Token::TypeF64,
        Token::TypeU8Array => Token::TypeU8Array,
        Token::JitBang => Token::JitBang,
        Token::LParen => Token::LParen,
        Token::RParen => Token::RParen,
        Token::LBrace => Token::LBrace,
        Token::RBrace => Token::RBrace,
        Token::LBracket => Token::LBracket,
        Token::RBracket => Token::RBracket,
        Token::Comma => Token::Comma,
        Token::Dot => Token::Dot,
        Token::Bang => Token::Bang,
        Token::Colon => Token::Colon,
        Token::SemiColon => Token::SemiColon,
        Token::Arrow => Token::Arrow,
        Token::Assign => Token::Assign,
        Token::LessThan => Token::LessThan,
        Token::GreaterThan => Token::GreaterThan,
    }
}

pub struct Parser {
    tokens: Vec<TokenInfo>,
    cursor: usize,
}

impl Parser {
    /// The tokens being parsed, without their places.
    pub closed spec fn toks(&self) -> Seq<TokV> {
        self.tokens@.map_values(|t: TokenInfo| t.token@)
    }

    /// The position of the next token to read.
    pub closed spec fn pos(&self) -> int {
        self.cursor as int
    }

    pub fn new(tokens: Vec<TokenInfo>) -> (parser: Self)
        ensures
            parser.toks() == tokens@.map_values(|t: TokenInfo| t.token@),
            parser.pos() == 0,
    {
        Self { tokens, cursor: 0 }
    }

    fn peek(&self) -> (r: &Token)
        requires
            self.pos() < self.toks().len(),
        ensures
            r@ == self.toks()[self.pos()],
    {
        assert(self.toks().len() == self.tokens.len());
        &self.tokens[self.cursor].token
    }

    fn consume(&mut self) -> (r: Token)
        requires
            old(self).pos() < old(self).toks().len(),
        ensures
            final(self).toks() == old(self).toks(),
            r@ == old(self).toks()[old(self).pos()],
            final(self).pos() == old(self).pos() + 1,
    {
        assert(self.toks().len() == self.tokens.len());
        let t = copy_token(&self.tokens[self.cursor].token);
        self.cursor += 1;
        t
    }

    /// Parses statements up to the first `EOF` token.
    pub fn parse(&mut self) -> (nodes: Vec<ASTNode>)
        requires
            nodes_from(old(self).toks(), old(self).pos(), seq![]) is Some,
        ensures
            final(self).toks() == old(self).toks(),
            (nodes_view(nodes@), final(self).pos()) == nodes_from(
                old(self).toks(),
                old(self).pos(),
                seq![],
            )->0,
    {
        let ghost ts = self.toks();
        let ghost c0 = self.pos();
        let mut nodes: Vec<ASTNode> = Vec::new();
        proof {
            assert(nodes_view(nodes@) =~= seq![]);
        }
        loop
            invariant
                self.toks() == ts,
                nodes_from(ts, self.pos(), nodes_view(nodes@)) == nodes_from(ts, c0, seq![]),
                nodes_from(ts, c0, seq![]) is Some,
            ensures
                self.toks() == ts,
                nodes_from(ts, c0, seq![]) == Some((nodes_view(nodes@), self.pos())),
            decreases ts.len() - self.pos(),
        {
            if matches!(self.peek(), Token::EOF) {
                break;
            }
            let node = self.parse_statement();
            proof {
                lemma_nodes_view_push(nodes@, node);
            }
            nodes.push(node);
        }
        nodes
    }

    /// Parses statements up to the first `EOF` token as `parse` does, or gives
    /// `None` where `parse` would panic: no `EOF` token is reached, or a
    /// `let` declaration runs past the end, names no identifier, or has an
    /// initial value that is not a literal.
    pub fn try_parse(&mut self) -> (r: Option<Vec<ASTNode>>)
        ensures
            final(self).toks() == old(self).toks(),
            r is Some <==> nodes_from(old(self).toks(), old(self).pos(), seq![]) is Some,
            r matches Some(nodes) ==> (nodes_view(nodes@), final(self).pos()) == nodes_from(
                old(self).toks(),
                old(self).pos(),
                seq![],
            )->0,
    {
        let ghost ts = self.toks();
        let ghost c0 = self.pos();
        let mut nodes: Vec<ASTNode> = Vec::new();
        proof {
            assert(nodes_view(nodes@) =~= seq![]);
        }
        loop
            invariant
                self.toks() == ts,
                ts == old(self).toks(),
                c0 == old(self).pos(),
                self.pos() >= 0,
                nodes_from(ts, self.pos(), nodes_view(nodes@)) == nodes_from(ts, c0, seq![]),
            decreases ts.len() - self.pos(),
        {
            assert(self.toks().len() == self.tokens.len());
            if self.cursor >= self.tokens.len() {
                return None;
            }
            if matches!(self.peek(), Token::EOF) {
                return Some(nodes);
            }
            if matches!(self.peek(), Token::Let) && !self.var_decl_readable() {
                return None;
            }
            let node = self.parse_statement();
            proof {
                lemma_nodes_view_push(nodes@, node);
            }
            nodes.push(node);
        }
    }

    /// Whether the `let` declaration at the parser's position can be read.
    fn var_decl_readable(&self) -> (r: bool)
        ensures
            r == (var_decl_at(self.toks(), self.pos()) is Some),
    {
        let n = self.tokens.len();
        let c = self.cursor;
        assert(self.toks().len() == n);
        if c >= n || n - c < 2 {
            return false;
        }
        let is_mut = matches!(self.tokens[c + 1].token, Token::Mut);
        let c2 = if is_mut {
            c + 2
        } else {
            c + 1
        };
        if c2 >= n || n - c2 <= 2 {
            return false;
        }
        match &self.tokens[c2].token {
            Token::Identifier(_) => {},
            _ => return false,
        }
        let c5 = c2 + 3;
        if c5 >= n {
            return false;
        }
        if matches!(self.tokens[c5].token, Token::Assign) {
            if n - c5 <= 2 {
                return false;
            }
            match &self.tokens[c5 + 1].token {
                Token::LiteralInteger(_) => true,
                Token::LiteralString(_) => true,
                _ => false,
            }
        } else {
            true
        }
    }

    fn parse_statement(&mut self) -> (r: ASTNode)
        requires
            statement_at(old(self).toks(), old(self).pos()) is Some,
        ensures
            final(self).toks() == old(self).toks(),
            statement_at(old(self).toks(), old(self).pos()) == Some((r@, final(self).pos())),
    {
        match self.peek() {
            Token::Let => self.parse_var_decl(),
            _ => {
                self.consume();
                ASTNode::IntegerLiteral(0)  // Dummy

            },
        }
    }

    fn parse_var_decl(&mut self) -> (r: ASTNode)
        requires
            var_decl_at(old(self).toks(), old(self).pos()) is Some,
        ensures
            final(self).toks() == old(self).toks(),
            var_decl_at(old(self).toks(), old(self).pos()) == Some((r@, final(self).pos())),
    {
        self.consume();  // let
        let is_mut = if matches!(self.peek(), Token::Mut) {
            self.consume();
            true
        } else {
            false
        };
        let name = match self.consume() {
            Token::Identifier(id) => id,
            _ => {
                proof {
                    assert(false);
                }
                String::new()
            },
        };
        self.consume();  // :
        let declared_type = match self.consume() {
            Token::TypeI32 => "i32".to_owned(),
            Token::TypeI64 => "i64".to_owned(),
            Token::TypeU8Array => "[u8]".to_owned(),
            _ => "unknown".to_owned(),
        };
        let initial_value = if matches!(self.peek(), Token::Assign) {
            self.consume();
            Some(Box::new(self.parse_expression()))
        } else {
            None
        };
        self.consume();  // ;
        ASTNode::VarDecl { name, is_mut, declared_type, initial_value }
    }

    fn parse_expression(&mut self) -> (r: ASTNode)
        requires
            old(self).pos() < old(self).toks().len(),
            old(self).toks()[old(self).pos()] is LiteralInteger || old(self).toks()[old(
                self,
            ).pos()] is LiteralString,
        ensures
            final(self).toks() == old(self).toks(),
            final(self).pos() == old(self).pos() + 1,
            r@ == (match old(self).toks()[old(self).pos()] {
                TokV::LiteralInteger(v) => NodeV::IntegerLiteral(v),
                TokV::LiteralString(s) => NodeV::StringLiteral(s),
                _ => NodeV::IntegerLiteral(0),
            }),
    {
        match self.consume() {
            Token::LiteralInteger(val) => ASTNode::IntegerLiteral(val),
            Token::LiteralString(val) => ASTNode::StringLiteral(val),
            _ => {
                proof {
                    assert(false);
                }
                ASTNode::IntegerLiteral(0)
            },
        }
    }
}

} // verus!
