//! The front end's syntax tree.
use vstd::prelude::*;

verus! {

#[derive(Debug)]
pub enum ASTNode {
    VarDecl {
        name: String,
        is_mut: bool,
        declared_type: String,
        initial_value: Option<Box<ASTNode>>,
    },
    FnDecl {
        name: String,
        args: Vec<ASTNode>,  // List of VarDecl
        return_type: Option<String>,
        body: Vec<ASTNode>,
    },
    IntegerLiteral(i64),
    StringLiteral(String),
    ProcessCall { command: String, args: Vec<ASTNode> },
    Pipeline { nodes: Vec<ASTNode> },
    CheckExcept { check_block: Vec<ASTNode>, except_block: Vec<ASTNode> },
    JitDirective(String),
}

/// A syntax tree as a value.
pub enum NodeV {
    VarDecl {
        name: Seq<char>,
        is_mut: bool,
        declared_type: Seq<char>,
        initial_value: Option<Box<NodeV>>,
    },
    FnDecl {
        name: Seq<char>,
        args: Seq<NodeV>,
        return_type: Option<Seq<char>>,
        body: Seq<NodeV>,
    },
    IntegerLiteral(i64),
    StringLiteral(Seq<char>),
    ProcessCall { command: Seq<char>, args: Seq<NodeV> },
    Pipeline { nodes: Seq<NodeV> },
    CheckExcept { check_block: Seq<NodeV>, except_block: Seq<NodeV> },
    JitDirective(Seq<char>),
}

pub open spec fn nodes_view(s: Seq<ASTNode>) -> Seq<NodeV>
    decreases s,
{
    if s.len() == 0 {
        seq![]
    } else {
        seq![node_view(s[0])] + nodes_view(s.subrange(1, s.len() as int))
    }
}

pub open spec fn node_view(n: ASTNode) -> NodeV
    decreases n,
{
    match n {
        ASTNode::VarDecl { name, is_mut, declared_type, initial_value } => NodeV::VarDecl {
            name: name@,
            is_mut,
            declared_type: declared_type@,
            initial_value: match initial_value {
                Some(b) => Some(Box::new(node_view(*b))),
                None => None,
            },
        },
        ASTNode::FnDecl { name, args, return_type, body } => NodeV::FnDecl {
            name: name@,
            args: nodes_view(args@),
            return_type: match return_type {
                Some(t) => Some(t@),
                None => None,
            },
            body: nodes_view(body@),
        },
        ASTNode::IntegerLiteral(v) => NodeV::IntegerLiteral(v),
        ASTNode::StringLiteral(s) => NodeV::StringLiteral(s@),
        ASTNode::ProcessCall { command, args } => NodeV::ProcessCall {
            command: command@,
            args: nodes_view(args@),
        },
        ASTNode::Pipeline { nodes } => NodeV::Pipeline { nodes: nodes_view(nodes@) },
        ASTNode::CheckExcept { check_block, except_block } => NodeV::CheckExcept {
            check_block: nodes_view(check_block@),
            except_block: nodes_view(except_block@),
        },
        ASTNode::JitDirective(s) => NodeV::JitDirective(s@),
    }
}

impl View for ASTNode {
    type V = NodeV;

    open spec fn view(&self) -> NodeV {
        node_view(*self)
    }
}

pub proof fn lemma_nodes_view(s: Seq<ASTNode>)
    ensures
        nodes_view(s).len() == s.len(),
        forall|i: int| 0 <= i < s.len() ==> #[trigger] nodes_view(s)[i] == node_view(s[i]),
    decreases s.len(),
{
    if s.len() > 0 {
        lemma_nodes_view(s.subrange(1, s.len() as int));
    }
}

pub proof fn lemma_nodes_view_push(s: Seq<ASTNode>, x: ASTNode)
    ensures
        nodes_view(s.push(x)) == nodes_view(s).push(node_view(x)),
{
    lemma_nodes_view(s);
    lemma_nodes_view(s.push(x));
    assert(nodes_view(s.push(x)) =~= nodes_view(s).push(node_view(x)));
}

} // verus!
