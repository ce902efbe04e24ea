//! The syntax tree and its mathematical model.

pub mod visitor;

use vstd::prelude::*;
use crate::span::Span;

verus! {

/// The kinds of binary operation.
#[derive(Clone, Copy, Debug, PartialEq, Eq, Structural)]
pub enum BinOpKind {
    Add,
    Sub,
    Mul,
    Eq,
    NotEq,
    LessThan,
    LessEq,
    GreaterThan,
    GreaterEq,
}

/// A function's name and the names of its parameters, in order.
#[derive(Debug, PartialEq, Eq)]
pub struct Prototype {
    pub name: String,
    pub args: Vec<String>,
}

/// An expression. Numbers are held as the bit pattern of a 64-bit IEEE-754
/// float.
#[derive(Debug, PartialEq, Eq)]
pub enum Ast {
    Number(u64),
    Ref(String),
    Block(Vec<AstNode>),
    Function { prototype: Prototype, body: AstNode },
    Call { name: String, args: Vec<AstNode> },
    Variable { name: String, expr: AstNode },
    BinOp { kind: BinOpKind, lhs: AstNode, rhs: AstNode },
    If { condition: AstNode, then: AstNode, el: Option<AstNode> },
}

/// An expression together with the source range it was read from.
#[derive(Debug, PartialEq, Eq)]
pub struct AstNode {
    pub span: Span,
    pub expr: Box<Ast>,
}

/// Model of [`Ast`]: names are sequences of characters, children are
/// sequences of models.
pub enum SpecAst {
    Number(u64),
    Ref(Seq<char>),
    Block(Seq<SpecNode>),
    Function { name: Seq<char>, params: Seq<Seq<char>>, body: Box<SpecNode> },
    Call { name: Seq<char>, args: Seq<SpecNode> },
    Variable { name: Seq<char>, expr: Box<SpecNode> },
    BinOp { kind: BinOpKind, lhs: Box<SpecNode>, rhs: Box<SpecNode> },
    If { condition: Box<SpecNode>, then: Box<SpecNode>, el: Option<Box<SpecNode>> },
}

/// Model of [`AstNode`].
pub struct SpecNode {
    pub span: Span,
    pub expr: SpecAst,
}

/// The models of a vector of names.
pub open spec fn names_view(names: Seq<String>) -> Seq<Seq<char>> {
    Seq::new(names.len(), |i: int| names[i]@)
}

/// The models of a vector of nodes.
pub open spec fn nodes_view(nodes: Seq<AstNode>) -> Seq<SpecNode>
    decreases nodes,
{
    Seq::new(nodes.len(), |i: int| if 0 <= i < nodes.len() { nodes[i]@ } else { arbitrary() })
}

impl AstNode {
    /// The model of this node.
    pub open spec fn view(&self) -> SpecNode
        decreases self,
    {
        SpecNode { span: self.span, expr: self.expr@ }
    }
}

impl Ast {
    /// The model of this expression.
    pub open spec fn view(&self) -> SpecAst
        decreases self,
    {
        match self {
            Ast::Number(bits) => SpecAst::Number(*bits),
            Ast::Ref(name) => SpecAst::Ref(name@),
            Ast::Block(exprs) => SpecAst::Block(nodes_view(exprs@)),
            Ast::Function { prototype, body } => SpecAst::Function {
                name: prototype.name@,
                params: names_view(prototype.args@),
                body: Box::new(body@),
            },
            Ast::Call { name, args } => SpecAst::Call { name: name@, args: nodes_view(args@) },
            Ast::Variable { name, expr } => SpecAst::Variable { name: name@, expr: Box::new(expr@) },
            Ast::BinOp { kind, lhs, rhs } => SpecAst::BinOp {
                kind: *kind,
                lhs: Box::new(lhs@),
                rhs: Box::new(rhs@),
            },
            Ast::If { condition, then, el } => SpecAst::If {
                condition: Box::new(condition@),
                then: Box::new(then@),
                el: match el {
                    Some(e) => Some(Box::new(e@)),
                    None => None,
                },
            },
        }
    }
}

impl AstNode {
    pub fn new(span: Span, ast: Ast) -> (node: AstNode)
        ensures
            node.span == span,
            *node.expr == ast,
    {
        AstNode { span, expr: Box::new(ast) }
    }
}

} // verus!
