//! Visiting syntax trees.

use vstd::prelude::*;
use crate::parser::ast::AstNode;

verus! {

/// Something that looks at a node of a syntax tree.
pub trait AstVisitor {
    fn visit(node: &AstNode);
}

} // verus!
