//! What several AST types have in common.

use vstd::prelude::*;

use crate::astgen::ast;
use crate::astgen::{agrees, children_as, find_child, first, tree_of, AstNode};

verus! {

/// An AST node with a name: its first child `Name` node.
pub trait HasName: AstNode {
    /// The name, if there is one.
    fn name(&self) -> (n: Option<ast::Name>)
        ensures
            tree_of(n) == first(children_as::<ast::Name>(self.tree())),
            agrees(n),
    {
        find_child(self.syntax())
    }
}

/// An AST node with an expression: its first child expression.
pub trait HasExpr: AstNode {
    /// The expression, if there is one.
    fn expr(&self) -> (e: Option<ast::Expr>)
        ensures
            tree_of(e) == first(children_as::<ast::Expr>(self.tree())),
            agrees(e),
    {
        find_child(self.syntax())
    }
}

} // verus!
