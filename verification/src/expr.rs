//! The expression-tree node hierarchy for the demonstration pretty-printer:
//! a closed set of node shapes over tokens and literal payloads.

use vstd::prelude::*;

use crate::token::{LiteralValue, Token};

verus! {

/// An expression node: binary and unary operator applications, a
/// parenthesized grouping, or a bare literal.
pub enum Expr {
    Binary { left: Box<Expr>, operator: Token, right: Box<Expr> },
    Grouping { expression: Box<Expr> },
    Literal { value: LiteralValue },
    Unary { operator: Token, right: Box<Expr> },
}

/// The structural size of an expression tree: every node counts one. Used as
/// the termination measure of tree walks.
pub open spec fn expr_size(e: Expr) -> nat
    decreases e,
{
    match e {
        Expr::Binary { left, right, .. } => 1 + expr_size(*left) + expr_size(*right),
        Expr::Grouping { expression } => 1 + expr_size(*expression),
        Expr::Literal { .. } => 1,
        Expr::Unary { right, .. } => 1 + expr_size(*right),
    }
}

/// Helpers every expression node offers beyond its own children.
pub trait ExprHelpers {
    /// A short name for the node's shape, as a debugging aid.
    fn name(&self) -> &str;
}

impl ExprHelpers for Expr {
    fn name(&self) -> &str {
        match self {
            Expr::Binary { .. } => "BinaryExpr",
            Expr::Grouping { .. } => "GroupingExpr",
            Expr::Literal { .. } => "LiteralExpr",
            Expr::Unary { .. } => "UnaryExpr",
        }
    }
}

/// The full capability bundle an expression node carries.
pub trait ExprConstraint: ExprHelpers {

}

impl ExprConstraint for Expr {

}

} // verus!
