//! Expression nodes and the references that tie them together.

use crate::num::Num;
use crate::operator::Operator;
use vstd::prelude::*;

verus! {

/// The payload of a leaf: a constant's value, or, below zero, the complement of a
/// variable's index.
pub type Literal = i32;

/// The set of variables that occur in an expression, one bit for each.
pub type Mask = u8;

/// The greatest number of input variables a mask can tell apart.
pub const MAX_INPUTS: usize = 8;

/// Where an expression lives: the length of its text, which is the level that holds it, and
/// its position in that level.
#[derive(Clone, Copy, PartialEq, Eq, Structural, Debug, Hash)]
pub struct ExprRef {
    pub len: usize,
    pub idx: usize,
}

/// One node of an expression. Children are named by their place in the levels built
/// earlier, so nodes are shared and never change once made.
#[derive(Clone, Copy, PartialEq, Eq, Structural, Debug, Hash)]
pub struct Expr {
    pub left: Option<ExprRef>,
    pub right: Option<ExprRef>,
    pub op: Operator,
    pub literal: Literal,
    pub var_mask: Mask,
}

/// The mask with only the bit of one variable set.
pub open spec fn spec_var_bit(index: usize) -> Mask {
    1u8 << index
}

impl Expr {
    /// The node of a binary operator over two earlier expressions.
    pub open spec fn spec_bin(left: ExprRef, right: ExprRef, op: Operator, mask: Mask) -> Expr {
        Expr { left: Some(left), right: Some(right), op, literal: 0, var_mask: mask }
    }

    /// The node of a prefix operator over an earlier expression.
    pub open spec fn spec_unary(child: Expr, at: ExprRef, op: Operator) -> Expr {
        Expr { left: None, right: Some(at), op, literal: 0, var_mask: child.var_mask }
    }

    /// The node that wraps an earlier expression in brackets.
    pub open spec fn spec_parens(child: Expr, at: ExprRef) -> Expr {
        Expr {
            left: None,
            right: Some(at),
            op: Operator::Parens,
            literal: 0,
            var_mask: child.var_mask,
        }
    }

    /// The leaf of the input variable with a given index.
    pub open spec fn spec_variable(index: usize) -> Expr {
        Expr {
            left: None,
            right: None,
            op: Operator::Literal,
            literal: (-1 - index) as Literal,
            var_mask: spec_var_bit(index),
        }
    }

    /// The leaf of a constant.
    pub open spec fn spec_literal(value: Num) -> Expr {
        Expr { left: None, right: None, op: Operator::Literal, literal: value, var_mask: 0 }
    }

    /// True for a leaf that names an input variable.
    pub open spec fn spec_is_variable(&self) -> bool {
        self.op == Operator::Literal && self.literal < 0
    }

    /// The index of the variable a variable leaf names.
    pub open spec fn spec_var_index(self) -> int {
        -1 - self.literal
    }

    /// True for an expression in which no variable occurs.
    pub open spec fn spec_is_literal(&self) -> bool {
        self.var_mask == 0
    }

    pub fn bin(left: ExprRef, right: ExprRef, op: Operator, mask: Mask) -> (e: Expr)
        ensures
            e == Expr::spec_bin(left, right, op, mask),
    {
        Expr { left: Some(left), right: Some(right), op, literal: 0, var_mask: mask }
    }

    pub fn unary(child: &Expr, at: ExprRef, op: Operator) -> (e: Expr)
        ensures
            e == Expr::spec_unary(*child, at, op),
    {
        Expr { left: None, right: Some(at), op, literal: 0, var_mask: child.var_mask }
    }

    pub fn parens(child: &Expr, at: ExprRef) -> (e: Expr)
        ensures
            e == Expr::spec_parens(*child, at),
    {
        Expr {
            left: None,
            right: Some(at),
            op: Operator::Parens,
            literal: 0,
            var_mask: child.var_mask,
        }
    }

    pub fn variable(index: usize) -> (e: Expr)
        requires
            index < MAX_INPUTS,
        ensures
            e == Expr::spec_variable(index),
            e.spec_is_variable(),
            e.spec_var_index() == index,
    {
        let shift: u8 = index as u8;
        Expr {
            left: None,
            right: None,
            op: Operator::Literal,
            literal: -1 - (index as i32),
            var_mask: 1u8 << shift,
        }
    }

    pub fn literal(value: Num) -> (e: Expr)
        ensures
            e == Expr::spec_literal(value),
    {
        Expr { left: None, right: None, op: Operator::Literal, literal: value, var_mask: 0 }
    }

    /// The precedence class of the top operator.
    pub fn prec(&self) -> (p: u8)
        ensures
            p == self.op.spec_prec(),
    {
        self.op.prec()
    }

    #[verifier::when_used_as_spec(spec_is_literal)]
    pub fn is_literal(&self) -> (b: bool)
        ensures
            b == self.spec_is_literal(),
    {
        self.var_mask == 0
    }
}

} // verus!
