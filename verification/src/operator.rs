//! The operators, their precedence and their width.

use vstd::prelude::*;

verus! {

/// The operators an expression node can carry, ordered from loosest to tightest binding.
///
/// `SpaceOr` and `OrSpace` are the keyword `or` written with a separating space before or
/// after it; `Div1` and `Div2` are integer division written with one or two characters.
#[derive(Clone, Copy, PartialEq, Eq, Structural, Debug, Hash)]
pub enum Operator {
    Or,
    SpaceOr,
    OrSpace,
    Lt,
    Le,
    BitOr,
    BitXor,
    BitAnd,
    BitShl,
    BitShr,
    Add,
    Sub,
    Mul,
    Mod,
    Div1,
    Div2,
    Gcd,
    Neg,
    BitNeg,
    Exp,
    Parens,
    Literal,
}

/// Precedence class of expressions that are wrapped in brackets.
pub const PREC_PARENS: u8 = 14;

/// Precedence class of the unary operators; also the least class a unary operand may have.
pub const PREC_UNARY: u8 = 12;

/// Precedence class of leaves.
pub const PREC_LITERAL: u8 = 15;

impl Operator {
    /// The precedence class: the binding tier of the operator.
    pub open spec fn spec_prec(self) -> u8 {
        match self {
            Operator::Or | Operator::SpaceOr | Operator::OrSpace => 3,
            Operator::Lt | Operator::Le => 5,
            Operator::BitOr => 6,
            Operator::BitXor => 7,
            Operator::BitAnd => 8,
            Operator::BitShl | Operator::BitShr => 9,
            Operator::Add | Operator::Sub => 10,
            Operator::Mul | Operator::Mod | Operator::Div1 | Operator::Div2 | Operator::Gcd => 11,
            Operator::Neg | Operator::BitNeg => 12,
            Operator::Exp => 13,
            Operator::Parens => 14,
            Operator::Literal => 15,
        }
    }

    /// The tie-break that tells the operators of one class apart.
    pub open spec fn spec_tie(self) -> u8 {
        match self {
            Operator::SpaceOr | Operator::Le | Operator::BitShr | Operator::Sub | Operator::Mod
            | Operator::BitNeg => 1,
            Operator::OrSpace | Operator::Div1 => 2,
            Operator::Div2 => 3,
            Operator::Gcd => 4,
            _ => 0,
        }
    }

    /// The two-part precedence code, class first; codes are compared as numbers.
    pub open spec fn spec_code(self) -> u8 {
        (self.spec_prec() * 16 + self.spec_tie()) as u8
    }

    /// How many characters the operator's own text takes in an expression.
    pub open spec fn spec_width(self) -> usize {
        match self {
            Operator::SpaceOr | Operator::OrSpace => 3,
            Operator::Or | Operator::Le | Operator::BitShl | Operator::BitShr | Operator::Div2
            | Operator::Exp | Operator::Parens => 2,
            Operator::Literal => 0,
            _ => 1,
        }
    }

    /// True for the operators that take a left and a right operand.
    pub open spec fn spec_is_binary(self) -> bool {
        self.spec_prec() <= 11 || self == Operator::Exp
    }

    /// True for the two prefix operators.
    pub open spec fn spec_is_unary(self) -> bool {
        self == Operator::Neg || self == Operator::BitNeg
    }

    /// The least class a left operand may have under this binary operator.
    pub open spec fn spec_left_bound(self) -> u8 {
        match self {
            Operator::BitShl | Operator::BitShr => 10,
            Operator::Exp => 14,
            _ => self.spec_prec(),
        }
    }

    /// The class a right operand must strictly exceed under this binary operator.
    pub open spec fn spec_right_bound(self) -> u8 {
        match self {
            Operator::BitShl | Operator::BitShr => 8,
            Operator::Exp => 12,
            _ => self.spec_prec(),
        }
    }

    #[verifier::when_used_as_spec(spec_prec)]
    pub fn prec(self) -> (p: u8)
        ensures
            p == self.spec_prec(),
            3 <= p <= 15,
    {
        match self {
            Operator::Or | Operator::SpaceOr | Operator::OrSpace => 3,
            Operator::Lt | Operator::Le => 5,
            Operator::BitOr => 6,
            Operator::BitXor => 7,
            Operator::BitAnd => 8,
            Operator::BitShl | Operator::BitShr => 9,
            Operator::Add | Operator::Sub => 10,
            Operator::Mul | Operator::Mod | Operator::Div1 | Operator::Div2 | Operator::Gcd => 11,
            Operator::Neg | Operator::BitNeg => 12,
            Operator::Exp => 13,
            Operator::Parens => 14,
            Operator::Literal => 15,
        }
    }

    #[verifier::when_used_as_spec(spec_tie)]
    pub fn tie(self) -> (t: u8)
        ensures
            t == self.spec_tie(),
            t <= 4,
    {
        match self {
            Operator::SpaceOr | Operator::Le | Operator::BitShr | Operator::Sub | Operator::Mod
            | Operator::BitNeg => 1,
            Operator::OrSpace | Operator::Div1 => 2,
            Operator::Div2 => 3,
            Operator::Gcd => 4,
            _ => 0,
        }
    }

    #[verifier::when_used_as_spec(spec_code)]
    pub fn code(self) -> (c: u8)
        ensures
            c == self.spec_code(),
            c == self.spec_prec() * 16 + self.spec_tie(),
    {
        self.prec() * 16 + self.tie()
    }

    #[verifier::when_used_as_spec(spec_width)]
    pub fn width(self) -> (w: usize)
        ensures
            w == self.spec_width(),
    {
        match self {
            Operator::SpaceOr | Operator::OrSpace => 3,
            Operator::Or | Operator::Le | Operator::BitShl | Operator::BitShr | Operator::Div2
            | Operator::Exp | Operator::Parens => 2,
            Operator::Literal => 0,
            _ => 1,
        }
    }

    #[verifier::when_used_as_spec(spec_is_binary)]
    pub fn is_binary(self) -> (b: bool)
        ensures
            b == self.spec_is_binary(),
    {
        self.prec() <= 11 || self == Operator::Exp
    }

    #[verifier::when_used_as_spec(spec_is_unary)]
    pub fn is_unary(self) -> (b: bool)
        ensures
            b == self.spec_is_unary(),
    {
        self == Operator::Neg || self == Operator::BitNeg
    }

    #[verifier::when_used_as_spec(spec_left_bound)]
    pub fn left_bound(self) -> (p: u8)
        ensures
            p == self.spec_left_bound(),
    {
        match self {
            Operator::BitShl | Operator::BitShr => 10,
            Operator::Exp => 14,
            _ => self.prec(),
        }
    }

    #[verifier::when_used_as_spec(spec_right_bound)]
    pub fn right_bound(self) -> (p: u8)
        ensures
            p == self.spec_right_bound(),
    {
        match self {
            Operator::BitShl | Operator::BitShr => 8,
            Operator::Exp => 12,
            _ => self.prec(),
        }
    }
}

/// Two operators with the same code are the same operator, and a greater class means a
/// greater code: comparing codes orders operators by class first and tie-break second.
pub proof fn lemma_code_orders_operators(a: Operator, b: Operator)
    ensures
        a.spec_code() == b.spec_code() <==> a == b,
        a.spec_prec() < b.spec_prec() ==> a.spec_code() < b.spec_code(),
        a.spec_code() <= b.spec_code() ==> a.spec_prec() <= b.spec_prec(),
{
}

} // verus!
