//! The configuration of a search and the matcher that holds outputs against the goal.

use crate::expr::{Expr, MAX_INPUTS};
use crate::kernel::Semantics;
use crate::num::Num;
use crate::operator::Operator;
use crate::vector::Vector;
use vstd::prelude::*;

verus! {

/// A named input variable: its value in every test case, and how often it may be used.
pub struct Input {
    pub name: String,
    pub vec: Vector,
    pub min_uses: u8,
    pub max_uses: u8,
}

/// Which operators the search may use.
#[derive(Clone, Copy, Debug)]
pub struct OperatorFlags {
    pub or: bool,
    pub lt: bool,
    pub le: bool,
    pub bit_or: bool,
    pub bit_xor: bool,
    pub bit_and: bool,
    pub bit_shl: bool,
    pub bit_shr: bool,
    pub add: bool,
    pub sub: bool,
    pub mul: bool,
    pub modulo: bool,
    pub div1: bool,
    pub div2: bool,
    pub gcd: bool,
    pub exp: bool,
    pub neg: bool,
    pub bit_neg: bool,
}

impl OperatorFlags {
    /// Whether an operator is switched on; every written form of the keyword `or` goes by
    /// one flag, and brackets and leaves are always there.
    pub open spec fn spec_enabled(&self, op: Operator) -> bool {
        match op {
            Operator::Or | Operator::SpaceOr | Operator::OrSpace => self.or,
            Operator::Lt => self.lt,
            Operator::Le => self.le,
            Operator::BitOr => self.bit_or,
            Operator::BitXor => self.bit_xor,
            Operator::BitAnd => self.bit_and,
            Operator::BitShl => self.bit_shl,
            Operator::BitShr => self.bit_shr,
            Operator::Add => self.add,
            Operator::Sub => self.sub,
            Operator::Mul => self.mul,
            Operator::Mod => self.modulo,
            Operator::Div1 => self.div1,
            Operator::Div2 => self.div2,
            Operator::Gcd => self.gcd,
            Operator::Exp => self.exp,
            Operator::Neg => self.neg,
            Operator::BitNeg => self.bit_neg,
            Operator::Parens | Operator::Literal => true,
        }
    }

    #[verifier::when_used_as_spec(spec_enabled)]
    pub fn enabled(&self, op: Operator) -> (b: bool)
        ensures
            b == self.spec_enabled(op),
    {
        match op {
            Operator::Or | Operator::SpaceOr | Operator::OrSpace => self.or,
            Operator::Lt => self.lt,
            Operator::Le => self.le,
            Operator::BitOr => self.bit_or,
            Operator::BitXor => self.bit_xor,
            Operator::BitAnd => self.bit_and,
            Operator::BitShl => self.bit_shl,
            Operator::BitShr => self.bit_shr,
            Operator::Add => self.add,
            Operator::Sub => self.sub,
            Operator::Mul => self.mul,
            Operator::Mod => self.modulo,
            Operator::Div1 => self.div1,
            Operator::Div2 => self.div2,
            Operator::Gcd => self.gcd,
            Operator::Exp => self.exp,
            Operator::Neg => self.neg,
            Operator::BitNeg => self.bit_neg,
            Operator::Parens | Operator::Literal => true,
        }
    }

    /// No operator switched on.
    pub fn none() -> (f: OperatorFlags)
        ensures
            forall|op: Operator|
                op.spec_is_binary() || op.spec_is_unary() ==> !(#[trigger] f.spec_enabled(op)),
    {
        OperatorFlags {
            or: false,
            lt: false,
            le: false,
            bit_or: false,
            bit_xor: false,
            bit_and: false,
            bit_shl: false,
            bit_shr: false,
            add: false,
            sub: false,
            mul: false,
            modulo: false,
            div1: false,
            div2: false,
            gcd: false,
            exp: false,
            neg: false,
            bit_neg: false,
        }
    }

    /// Every operator switched on.
    pub fn all() -> (f: OperatorFlags)
        ensures
            forall|op: Operator| #[trigger] f.spec_enabled(op),
    {
        OperatorFlags {
            or: true,
            lt: true,
            le: true,
            bit_or: true,
            bit_xor: true,
            bit_and: true,
            bit_shl: true,
            bit_shr: true,
            add: true,
            sub: true,
            mul: true,
            modulo: true,
            div1: true,
            div2: true,
            gcd: true,
            exp: true,
            neg: true,
            bit_neg: true,
        }
    }
}

/// A mapping that is applied to every value of an output before it is held against the
/// goal. It must be a function of the value alone.
pub trait OutputMap {
    /// The mapping as a mathematical function.
    spec fn spec_map(&self, x: Num) -> Num;

    /// Applies the mapping to one value.
    fn map(&self, x: Num) -> (y: Num)
        ensures
            y == self.spec_map(x),
    ;
}

/// The mapping that leaves every value as it is.
#[derive(Clone, Copy, Debug)]
pub struct Identity;

impl OutputMap for Identity {
    open spec fn spec_map(&self, x: Num) -> Num {
        x
    }

    fn map(&self, x: Num) -> (y: Num) {
        x
    }
}

/// Everything that is fixed for one search.
pub struct Config<M: OutputMap> {
    /// The input variables, in the order of their indices.
    pub inputs: Vec<Input>,
    /// The vector a solution must evaluate to.
    pub goal: Vector,
    /// The greatest length of an expression that is built.
    pub max_length: usize,
    /// The greatest length whose outputs are remembered to prune longer expressions.
    pub max_cache_length: usize,
    /// The constants that may occur in an expression.
    pub literals: Vec<Num>,
    /// Where not zero, every number from one up to this is a constant too.
    pub max_literal: Num,
    /// The operators that may occur in an expression.
    pub ops: OperatorFlags,
    /// Whether a variable may occur more than once in an expression.
    pub reuse_vars: bool,
    /// How division rounds, and what stands for an undefined result.
    pub semantics: Semantics,
    /// The mapping applied to an output before it is held against the goal.
    pub mapping: M,
}

/// Why a configuration is refused.
#[derive(Clone, Copy, PartialEq, Eq, Structural, Debug)]
pub enum ConfigError {
    /// The goal has no test case.
    EmptyGoal,
    /// There are more input variables than a mask can tell apart.
    TooManyInputs,
    /// An input does not have one value for each test case of the goal.
    LengthMismatch,
    /// A constant, or the upper end of the range of constants, is below zero.
    MalformedLiterals,
}

impl<M: OutputMap> Config<M> {
    /// The number of test cases.
    pub open spec fn dim(&self) -> nat {
        self.goal@.len()
    }

    /// Every input has one value for each test case of the goal.
    pub open spec fn lengths_agree(&self) -> bool {
        forall|i: int|
            0 <= i < self.inputs@.len() ==> (#[trigger] self.inputs@[i]).vec@.len() == self.dim()
    }

    /// No constant is below zero, and neither is the upper end of the range of constants.
    pub open spec fn literals_ok(&self) -> bool {
        &&& self.max_literal >= 0
        &&& forall|i: int| 0 <= i < self.literals@.len() ==> #[trigger] self.literals@[i] >= 0
    }

    /// What a search may start from.
    pub open spec fn valid(&self) -> bool {
        &&& self.dim() > 0
        &&& self.inputs@.len() <= MAX_INPUTS
        &&& self.lengths_agree()
        &&& self.literals_ok()
    }

    /// What is wrong with a configuration, the first of the checks that fails; nothing for
    /// a valid one.
    pub open spec fn spec_validate(&self) -> Result<(), ConfigError> {
        if self.dim() == 0 {
            Err(ConfigError::EmptyGoal)
        } else if self.inputs@.len() > MAX_INPUTS {
            Err(ConfigError::TooManyInputs)
        } else if !self.lengths_agree() {
            Err(ConfigError::LengthMismatch)
        } else if !self.literals_ok() {
            Err(ConfigError::MalformedLiterals)
        } else {
            Ok(())
        }
    }

    /// Checks a configuration before a search.
    pub fn validate(&self) -> (r: Result<(), ConfigError>)
        ensures
            r == self.spec_validate(),
            r is Ok <==> self.valid(),
    {
        if self.goal.len() == 0 {
            return Err(ConfigError::EmptyGoal);
        }
        if self.inputs.len() > MAX_INPUTS {
            return Err(ConfigError::TooManyInputs);
        }
        let mut i: usize = 0;
        while i < self.inputs.len()
            invariant
                i <= self.inputs@.len(),
                self.dim() > 0,
                self.inputs@.len() <= MAX_INPUTS,
                forall|j: int| 0 <= j < i ==> (#[trigger] self.inputs@[j]).vec@.len() == self.dim(),
            decreases self.inputs@.len() - i,
        {
            if self.inputs[i].vec.len() != self.goal.len() {
                assert(self.inputs@[i as int].vec@.len() != self.dim());
                return Err(ConfigError::LengthMismatch);
            }
            i = i + 1;
        }
        if self.max_literal < 0 {
            return Err(ConfigError::MalformedLiterals);
        }
        let mut k: usize = 0;
        while k < self.literals.len()
            invariant
                k <= self.literals@.len(),
                self.dim() > 0,
                self.inputs@.len() <= MAX_INPUTS,
                self.max_literal >= 0,
                self.lengths_agree(),
                forall|j: int| 0 <= j < k ==> #[trigger] self.literals@[j] >= 0,
            decreases self.literals@.len() - k,
        {
            if self.literals[k] < 0 {
                assert(!(self.literals@[k as int] >= 0));
                return Err(ConfigError::MalformedLiterals);
            }
            k = k + 1;
        }
        Ok(())
    }

    /// Whether a value is one of the constants of the search.
    pub open spec fn is_literal(&self, value: Num) -> bool {
        self.literals@.contains(value) || 1 <= value <= self.max_literal
    }

    /// The output after the mapping has been applied to each of its values.
    pub open spec fn mapped(&self, output: Seq<Num>) -> Seq<Num> {
        Seq::new(output.len(), |i: int| self.mapping.spec_map(output[i]))
    }

    /// Whether an output, once mapped, is the goal.
    pub open spec fn is_goal(&self, output: Seq<Num>) -> bool {
        self.mapped(output) == self.goal@
    }
}

/// Holds outputs against the goal, one value at a time.
pub struct Matcher<'a, M: OutputMap> {
    config: &'a Config<M>,
}

impl<'a, M: OutputMap> Matcher<'a, M> {
    /// The configuration whose goal and mapping the matcher goes by.
    pub closed spec fn config(&self) -> &Config<M> {
        self.config
    }

    /// A matcher for the goal of a configuration.
    pub fn new(config: &'a Config<M>) -> (m: Self)
        ensures
            m.config() == config,
    {
        Matcher { config }
    }

    /// Whether one value of an output, once mapped, is the goal's value at that position.
    pub fn match_one(&mut self, index: usize, output: Num) -> (r: bool)
        requires
            index < old(self).config().dim(),
        ensures
            r == (old(self).config().mapping.spec_map(output) == old(self).config().goal@[index as int]),
            final(self).config() == old(self).config(),
    {
        self.config.mapping.map(output) == self.config.goal[index]
    }

    /// The last word on an expression all of whose values matched; every such expression
    /// is accepted. The node names its operator and, by their places, its operands.
    pub fn match_final(self, expr: &Expr) -> (r: bool)
        ensures
            r,
    {
        true
    }

    /// Whether an output, once mapped, is the goal. Stops at the first value that differs.
    pub fn match_all(config: &'a Config<M>, output: &Vector, expr: &Expr) -> (r: bool)
        ensures
            r == config.is_goal(output@),
    {
        if output.len() != config.goal.len() {
            assert(config.mapped(output@).len() != config.goal@.len());
            return false;
        }
        let mut matcher = Matcher::new(config);
        let mut i: usize = 0;
        while i < output.len()
            invariant
                i <= output@.len(),
                output@.len() == config.goal@.len(),
                matcher.config() == config,
                forall|j: int| 0 <= j < i ==> config.mapping.spec_map(output@[j]) == config.goal@[j],
            decreases output@.len() - i,
        {
            if !matcher.match_one(i, output[i]) {
                assert(config.mapped(output@)[i as int] != config.goal@[i as int]);
                return false;
            }
            i = i + 1;
        }
        assert(config.mapped(output@) =~= config.goal@);
        matcher.match_final(expr)
    }
}

} // verus!
