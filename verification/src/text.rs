//! The text of an expression and the count of its tokens.

use crate::cache::{cache_shaped, ref_expr, valid_ref, Cache, Level};
use crate::candidate::spec_digits;
use crate::expr::{Expr, ExprRef};
use crate::num::Num;
use crate::operator::Operator;
use crate::params::Input;
use vstd::prelude::*;
use vstd::string::StringExecFns;

verus! {

/// The text of an operator; a pair of brackets has none of its own.
pub open spec fn op_text(op: Operator) -> Seq<char> {
    match op {
        Operator::Or => "or"@,
        Operator::SpaceOr => " or"@,
        Operator::OrSpace => "or "@,
        Operator::Lt => "<"@,
        Operator::Le => "<="@,
        Operator::BitOr => "|"@,
        Operator::BitXor => "^"@,
        Operator::BitAnd => "&"@,
        Operator::BitShl => "<<"@,
        Operator::BitShr => ">>"@,
        Operator::Add => "+"@,
        Operator::Sub => "-"@,
        Operator::Mul => "*"@,
        Operator::Mod => "%"@,
        Operator::Div1 => "/"@,
        Operator::Div2 => "//"@,
        Operator::Gcd => "\u{2228}"@,
        Operator::Neg => "-"@,
        Operator::BitNeg => "~"@,
        Operator::Exp => "**"@,
        Operator::Parens => ""@,
        Operator::Literal => ""@,
    }
}

/// The text of an operator.
pub fn op_str(op: Operator) -> (s: &'static str)
    ensures
        s@ == op_text(op),
{
    match op {
        Operator::Or => "or",
        Operator::SpaceOr => " or",
        Operator::OrSpace => "or ",
        Operator::Lt => "<",
        Operator::Le => "<=",
        Operator::BitOr => "|",
        Operator::BitXor => "^",
        Operator::BitAnd => "&",
        Operator::BitShl => "<<",
        Operator::BitShr => ">>",
        Operator::Add => "+",
        Operator::Sub => "-",
        Operator::Mul => "*",
        Operator::Mod => "%",
        Operator::Div1 => "/",
        Operator::Div2 => "//",
        Operator::Gcd => "\u{2228}",
        Operator::Neg => "-",
        Operator::BitNeg => "~",
        Operator::Exp => "**",
        Operator::Parens => "",
        Operator::Literal => "",
    }
}

/// The text of every operator but the brackets is as long as the operator's width.
pub proof fn lemma_op_text_len(op: Operator)
    ensures
        op != Operator::Parens ==> op_text(op).len() == op.spec_width(),
        op_text(Operator::Parens).len() == 0,
{
    reveal_strlit("or");
    reveal_strlit(" or");
    reveal_strlit("or ");
    reveal_strlit("<");
    reveal_strlit("<=");
    reveal_strlit("|");
    reveal_strlit("^");
    reveal_strlit("&");
    reveal_strlit("<<");
    reveal_strlit(">>");
    reveal_strlit("+");
    reveal_strlit("-");
    reveal_strlit("*");
    reveal_strlit("%");
    reveal_strlit("/");
    reveal_strlit("//");
    reveal_strlit("\u{2228}");
    reveal_strlit("~");
    reveal_strlit("**");
    reveal_strlit("");
}

/// The character of a decimal digit.
pub open spec fn digit_text(d: int) -> Seq<char> {
    if d == 0 {
        "0"@
    } else if d == 1 {
        "1"@
    } else if d == 2 {
        "2"@
    } else if d == 3 {
        "3"@
    } else if d == 4 {
        "4"@
    } else if d == 5 {
        "5"@
    } else if d == 6 {
        "6"@
    } else if d == 7 {
        "7"@
    } else if d == 8 {
        "8"@
    } else {
        "9"@
    }
}

/// The decimal text of a number that is not negative.
pub open spec fn spec_decimal(k: int) -> Seq<char>
    decreases k,
{
    if k < 10 {
        digit_text(k)
    } else {
        spec_decimal(k / 10) + digit_text(k % 10)
    }
}

/// The decimal text of a number has as many characters as the number has digits.
pub proof fn lemma_decimal_len(k: int)
    ensures
        spec_decimal(k).len() == spec_digits(k),
    decreases k,
{
    reveal_strlit("0");
    reveal_strlit("1");
    reveal_strlit("2");
    reveal_strlit("3");
    reveal_strlit("4");
    reveal_strlit("5");
    reveal_strlit("6");
    reveal_strlit("7");
    reveal_strlit("8");
    reveal_strlit("9");
    if k >= 10 {
        lemma_decimal_len(k / 10);
    }
}

fn digit_str(d: Num) -> (s: &'static str)
    requires
        0 <= d <= 9,
    ensures
        s@ == digit_text(d as int),
{
    if d == 0 {
        "0"
    } else if d == 1 {
        "1"
    } else if d == 2 {
        "2"
    } else if d == 3 {
        "3"
    } else if d == 4 {
        "4"
    } else if d == 5 {
        "5"
    } else if d == 6 {
        "6"
    } else if d == 7 {
        "7"
    } else if d == 8 {
        "8"
    } else {
        "9"
    }
}

/// Appends the decimal text of a number that is not negative.
pub fn append_decimal(out: &mut String, k: Num)
    requires
        k >= 0,
    ensures
        final(out)@ == old(out)@ + spec_decimal(k as int),
    decreases k,
{
    if k >= 10 {
        append_decimal(out, k / 10);
        out.append(digit_str(k % 10));
        assert(out@ =~= old(out)@ + spec_decimal(k as int));
    } else {
        out.append(digit_str(k));
    }
}

/// The names of the input variables, in the order of their indices.
pub open spec fn spec_names(inputs: Seq<Input>) -> Seq<Seq<char>> {
    Seq::new(inputs.len(), |i: int| inputs[i].name@)
}

/// The text of a leaf: the decimal digits of a constant, or the name of a variable.
pub open spec fn leaf_text(names: Seq<Seq<char>>, e: Expr) -> Seq<char> {
    if e.literal >= 0 {
        spec_decimal(e.literal as int)
    } else if e.spec_var_index() < names.len() {
        names[e.spec_var_index()]
    } else {
        Seq::empty()
    }
}

/// The text of the child of a node, or nothing where the node has no such child.
pub open spec fn child_text(
    cache: Seq<Level>,
    names: Seq<Seq<char>>,
    child: Option<ExprRef>,
    bound: nat,
) -> Seq<char>
    decreases bound, 0nat,
{
    match child {
        Some(c) => if c.len < bound && valid_ref(cache, c) {
            spec_render(cache, names, ref_expr(cache, c), c.len as nat)
        } else {
            Seq::empty()
        },
        None => Seq::empty(),
    }
}

/// The text of an expression: left operand, operator, right operand; brackets go around
/// their operand. `bound` is a length above that of every child.
pub open spec fn spec_render(cache: Seq<Level>, names: Seq<Seq<char>>, e: Expr, bound: nat) -> Seq<
    char,
>
    decreases bound, 1nat,
{
    if e.op == Operator::Literal {
        leaf_text(names, e)
    } else if e.op == Operator::Parens {
        "("@ + child_text(cache, names, e.right, bound) + ")"@
    } else {
        child_text(cache, names, e.left, bound) + op_text(e.op) + child_text(
            cache,
            names,
            e.right,
            bound,
        )
    }
}

/// The number of tokens of the child of a node.
pub open spec fn child_tokens(cache: Seq<Level>, child: Option<ExprRef>, bound: nat) -> nat
    decreases bound, 0nat,
{
    match child {
        Some(c) => if c.len < bound && valid_ref(cache, c) {
            spec_tokens(cache, ref_expr(cache, c), c.len as nat)
        } else {
            0
        },
        None => 0,
    }
}

/// The number of tokens of an expression: one for a variable, one for each digit of a
/// constant and for each character of an operator, two for a pair of brackets.
pub open spec fn spec_tokens(cache: Seq<Level>, e: Expr, bound: nat) -> nat
    decreases bound, 1nat,
{
    if e.op == Operator::Literal {
        if e.literal >= 0 {
            spec_digits(e.literal as int)
        } else {
            1
        }
    } else if e.op == Operator::Parens {
        2 + child_tokens(cache, e.right, bound)
    } else {
        child_tokens(cache, e.left, bound) + e.op.spec_width() as nat + child_tokens(
            cache,
            e.right,
            bound,
        )
    }
}

/// Where every variable's name is one character, the text of an expression has one
/// character for each token.
pub proof fn lemma_render_len(cache: Seq<Level>, names: Seq<Seq<char>>, e: Expr, bound: nat)
    requires
        forall|i: int| 0 <= i < names.len() ==> (#[trigger] names[i]).len() == 1,
        e.spec_is_variable() ==> e.spec_var_index() < names.len(),
        forall|at: ExprRef|
            valid_ref(cache, at) && (#[trigger] ref_expr(cache, at)).spec_is_variable() ==> ref_expr(
                cache,
                at,
            ).spec_var_index() < names.len(),
    ensures
        spec_render(cache, names, e, bound).len() == spec_tokens(cache, e, bound),
    decreases bound, 1nat,
{
    reveal_strlit("(");
    reveal_strlit(")");
    lemma_op_text_len(e.op);
    if e.op == Operator::Literal {
        if e.literal >= 0 {
            lemma_decimal_len(e.literal as int);
        } else {
            assert(e.spec_is_variable());
            assert(names[e.spec_var_index()].len() == 1);
        }
        assert(spec_render(cache, names, e, bound) == leaf_text(names, e));
    } else {
        lemma_child_len(cache, names, e.left, bound);
        lemma_child_len(cache, names, e.right, bound);
        let l = child_text(cache, names, e.left, bound);
        let r = child_text(cache, names, e.right, bound);
        if e.op == Operator::Parens {
            assert(spec_render(cache, names, e, bound) == "("@ + r + ")"@);
        } else {
            assert(spec_render(cache, names, e, bound) == l + op_text(e.op) + r);
        }
    }
}

/// The same for the child of a node.
proof fn lemma_child_len(
    cache: Seq<Level>,
    names: Seq<Seq<char>>,
    child: Option<ExprRef>,
    bound: nat,
)
    requires
        forall|i: int| 0 <= i < names.len() ==> (#[trigger] names[i]).len() == 1,
        forall|at: ExprRef|
            valid_ref(cache, at) && (#[trigger] ref_expr(cache, at)).spec_is_variable() ==> ref_expr(
                cache,
                at,
            ).spec_var_index() < names.len(),
    ensures
        child_text(cache, names, child, bound).len() == child_tokens(cache, child, bound),
    decreases bound, 0nat,
{
    if child is Some && child.unwrap().len < bound && valid_ref(cache, child.unwrap()) {
        let c = child.unwrap();
        lemma_render_len(cache, names, ref_expr(cache, c), c.len as nat);
    }
}

/// Appends the text of an expression to a string.
pub fn render_into(cache: &Cache, inputs: &Vec<Input>, e: Expr, bound: usize, out: &mut String)
    requires
        cache_shaped(cache@),
    ensures
        final(out)@ == old(out)@ + spec_render(cache@, spec_names(inputs@), e, bound as nat),
    decreases bound, 1nat,
{
    if e.op == Operator::Literal {
        if e.literal >= 0 {
            append_decimal(out, e.literal);
        } else {
            let index: u64 = (-1 - (e.literal as i64)) as u64;
            if index < inputs.len() as u64 {
                let at: usize = index as usize;
                out.append(inputs[at].name.as_str());
                assert(spec_names(inputs@)[at as int] == inputs@[at as int].name@);
            } else {
                assert(out@ =~= old(out)@ + Seq::<char>::empty());
            }
        }
    } else if e.op == Operator::Parens {
        out.append("(");
        render_child(cache, inputs, e.right, bound, out);
        out.append(")");
        assert(out@ =~= old(out)@ + spec_render(cache@, spec_names(inputs@), e, bound as nat));
    } else {
        render_child(cache, inputs, e.left, bound, out);
        out.append(op_str(e.op));
        render_child(cache, inputs, e.right, bound, out);
        assert(out@ =~= old(out)@ + spec_render(cache@, spec_names(inputs@), e, bound as nat));
    }
}

/// Appends the text of the child of a node to a string.
fn render_child(
    cache: &Cache,
    inputs: &Vec<Input>,
    child: Option<ExprRef>,
    bound: usize,
    out: &mut String,
)
    requires
        cache_shaped(cache@),
    ensures
        final(out)@ == old(out)@ + child_text(cache@, spec_names(inputs@), child, bound as nat),
    decreases bound, 0nat,
{
    match child {
        Some(c) => {
            if c.len < bound && c.len < cache.len() && c.idx < cache[c.len].len() {
                let e = cache[c.len].val_at(c.idx);
                render_into(cache, inputs, e, c.len, out);
            } else {
                assert(out@ =~= old(out)@ + Seq::<char>::empty());
            }
        },
        None => {
            assert(out@ =~= old(out)@ + Seq::<char>::empty());
        },
    }
}

} // verus!
