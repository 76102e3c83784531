//! The operators applied to vectors position by position.

use crate::divmod::div_mod;
use crate::kernel::{binary_op, spec_binary_op, spec_unary_op, unary_op, Semantics};
use crate::num::Num;
use crate::operator::Operator;
use vstd::prelude::*;

verus! {

/// One expression's values across all test cases.
pub type Vector = Vec<Num>;

/// A binary operator applied position by position: nothing where the lengths differ or the
/// operator yields nothing at some position.
pub open spec fn spec_vec_binary(op: Operator, a: Seq<Num>, b: Seq<Num>, sem: Semantics) -> Option<
    Seq<Num>,
> {
    if a.len() == b.len() && forall|i: int|
        0 <= i < a.len() ==> (#[trigger] spec_binary_op(op, a[i], b[i], sem)) is Some {
        Some(Seq::new(a.len(), |i: int| spec_binary_op(op, a[i], b[i], sem).unwrap()))
    } else {
        None
    }
}

/// A unary operator applied position by position.
pub open spec fn spec_vec_unary(op: Operator, a: Seq<Num>, sem: Semantics) -> Option<Seq<Num>> {
    if forall|i: int| 0 <= i < a.len() ==> (#[trigger] spec_unary_op(op, a[i], sem)) is Some {
        Some(Seq::new(a.len(), |i: int| spec_unary_op(op, a[i], sem).unwrap()))
    } else {
        None
    }
}

/// The vector that holds one value at every position.
pub open spec fn spec_constant(value: Num, len: nat) -> Seq<Num> {
    Seq::new(len, |i: int| value)
}

/// Applies a binary operator position by position.
pub fn vec_binary(op: Operator, a: &Vector, b: &Vector, sem: &Semantics) -> (r: Option<Vector>)
    ensures
        r is Some <==> spec_vec_binary(op, a@, b@, *sem) is Some,
        r is Some ==> r.unwrap()@ == spec_vec_binary(op, a@, b@, *sem).unwrap(),
{
    if a.len() != b.len() {
        return None;
    }
    let n = a.len();
    let mut out: Vector = Vec::with_capacity(n);
    let mut i: usize = 0;
    while i < n
        invariant
            i <= n,
            n == a.len(),
            n == b.len(),
            out.len() == i,
            forall|j: int|
                0 <= j < i ==> (#[trigger] spec_binary_op(op, a@[j], b@[j], *sem)) == Some(
                    out@[j],
                ),
        decreases n - i,
    {
        match binary_op(op, a[i], b[i], sem) {
            Some(v) => {
                out.push(v);
            },
            None => {
                assert(spec_binary_op(op, a@[i as int], b@[i as int], *sem) is None);
                return None;
            },
        }
        i = i + 1;
    }
    assert(out@ =~= spec_vec_binary(op, a@, b@, *sem).unwrap());
    Some(out)
}

/// Applies a unary operator position by position.
pub fn vec_unary(op: Operator, a: &Vector, sem: &Semantics) -> (r: Option<Vector>)
    ensures
        r is Some <==> spec_vec_unary(op, a@, *sem) is Some,
        r is Some ==> r.unwrap()@ == spec_vec_unary(op, a@, *sem).unwrap(),
{
    let n = a.len();
    let mut out: Vector = Vec::with_capacity(n);
    let mut i: usize = 0;
    while i < n
        invariant
            i <= n,
            n == a.len(),
            out.len() == i,
            forall|j: int|
                0 <= j < i ==> (#[trigger] spec_unary_op(op, a@[j], *sem)) == Some(out@[j]),
        decreases n - i,
    {
        match unary_op(op, a[i], sem) {
            Some(v) => {
                out.push(v);
            },
            None => {
                assert(spec_unary_op(op, a@[i as int], *sem) is None);
                return None;
            },
        }
        i = i + 1;
    }
    assert(out@ =~= spec_vec_unary(op, a@, *sem).unwrap());
    Some(out)
}

/// Quotients and remainders of two vectors in one pass: the quotients are what the division
/// operator yields, the remainders what the modulo operator yields, and there is nothing
/// where those yield nothing.
pub fn divmod(a: &Vector, b: &Vector, sem: &Semantics) -> (r: Option<(Vector, Vector)>)
    ensures
        r is Some <==> spec_vec_binary(Operator::Div1, a@, b@, *sem) is Some,
        r is Some <==> spec_vec_binary(Operator::Mod, a@, b@, *sem) is Some,
        r is Some ==> r.unwrap().0@ == spec_vec_binary(Operator::Div1, a@, b@, *sem).unwrap(),
        r is Some ==> r.unwrap().1@ == spec_vec_binary(Operator::Mod, a@, b@, *sem).unwrap(),
{
    if a.len() != b.len() {
        return None;
    }
    let n = a.len();
    let mut quots: Vector = Vec::with_capacity(n);
    let mut rems: Vector = Vec::with_capacity(n);
    let mut i: usize = 0;
    while i < n
        invariant
            i <= n,
            n == a.len(),
            n == b.len(),
            quots.len() == i,
            rems.len() == i,
            forall|j: int|
                0 <= j < i ==> (#[trigger] spec_binary_op(Operator::Div1, a@[j], b@[j], *sem))
                    == Some(quots@[j]),
            forall|j: int|
                0 <= j < i ==> (#[trigger] spec_binary_op(Operator::Mod, a@[j], b@[j], *sem))
                    == Some(rems@[j]),
        decreases n - i,
    {
        let x = a[i];
        let y = b[i];
        let absorbed = match sem.error_value {
            Some(e) => x == e || y == e,
            None => false,
        };
        let qm = if absorbed {
            None
        } else {
            div_mod(x, y, sem.floor_mod)
        };
        match qm {
            Some(qm) => {
                quots.push(qm.0);
                rems.push(qm.1);
            },
            None => match sem.error_value {
                Some(e) => {
                    quots.push(e);
                    rems.push(e);
                },
                None => {
                    assert(spec_binary_op(Operator::Div1, a@[i as int], b@[i as int], *sem) is None);
                    assert(spec_binary_op(Operator::Mod, a@[i as int], b@[i as int], *sem) is None);
                    return None;
                },
            },
        }
        i = i + 1;
    }
    assert(quots@ =~= spec_vec_binary(Operator::Div1, a@, b@, *sem).unwrap());
    assert(rems@ =~= spec_vec_binary(Operator::Mod, a@, b@, *sem).unwrap());
    Some((quots, rems))
}

/// The two ways of writing division yield the same vector.
pub proof fn lemma_div_forms_agree(a: Seq<Num>, b: Seq<Num>, sem: Semantics)
    ensures
        spec_vec_binary(Operator::Div2, a, b, sem) == spec_vec_binary(Operator::Div1, a, b, sem),
{
    assert forall|i: int| 0 <= i < a.len() implies #[trigger] spec_binary_op(
        Operator::Div2,
        a[i],
        b[i],
        sem,
    ) == spec_binary_op(Operator::Div1, a[i], b[i], sem) by {}
    let one = spec_vec_binary(Operator::Div1, a, b, sem);
    let two = spec_vec_binary(Operator::Div2, a, b, sem);
    if a.len() == b.len() {
        if one is Some {
            assert forall|i: int| 0 <= i < a.len() implies (#[trigger] spec_binary_op(
                Operator::Div2,
                a[i],
                b[i],
                sem,
            )) is Some by {
                assert(spec_binary_op(Operator::Div1, a[i], b[i], sem) is Some);
            }
            assert(one.unwrap() =~= two.unwrap());
        } else {
            let i = choose|i: int|
                0 <= i < a.len() && !((#[trigger] spec_binary_op(
                    Operator::Div1,
                    a[i],
                    b[i],
                    sem,
                )) is Some);
            assert(spec_binary_op(Operator::Div2, a[i], b[i], sem) is None);
        }
    }
}

/// Whether two vectors hold the same values in the same order.
pub fn vec_eq(a: &Vector, b: &Vector) -> (r: bool)
    ensures
        r == (a@ == b@),
{
    if a.len() != b.len() {
        return false;
    }
    let n = a.len();
    let mut i: usize = 0;
    while i < n
        invariant
            i <= n,
            n == a.len(),
            n == b.len(),
            forall|j: int| 0 <= j < i ==> a@[j] == b@[j],
        decreases n - i,
    {
        if a[i] != b[i] {
            return false;
        }
        i = i + 1;
    }
    assert(a@ =~= b@);
    true
}

/// The vector of a given length that holds one value at every position.
pub fn vec_constant(value: Num, len: usize) -> (r: Vector)
    ensures
        r@ == spec_constant(value, len as nat),
{
    let mut out: Vector = Vec::with_capacity(len);
    let mut i: usize = 0;
    while i < len
        invariant
            i <= len,
            out.len() == i,
            forall|j: int| 0 <= j < i ==> out@[j] == value,
        decreases len - i,
    {
        out.push(value);
        i = i + 1;
    }
    assert(out@ =~= spec_constant(value, len as nat));
    out
}

/// A copy of a vector.
pub fn vec_copy(a: &Vector) -> (r: Vector)
    ensures
        r@ == a@,
{
    let n = a.len();
    let mut out: Vector = Vec::with_capacity(n);
    let mut i: usize = 0;
    while i < n
        invariant
            i <= n,
            n == a.len(),
            out.len() == i,
            forall|j: int| 0 <= j < i ==> out@[j] == a@[j],
        decreases n - i,
    {
        out.push(a[i]);
        i = i + 1;
    }
    assert(out@ =~= a@);
    out
}

} // verus!
