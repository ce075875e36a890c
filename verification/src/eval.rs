//! The evaluation engine: reduces an expression tree to an `i64` against a
//! variable environment, or fails.
//!
//! A failure (`None`) arises from a variable that is not bound in the
//! environment, or from a division whose native result does not exist: the
//! divisor is zero, or the quotient of `i64::MIN / -1` overflows. Failure is
//! infectious and operands are tried left first. The arithmetic operators
//! `+`, `-` and `*` produce the wrapped two's-complement result; `/`
//! truncates toward zero; `<` and `>` produce exactly `1` or `0`.

use vstd::prelude::*;
use crate::ast::{Expr, ExprModel, Op};
use crate::store::VarStore;

verus! {

/// The result of one binary operator on two evaluated operands.
pub open spec fn spec_apply(op: Op, l: i64, r: i64) -> Option<i64> {
    match op {
        Op::Add => Some(l.wrapping_add(r)),
        Op::Sub => Some(l.wrapping_sub(r)),
        Op::Mul => Some(l.wrapping_mul(r)),
        Op::Div => l.checked_div(r),
        Op::LT => Some(
            if l < r {
                1i64
            } else {
                0i64
            },
        ),
        Op::GT => Some(
            if l > r {
                1i64
            } else {
                0i64
            },
        ),
    }
}

/// The value of an expression under an environment, or `None` on an
/// unbound variable or an undefined division.
pub open spec fn spec_eval(e: ExprModel, env: Map<Seq<char>, i64>) -> Option<i64>
    decreases e,
{
    match e {
        ExprModel::Num(n) => Some(n),
        ExprModel::Var(name) => if env.contains_key(name) {
            Some(env[name])
        } else {
            None
        },
        ExprModel::BinOp { op, left, right } => match spec_eval(*left, env) {
            Some(l) => match spec_eval(*right, env) {
                Some(r) => spec_apply(op, l, r),
                None => None,
            },
            None => None,
        },
    }
}

impl Expr {
    /// Evaluates the expression against `variable`.
    pub fn eval(&self, variable: &VarStore) -> (r: Option<i64>)
        ensures
            r == spec_eval(self@, variable@),
        decreases *self,
    {
        match self {
            Expr::Num(n) => Some(*n),
            Expr::Var(name) => variable.get(name),
            Expr::BinOp { op, left, right } => match left.eval(variable) {
                Some(l) => match right.eval(variable) {
                    Some(r) => match op {
                        Op::Add => Some(l.wrapping_add(r)),
                        Op::Sub => Some(l.wrapping_sub(r)),
                        Op::Mul => Some(l.wrapping_mul(r)),
                        Op::Div => l.checked_div(r),
                        Op::LT => Some(
                            if l < r {
                                1
                            } else {
                                0
                            },
                        ),
                        Op::GT => Some(
                            if l > r {
                                1
                            } else {
                                0
                            },
                        ),
                    },
                    None => None,
                },
                None => None,
            },
        }
    }
}

} // verus!
