//! An earlier, simpler configuration of the expression tree: literals and
//! evaluation are fixed to 32-bit unsigned arithmetic, so literal range is
//! settled at parse time and evaluation cannot fail. It is kept alongside
//! the kind-generic tree in [`crate::expr`].

use vstd::prelude::*;

verus! {

use vstd::wrapping::u32_specs;

/// An expression tree node over `u32`. Each node exclusively owns its
/// children; the comments give the binding strength, 1 binding tightest.
#[derive(Debug)]
pub enum Expr {
    // Precedence 1, or parenthesized.
    Num(u32),
    // Precedence 2: unary prefix.
    Neg(Box<Expr>),
    Bitnot(Box<Expr>),
    // Precedence 3 is reserved for a future cast operator.
    // Precedence 4.
    Mul(Box<Expr>, Box<Expr>),
    Div(Box<Expr>, Box<Expr>),
    Rem(Box<Expr>, Box<Expr>),
    // Precedence 5.
    Add(Box<Expr>, Box<Expr>),
    Sub(Box<Expr>, Box<Expr>),
    // Precedence 6.
    Shr(Box<Expr>, Box<Expr>),
    Shl(Box<Expr>, Box<Expr>),
    // Precedence 7.
    And(Box<Expr>, Box<Expr>),
    // Precedence 8.
    Xor(Box<Expr>, Box<Expr>),
    // Precedence 9, binding loosest.
    Or(Box<Expr>, Box<Expr>),
}

/// What evaluating `e` yields: the 32-bit wrapped result, or `None` if a
/// division or remainder somewhere in the tree meets a zero divisor.
pub open spec fn eval_spec(e: Expr) -> Option<u32>
    decreases e,
{
    match e {
        Expr::Num(n) => Some(n),
        Expr::Neg(e0) => match eval_spec(*e0) {
            Some(a) => Some(u32_specs::wrapping_sub(0, a)),
            None => None,
        },
        Expr::Bitnot(e0) => match eval_spec(*e0) {
            Some(a) => Some(!a),
            None => None,
        },
        Expr::Mul(l, r) => match (eval_spec(*l), eval_spec(*r)) {
            (Some(a), Some(b)) => Some(u32_specs::wrapping_mul(a, b)),
            _ => None,
        },
        Expr::Div(l, r) => match (eval_spec(*l), eval_spec(*r)) {
            (Some(a), Some(b)) => if b == 0 {
                None
            } else {
                Some(a / b)
            },
            _ => None,
        },
        Expr::Rem(l, r) => match (eval_spec(*l), eval_spec(*r)) {
            (Some(a), Some(b)) => if b == 0 {
                None
            } else {
                Some(a % b)
            },
            _ => None,
        },
        Expr::Add(l, r) => match (eval_spec(*l), eval_spec(*r)) {
            (Some(a), Some(b)) => Some(u32_specs::wrapping_add(a, b)),
            _ => None,
        },
        Expr::Sub(l, r) => match (eval_spec(*l), eval_spec(*r)) {
            (Some(a), Some(b)) => Some(u32_specs::wrapping_sub(a, b)),
            _ => None,
        },
        Expr::Shr(l, r) => match (eval_spec(*l), eval_spec(*r)) {
            (Some(a), Some(b)) => Some(u32_specs::wrapping_shr(a, b)),
            _ => None,
        },
        Expr::Shl(l, r) => match (eval_spec(*l), eval_spec(*r)) {
            (Some(a), Some(b)) => Some(u32_specs::wrapping_shl(a, b)),
            _ => None,
        },
        Expr::And(l, r) => match (eval_spec(*l), eval_spec(*r)) {
            (Some(a), Some(b)) => Some(a & b),
            _ => None,
        },
        Expr::Xor(l, r) => match (eval_spec(*l), eval_spec(*r)) {
            (Some(a), Some(b)) => Some(a ^ b),
            _ => None,
        },
        Expr::Or(l, r) => match (eval_spec(*l), eval_spec(*r)) {
            (Some(a), Some(b)) => Some(a | b),
            _ => None,
        },
    }
}

impl Expr {
    /// Evaluates the tree with 32-bit wrapping arithmetic. Trees holding a
    /// division by zero are excluded by the precondition, as evaluating one
    /// would have no defined result.
    pub fn eval(&self) -> (r: u32)
        requires
            eval_spec(*self) is Some,
        ensures
            eval_spec(*self) == Some(r),
        decreases *self,
    {
        match self {
            Expr::Num(n) => *n,
            Expr::Neg(e) => 0u32.wrapping_sub(e.eval()),
            Expr::Bitnot(e) => !e.eval(),
            Expr::Mul(l, r) => l.eval().wrapping_mul(r.eval()),
            Expr::Div(l, r) => l.eval() / r.eval(),
            Expr::Rem(l, r) => l.eval() % r.eval(),
            Expr::Add(l, r) => l.eval().wrapping_add(r.eval()),
            Expr::Sub(l, r) => l.eval().wrapping_sub(r.eval()),
            Expr::Shr(l, r) => l.eval().wrapping_shr(r.eval()),
            Expr::Shl(l, r) => l.eval().wrapping_shl(r.eval()),
            Expr::And(l, r) => l.eval() & r.eval(),
            Expr::Xor(l, r) => l.eval() ^ r.eval(),
            Expr::Or(l, r) => l.eval() | r.eval(),
        }
    }
}

} // verus!
