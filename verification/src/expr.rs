//! The expression tree and its wrapping evaluator.
//!
//! A tree is built once by the parser and then evaluated under any number of
//! integer kinds: the kind is a parameter of [`Expr::eval`], not part of the
//! tree. Literals are stored in the widest container (`i128`) and checked
//! against the chosen kind only at evaluation time; every arithmetic operator
//! wraps modulo the kind's range instead of failing.

use vstd::prelude::*;

verus! {

use vstd::arithmetic::power2::pow2;
use crate::value::Kind;
use crate::value::Value;
use crate::value::pat;
use crate::value::val;
use crate::value::wrap;
use crate::value::trunc_div;
use crate::value::trunc_rem;
use crate::value::shift_amt;

/// Failure to read a literal token into the widest literal container.
/// `start` and `end` delimit the offending token's bytes in the input.
#[derive(Debug, Clone, Copy, PartialEq, Eq, Structural)]
pub enum Error {
    LitParse { start: usize, end: usize },
}

/// A failure during evaluation.
#[derive(Debug, Clone, Copy, PartialEq, Eq, Structural)]
pub enum EvalErr {
    /// The literal carried by the payload is not representable in the kind
    /// the tree is being evaluated under.
    Invalid(i128),
    /// A division or remainder met a zero divisor.
    DivByZero,
}

/// An expression tree node. Each node exclusively owns its children; the
/// comments give the binding strength, 1 binding tightest.
#[derive(Debug)]
pub enum Expr {
    // Precedence 1, or parenthesized.
    Num(i128),
    // Precedence 2: unary prefix.
    Neg(Box<Expr>),
    Bitnot(Box<Expr>),
    // Precedence 3 is reserved for a future cast operator.
    // Precedence 4.
    Mul(Box<Expr>, Box<Expr>),
    Div(Box<Expr>, Box<Expr>),
    Rem(Box<Expr>, Box<Expr>),
    // Precedence 5.
    Add(Box<Expr>, Box<Expr>),
    Sub(Box<Expr>, Box<Expr>),
    // Precedence 6.
    Shr(Box<Expr>, Box<Expr>),
    Shl(Box<Expr>, Box<Expr>),
    // Precedence 7.
    And(Box<Expr>, Box<Expr>),
    // Precedence 8.
    Xor(Box<Expr>, Box<Expr>),
    // Precedence 9, binding loosest.
    Or(Box<Expr>, Box<Expr>),
}

/// Negation of the widest literal container, wrapping on its minimum.
pub open spec fn wneg128(n: i128) -> i128 {
    if n == i128::MIN {
        n
    } else {
        (-n) as i128
    }
}

/// What evaluating `e` under kind `k` yields: the represented integer, or
/// the first error met in a left-to-right, post-order walk.
#[verifier::opaque]
pub open spec fn eval_spec(e: Expr, k: Kind) -> Result<int, EvalErr>
    decreases e,
{
    match e {
        Expr::Num(n) => if k.in_range(n as int) {
            Ok(n as int)
        } else {
            Err(EvalErr::Invalid(n))
        },
        Expr::Neg(e0) => if k.signed() && (*e0) is Num {
            // Negating a literal under a signed kind negates the wide value
            // first, so that the minimum representable value's magnitude,
            // itself out of range, still negates to an in-range result.
            let nv = wneg128((*e0)->Num_0);
            if k.in_range(nv as int) {
                Ok(nv as int)
            } else {
                Err(EvalErr::Invalid(nv))
            }
        } else {
            match eval_spec(*e0, k) {
                Ok(a) => Ok(wrap(k, -a)),
                Err(er) => Err(er),
            }
        },
        Expr::Bitnot(e0) => match eval_spec(*e0, k) {
            Ok(a) => Ok(wrap(k, -1 - a)),
            Err(er) => Err(er),
        },
        Expr::Mul(l, r) => match eval_spec(*l, k) {
            Ok(a) => match eval_spec(*r, k) {
                Ok(b) => Ok(wrap(k, a * b)),
                Err(er) => Err(er),
            },
            Err(er) => Err(er),
        },
        Expr::Div(l, r) => match eval_spec(*l, k) {
            Ok(a) => match eval_spec(*r, k) {
                Ok(b) => if b == 0 {
                    Err(EvalErr::DivByZero)
                } else {
                    Ok(wrap(k, trunc_div(a, b)))
                },
                Err(er) => Err(er),
            },
            Err(er) => Err(er),
        },
        Expr::Rem(l, r) => match eval_spec(*l, k) {
            Ok(a) => match eval_spec(*r, k) {
                Ok(b) => if b == 0 {
                    Err(EvalErr::DivByZero)
                } else {
                    Ok(wrap(k, trunc_rem(a, b)))
                },
                Err(er) => Err(er),
            },
            Err(er) => Err(er),
        },
        Expr::Add(l, r) => match eval_spec(*l, k) {
            Ok(a) => match eval_spec(*r, k) {
                Ok(b) => Ok(wrap(k, a + b)),
                Err(er) => Err(er),
            },
            Err(er) => Err(er),
        },
        Expr::Sub(l, r) => match eval_spec(*l, k) {
            Ok(a) => match eval_spec(*r, k) {
                Ok(b) => Ok(wrap(k, a - b)),
                Err(er) => Err(er),
            },
            Err(er) => Err(er),
        },
        Expr::Shr(l, r) => match eval_spec(*l, k) {
            Ok(a) => match eval_spec(*r, k) {
                Ok(b) => Ok(a / pow2(shift_amt(k, b)) as int),
                Err(er) => Err(er),
            },
            Err(er) => Err(er),
        },
        Expr::Shl(l, r) => match eval_spec(*l, k) {
            Ok(a) => match eval_spec(*r, k) {
                Ok(b) => Ok(wrap(k, a * pow2(shift_amt(k, b)))),
                Err(er) => Err(er),
            },
            Err(er) => Err(er),
        },
        Expr::And(l, r) => match eval_spec(*l, k) {
            Ok(a) => match eval_spec(*r, k) {
                Ok(b) => Ok(val(k, pat(k, a) & pat(k, b))),
                Err(er) => Err(er),
            },
            Err(er) => Err(er),
        },
        Expr::Xor(l, r) => match eval_spec(*l, k) {
            Ok(a) => match eval_spec(*r, k) {
                Ok(b) => Ok(val(k, pat(k, a) ^ pat(k, b))),
                Err(er) => Err(er),
            },
            Err(er) => Err(er),
        },
        Expr::Or(l, r) => match eval_spec(*l, k) {
            Ok(a) => match eval_spec(*r, k) {
                Ok(b) => Ok(val(k, pat(k, a) | pat(k, b))),
                Err(er) => Err(er),
            },
            Err(er) => Err(er),
        },
    }
}

/// Law: a literal evaluates to itself exactly when it is representable in
/// the chosen kind, and to a literal-range error carrying the literal
/// otherwise.
pub proof fn lemma_literal_range(k: Kind, n: i128)
    ensures
        k.in_range(n as int) ==> eval_spec(Expr::Num(n), k) == Ok::<int, EvalErr>(n as int),
        !k.in_range(n as int) ==> eval_spec(Expr::Num(n), k) == Err::<int, EvalErr>(
            EvalErr::Invalid(n),
        ),
{
    reveal(eval_spec);
}

/// Law: a binary operator applied to two representable literals evaluates
/// to the mathematically wrapped result of the operator — the sum, product,
/// difference, truncating quotient or remainder reduced modulo the kind's
/// range, the shift with its distance masked to the width, or the plain
/// bitwise combination — and division by zero is the only failure.
pub proof fn lemma_binop_literals(k: Kind, a: i128, b: i128)
    requires
        k.in_range(a as int),
        k.in_range(b as int),
    ensures
        eval_spec(Expr::Add(Box::new(Expr::Num(a)), Box::new(Expr::Num(b))), k) == Ok::<
            int,
            EvalErr,
        >(wrap(k, a + b)),
        eval_spec(Expr::Sub(Box::new(Expr::Num(a)), Box::new(Expr::Num(b))), k) == Ok::<
            int,
            EvalErr,
        >(wrap(k, a - b)),
        eval_spec(Expr::Mul(Box::new(Expr::Num(a)), Box::new(Expr::Num(b))), k) == Ok::<
            int,
            EvalErr,
        >(wrap(k, a * b)),
        b != 0 ==> eval_spec(Expr::Div(Box::new(Expr::Num(a)), Box::new(Expr::Num(b))), k) == Ok::<
            int,
            EvalErr,
        >(wrap(k, trunc_div(a as int, b as int))),
        b != 0 ==> eval_spec(Expr::Rem(Box::new(Expr::Num(a)), Box::new(Expr::Num(b))), k) == Ok::<
            int,
            EvalErr,
        >(wrap(k, trunc_rem(a as int, b as int))),
        b == 0 ==> eval_spec(Expr::Div(Box::new(Expr::Num(a)), Box::new(Expr::Num(b))), k) == Err::<
            int,
            EvalErr,
        >(EvalErr::DivByZero),
        b == 0 ==> eval_spec(Expr::Rem(Box::new(Expr::Num(a)), Box::new(Expr::Num(b))), k) == Err::<
            int,
            EvalErr,
        >(EvalErr::DivByZero),
        eval_spec(Expr::Shl(Box::new(Expr::Num(a)), Box::new(Expr::Num(b))), k) == Ok::<
            int,
            EvalErr,
        >(wrap(k, (a as int) * pow2(shift_amt(k, b as int)))),
        eval_spec(Expr::Shr(Box::new(Expr::Num(a)), Box::new(Expr::Num(b))), k) == Ok::<
            int,
            EvalErr,
        >((a as int) / pow2(shift_amt(k, b as int)) as int),
        eval_spec(Expr::And(Box::new(Expr::Num(a)), Box::new(Expr::Num(b))), k) == Ok::<
            int,
            EvalErr,
        >(val(k, pat(k, a as int) & pat(k, b as int))),
        eval_spec(Expr::Xor(Box::new(Expr::Num(a)), Box::new(Expr::Num(b))), k) == Ok::<
            int,
            EvalErr,
        >(val(k, pat(k, a as int) ^ pat(k, b as int))),
        eval_spec(Expr::Or(Box::new(Expr::Num(a)), Box::new(Expr::Num(b))), k) == Ok::<
            int,
            EvalErr,
        >(val(k, pat(k, a as int) | pat(k, b as int))),
{
    reveal_with_fuel(eval_spec, 2);
}

/// Law: negating the literal whose magnitude is one past the signed maximum
/// yields the minimum representable value, and subtracting one more wraps
/// around to the maximum. `h` is 2^(bits-1), the minimum's magnitude.
pub proof fn lemma_negate_min(k: Kind, h: i128)
    requires
        k.signed(),
        h as int == k.half(),
    ensures
        eval_spec(Expr::Neg(Box::new(Expr::Num(h))), k) == Ok::<int, EvalErr>(k.min_value()),
        eval_spec(
            Expr::Sub(Box::new(Expr::Neg(Box::new(Expr::Num(h)))), Box::new(Expr::Num(1))),
            k,
        ) == Ok::<int, EvalErr>(k.max_value()),
{
    reveal_with_fuel(eval_spec, 3);
    k.lemma_sizes();
    let m = k.modulus();
    crate::value::lemma_wrap_basics(k, -h - 1);
    vstd::arithmetic::div_mod::lemma_mod_add_multiples_vanish(-h - 1, m);
    vstd::arithmetic::div_mod::lemma_small_mod((m - h - 1) as nat, m as nat);
    assert(wrap(k, k.min_value() - 1) == k.max_value());
}

/// Composing a product node from two subtrees with known values wraps
/// their product.
proof fn lemma_mul_compose(l: Expr, r: Expr, k: Kind, a: int, b: int)
    requires
        eval_spec(l, k) == Ok::<int, EvalErr>(a),
        eval_spec(r, k) == Ok::<int, EvalErr>(b),
    ensures
        eval_spec(Expr::Mul(Box::new(l), Box::new(r)), k) == Ok::<int, EvalErr>(wrap(k, a * b)),
{
    reveal(eval_spec);
}

/// Law: parenthesization changes grouping but not the wrapped result; in
/// particular `(10 + 2) * 5` evaluates to 60 under every kind, since every
/// kind represents the intermediate values exactly.
pub proof fn lemma_paren_grouping(k: Kind)
    ensures
        eval_spec(
            Expr::Mul(
                Box::new(Expr::Add(Box::new(Expr::Num(10)), Box::new(Expr::Num(2)))),
                Box::new(Expr::Num(5)),
            ),
            k,
        ) == Ok::<int, EvalErr>(60),
{
    k.lemma_sizes();
    crate::value::lemma_wrap_basics(k, 12);
    crate::value::lemma_wrap_basics(k, 60);
    lemma_binop_literals(k, 10, 2);
    lemma_literal_range(k, 5);
    lemma_mul_compose(
        Expr::Add(Box::new(Expr::Num(10)), Box::new(Expr::Num(2))),
        Expr::Num(5),
        k,
        12,
        5,
    );
}

/// Negation of the widest literal container, wrapping on its minimum.
fn wneg128_ex(n: i128) -> (r: i128)
    ensures
        r == wneg128(n),
{
    if n == i128::MIN {
        n
    } else {
        -n
    }
}

/// Converts a wide literal into a machine value of kind `k`, failing when it
/// is not exactly representable.
fn lit_value(k: Kind, n: i128) -> (r: Result<Value, EvalErr>)
    ensures
        match r {
            Ok(v) => v.wf() && v.kind == k && k.in_range(n as int) && v@ == n as int,
            Err(er) => !k.in_range(n as int) && er == EvalErr::Invalid(n),
        },
{
    if n < k.min_i128() || n > k.max_i128() {
        Err(EvalErr::Invalid(n))
    } else {
        Ok(Value::of_in_range(k, n))
    }
}

impl Expr {
    /// Evaluates the tree under kind `k`, post-order, with every operator
    /// wrapping modulo `k`'s range as [`eval_spec`] states.
    pub fn eval(&self, k: Kind) -> (r: Result<Value, EvalErr>)
        ensures
            match r {
                Ok(v) => v.wf() && v.kind == k && eval_spec(*self, k) == Ok::<int, EvalErr>(v@),
                Err(er) => eval_spec(*self, k) == Err::<int, EvalErr>(er),
            },
        decreases *self, 1int,
    {
        match self {
            Expr::Num(n) => {
                let res = lit_value(k, *n);
                proof {
                    assert(match res {
                        Ok(v) => eval_spec(*self, k) == Ok::<int, EvalErr>(v@),
                        Err(er) => eval_spec(*self, k) == Err::<int, EvalErr>(er),
                    }) by {
                        reveal(eval_spec);
                    }
                }
                res
            },
            Expr::Neg(_) => self.eval_neg(k),
            Expr::Bitnot(_) => self.eval_bitnot(k),
            Expr::Mul(_, _) => self.eval_mul(k),
            Expr::Div(_, _) => self.eval_div(k),
            Expr::Rem(_, _) => self.eval_rem(k),
            Expr::Add(_, _) => self.eval_add(k),
            Expr::Sub(_, _) => self.eval_sub(k),
            Expr::Shr(_, _) => self.eval_shr(k),
            Expr::Shl(_, _) => self.eval_shl(k),
            Expr::And(_, _) => self.eval_and(k),
            Expr::Xor(_, _) => self.eval_xor(k),
            Expr::Or(_, _) => self.eval_or(k),
        }
    }

    /// The negation operator of [`Expr::eval`], split out so its proof
    /// stands alone. A literal operand under a signed kind is negated in the
    /// wide container before narrowing.
    fn eval_neg(&self, k: Kind) -> (r: Result<Value, EvalErr>)
        requires
            (*self) is Neg,
        ensures
            match r {
                Ok(v) => v.wf() && v.kind == k && eval_spec(*self, k) == Ok::<int, EvalErr>(v@),
                Err(er) => eval_spec(*self, k) == Err::<int, EvalErr>(er),
            },
        decreases *self, 0int,
    {
        match self {
            Expr::Neg(e0) => {
                if k.signed_ex() {
                    if let Expr::Num(n) = &**e0 {
                        let res = lit_value(k, wneg128_ex(*n));
                        proof {
                            assert(match res {
                                Ok(v) => eval_spec(*self, k) == Ok::<int, EvalErr>(v@),
                                Err(er) => eval_spec(*self, k) == Err::<int, EvalErr>(er),
                            }) by {
                                reveal(eval_spec);
                            }
                        }
                        return res;
                    }
                }
                match e0.eval(k) {
                    Ok(a) => {
                        let v = a.wrapping_neg();
                        proof {
                            assert(eval_spec(*self, k) == Ok::<int, EvalErr>(v@)) by {
                                reveal(eval_spec);
                            }
                        }
                        Ok(v)
                    },
                    Err(er) => {
                        proof {
                            assert(eval_spec(*self, k) == Err::<int, EvalErr>(er)) by {
                                reveal(eval_spec);
                            }
                        }
                        Err(er)
                    },
                }
            },
            _ => vstd::pervasive::unreached(),
        }
    }

    /// The bitwise-complement operator of [`Expr::eval`], split out so its
    /// proof stands alone.
    fn eval_bitnot(&self, k: Kind) -> (r: Result<Value, EvalErr>)
        requires
            (*self) is Bitnot,
        ensures
            match r {
                Ok(v) => v.wf() && v.kind == k && eval_spec(*self, k) == Ok::<int, EvalErr>(v@),
                Err(er) => eval_spec(*self, k) == Err::<int, EvalErr>(er),
            },
        decreases *self, 0int,
    {
        match self {
            Expr::Bitnot(e0) => match e0.eval(k) {
                Ok(a) => {
                    let v = a.bitnot();
                    proof {
                        assert(eval_spec(*self, k) == Ok::<int, EvalErr>(v@)) by {
                            reveal(eval_spec);
                        }
                    }
                    Ok(v)
                },
                Err(er) => {
                    proof {
                        assert(eval_spec(*self, k) == Err::<int, EvalErr>(er)) by {
                            reveal(eval_spec);
                        }
                    }
                    Err(er)
                },
            },
            _ => vstd::pervasive::unreached(),
        }
    }

    /// One operator of [`Expr::eval`], split out so each proof stands alone.
    fn eval_mul(&self, k: Kind) -> (r: Result<Value, EvalErr>)
        requires
            (*self) is Mul,
        ensures
            match r {
                Ok(v) => v.wf() && v.kind == k && eval_spec(*self, k) == Ok::<int, EvalErr>(v@),
                Err(er) => eval_spec(*self, k) == Err::<int, EvalErr>(er),
            },
        decreases *self, 0int,
    {
        match self {
            Expr::Mul(l, r) => match l.eval(k) {
                Ok(a) => match r.eval(k) {
                    Ok(b) => {
                        let v = a.wrapping_mul(b);
                        proof {
                            assert(eval_spec(*self, k) == Ok::<int, EvalErr>(v@)) by {
                                reveal(eval_spec);
                            }
                        }
                        Ok(v)
                    },
                    Err(er) => {
                        proof {
                            assert(eval_spec(*self, k) == Err::<int, EvalErr>(er)) by {
                                reveal(eval_spec);
                            }
                        }
                        Err(er)
                    },
                },
                Err(er) => {
                    proof {
                        assert(eval_spec(*self, k) == Err::<int, EvalErr>(er)) by {
                            reveal(eval_spec);
                        }
                    }
                    Err(er)
                },
            },
            _ => vstd::pervasive::unreached(),
        }
    }

    /// One operator of [`Expr::eval`], split out so each proof stands alone.
    fn eval_div(&self, k: Kind) -> (r: Result<Value, EvalErr>)
        requires
            (*self) is Div,
        ensures
            match r {
                Ok(v) => v.wf() && v.kind == k && eval_spec(*self, k) == Ok::<int, EvalErr>(v@),
                Err(er) => eval_spec(*self, k) == Err::<int, EvalErr>(er),
            },
        decreases *self, 0int,
    {
        match self {
            Expr::Div(l, r) => match l.eval(k) {
                Ok(a) => match r.eval(k) {
                    Ok(b) => if b.is_zero() {
                        proof {
                            assert(eval_spec(*self, k) == Err::<int, EvalErr>(EvalErr::DivByZero))
                                by {
                                reveal(eval_spec);
                            }
                        }
                        Err(EvalErr::DivByZero)
                    } else {
                        let v = a.wrapping_div(b);
                        proof {
                            assert(eval_spec(*self, k) == Ok::<int, EvalErr>(v@)) by {
                                reveal(eval_spec);
                            }
                        }
                        Ok(v)
                    },
                    Err(er) => {
                        proof {
                            assert(eval_spec(*self, k) == Err::<int, EvalErr>(er)) by {
                                reveal(eval_spec);
                            }
                        }
                        Err(er)
                    },
                },
                Err(er) => {
                    proof {
                        assert(eval_spec(*self, k) == Err::<int, EvalErr>(er)) by {
                            reveal(eval_spec);
                        }
                    }
                    Err(er)
                },
            },
            _ => vstd::pervasive::unreached(),
        }
    }

    /// One operator of [`Expr::eval`], split out so each proof stands alone.
    fn eval_rem(&self, k: Kind) -> (r: Result<Value, EvalErr>)
        requires
            (*self) is Rem,
        ensures
            match r {
                Ok(v) => v.wf() && v.kind == k && eval_spec(*self, k) == Ok::<int, EvalErr>(v@),
                Err(er) => eval_spec(*self, k) == Err::<int, EvalErr>(er),
            },
        decreases *self, 0int,
    {
        match self {
            Expr::Rem(l, r) => match l.eval(k) {
                Ok(a) => match r.eval(k) {
                    Ok(b) => if b.is_zero() {
                        proof {
                            assert(eval_spec(*self, k) == Err::<int, EvalErr>(EvalErr::DivByZero))
                                by {
                                reveal(eval_spec);
                            }
                        }
                        Err(EvalErr::DivByZero)
                    } else {
                        let v = a.wrapping_rem(b);
                        proof {
                            assert(eval_spec(*self, k) == Ok::<int, EvalErr>(v@)) by {
                                reveal(eval_spec);
                            }
                        }
                        Ok(v)
                    },
                    Err(er) => {
                        proof {
                            assert(eval_spec(*self, k) == Err::<int, EvalErr>(er)) by {
                                reveal(eval_spec);
                            }
                        }
                        Err(er)
                    },
                },
                Err(er) => {
                    proof {
                        assert(eval_spec(*self, k) == Err::<int, EvalErr>(er)) by {
                            reveal(eval_spec);
                        }
                    }
                    Err(er)
                },
            },
            _ => vstd::pervasive::unreached(),
        }
    }

    /// One operator of [`Expr::eval`], split out so each proof stands alone.
    fn eval_add(&self, k: Kind) -> (r: Result<Value, EvalErr>)
        requires
            (*self) is Add,
        ensures
            match r {
                Ok(v) => v.wf() && v.kind == k && eval_spec(*self, k) == Ok::<int, EvalErr>(v@),
                Err(er) => eval_spec(*self, k) == Err::<int, EvalErr>(er),
            },
        decreases *self, 0int,
    {
        match self {
            Expr::Add(l, r) => match l.eval(k) {
                Ok(a) => match r.eval(k) {
                    Ok(b) => {
                        let v = a.wrapping_add(b);
                        proof {
                            assert(eval_spec(*self, k) == Ok::<int, EvalErr>(v@)) by {
                                reveal(eval_spec);
                            }
                        }
                        Ok(v)
                    },
                    Err(er) => {
                        proof {
                            assert(eval_spec(*self, k) == Err::<int, EvalErr>(er)) by {
                                reveal(eval_spec);
                            }
                        }
                        Err(er)
                    },
                },
                Err(er) => {
                    proof {
                        assert(eval_spec(*self, k) == Err::<int, EvalErr>(er)) by {
                            reveal(eval_spec);
                        }
                    }
                    Err(er)
                },
            },
            _ => vstd::pervasive::unreached(),
        }
    }

    /// One operator of [`Expr::eval`], split out so each proof stands alone.
    fn eval_sub(&self, k: Kind) -> (r: Result<Value, EvalErr>)
        requires
            (*self) is Sub,
        ensures
            match r {
                Ok(v) => v.wf() && v.kind == k && eval_spec(*self, k) == Ok::<int, EvalErr>(v@),
                Err(er) => eval_spec(*self, k) == Err::<int, EvalErr>(er),
            },
        decreases *self, 0int,
    {
        match self {
            Expr::Sub(l, r) => match l.eval(k) {
                Ok(a) => match r.eval(k) {
                    Ok(b) => {
                        let v = a.wrapping_sub(b);
                        proof {
                            assert(eval_spec(*self, k) == Ok::<int, EvalErr>(v@)) by {
                                reveal(eval_spec);
                            }
                        }
                        Ok(v)
                    },
                    Err(er) => {
                        proof {
                            assert(eval_spec(*self, k) == Err::<int, EvalErr>(er)) by {
                                reveal(eval_spec);
                            }
                        }
                        Err(er)
                    },
                },
                Err(er) => {
                    proof {
                        assert(eval_spec(*self, k) == Err::<int, EvalErr>(er)) by {
                            reveal(eval_spec);
                        }
                    }
                    Err(er)
                },
            },
            _ => vstd::pervasive::unreached(),
        }
    }

    /// One operator of [`Expr::eval`], split out so each proof stands alone.
    fn eval_shr(&self, k: Kind) -> (r: Result<Value, EvalErr>)
        requires
            (*self) is Shr,
        ensures
            match r {
                Ok(v) => v.wf() && v.kind == k && eval_spec(*self, k) == Ok::<int, EvalErr>(v@),
                Err(er) => eval_spec(*self, k) == Err::<int, EvalErr>(er),
            },
        decreases *self, 0int,
    {
        match self {
            Expr::Shr(l, r) => match l.eval(k) {
                Ok(a) => match r.eval(k) {
                    Ok(b) => {
                        let v = a.wrapping_shr(b);
                        proof {
                            assert(eval_spec(*self, k) == Ok::<int, EvalErr>(v@)) by {
                                reveal(eval_spec);
                            }
                        }
                        Ok(v)
                    },
                    Err(er) => {
                        proof {
                            assert(eval_spec(*self, k) == Err::<int, EvalErr>(er)) by {
                                reveal(eval_spec);
                            }
                        }
                        Err(er)
                    },
                },
                Err(er) => {
                    proof {
                        assert(eval_spec(*self, k) == Err::<int, EvalErr>(er)) by {
                            reveal(eval_spec);
                        }
                    }
                    Err(er)
                },
            },
            _ => vstd::pervasive::unreached(),
        }
    }

    /// One operator of [`Expr::eval`], split out so each proof stands alone.
    fn eval_shl(&self, k: Kind) -> (r: Result<Value, EvalErr>)
        requires
            (*self) is Shl,
        ensures
            match r {
                Ok(v) => v.wf() && v.kind == k && eval_spec(*self, k) == Ok::<int, EvalErr>(v@),
                Err(er) => eval_spec(*self, k) == Err::<int, EvalErr>(er),
            },
        decreases *self, 0int,
    {
        match self {
            Expr::Shl(l, r) => match l.eval(k) {
                Ok(a) => match r.eval(k) {
                    Ok(b) => {
                        let v = a.wrapping_shl(b);
                        proof {
                            assert(eval_spec(*self, k) == Ok::<int, EvalErr>(v@)) by {
                                reveal(eval_spec);
                            }
                        }
                        Ok(v)
                    },
                    Err(er) => {
                        proof {
                            assert(eval_spec(*self, k) == Err::<int, EvalErr>(er)) by {
                                reveal(eval_spec);
                            }
                        }
                        Err(er)
                    },
                },
                Err(er) => {
                    proof {
                        assert(eval_spec(*self, k) == Err::<int, EvalErr>(er)) by {
                            reveal(eval_spec);
                        }
                    }
                    Err(er)
                },
            },
            _ => vstd::pervasive::unreached(),
        }
    }

    /// One operator of [`Expr::eval`], split out so each proof stands alone.
    fn eval_and(&self, k: Kind) -> (r: Result<Value, EvalErr>)
        requires
            (*self) is And,
        ensures
            match r {
                Ok(v) => v.wf() && v.kind == k && eval_spec(*self, k) == Ok::<int, EvalErr>(v@),
                Err(er) => eval_spec(*self, k) == Err::<int, EvalErr>(er),
            },
        decreases *self, 0int,
    {
        match self {
            Expr::And(l, r) => match l.eval(k) {
                Ok(a) => match r.eval(k) {
                    Ok(b) => {
                        let v = a.bitand(b);
                        proof {
                            assert(eval_spec(*self, k) == Ok::<int, EvalErr>(v@)) by {
                                reveal(eval_spec);
                            }
                        }
                        Ok(v)
                    },
                    Err(er) => {
                        proof {
                            assert(eval_spec(*self, k) == Err::<int, EvalErr>(er)) by {
                                reveal(eval_spec);
                            }
                        }
                        Err(er)
                    },
                },
                Err(er) => {
                    proof {
                        assert(eval_spec(*self, k) == Err::<int, EvalErr>(er)) by {
                            reveal(eval_spec);
                        }
                    }
                    Err(er)
                },
            },
            _ => vstd::pervasive::unreached(),
        }
    }

    /// One operator of [`Expr::eval`], split out so each proof stands alone.
    fn eval_xor(&self, k: Kind) -> (r: Result<Value, EvalErr>)
        requires
            (*self) is Xor,
        ensures
            match r {
                Ok(v) => v.wf() && v.kind == k && eval_spec(*self, k) == Ok::<int, EvalErr>(v@),
                Err(er) => eval_spec(*self, k) == Err::<int, EvalErr>(er),
            },
        decreases *self, 0int,
    {
        match self {
            Expr::Xor(l, r) => match l.eval(k) {
                Ok(a) => match r.eval(k) {
                    Ok(b) => {
                        let v = a.bitxor(b);
                        proof {
                            assert(eval_spec(*self, k) == Ok::<int, EvalErr>(v@)) by {
                                reveal(eval_spec);
                            }
                        }
                        Ok(v)
                    },
                    Err(er) => {
                        proof {
                            assert(eval_spec(*self, k) == Err::<int, EvalErr>(er)) by {
                                reveal(eval_spec);
                            }
                        }
                        Err(er)
                    },
                },
                Err(er) => {
                    proof {
                        assert(eval_spec(*self, k) == Err::<int, EvalErr>(er)) by {
                            reveal(eval_spec);
                        }
                    }
                    Err(er)
                },
            },
            _ => vstd::pervasive::unreached(),
        }
    }

    /// One operator of [`Expr::eval`], split out so each proof stands alone.
    fn eval_or(&self, k: Kind) -> (r: Result<Value, EvalErr>)
        requires
            (*self) is Or,
        ensures
            match r {
                Ok(v) => v.wf() && v.kind == k && eval_spec(*self, k) == Ok::<int, EvalErr>(v@),
                Err(er) => eval_spec(*self, k) == Err::<int, EvalErr>(er),
            },
        decreases *self, 0int,
    {
        match self {
            Expr::Or(l, r) => match l.eval(k) {
                Ok(a) => match r.eval(k) {
                    Ok(b) => {
                        let v = a.bitor(b);
                        proof {
                            assert(eval_spec(*self, k) == Ok::<int, EvalErr>(v@)) by {
                                reveal(eval_spec);
                            }
                        }
                        Ok(v)
                    },
                    Err(er) => {
                        proof {
                            assert(eval_spec(*self, k) == Err::<int, EvalErr>(er)) by {
                                reveal(eval_spec);
                            }
                        }
                        Err(er)
                    },
                },
                Err(er) => {
                    proof {
                        assert(eval_spec(*self, k) == Err::<int, EvalErr>(er)) by {
                            reveal(eval_spec);
                        }
                    }
                    Err(er)
                },
            },
            _ => vstd::pervasive::unreached(),
        }
    }
}

} // verus!
