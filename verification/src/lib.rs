//! Evaluation core of a fixed-width integer expression calculator.
//!
//! Text such as `(10 + 2) * 5` is parsed into an expression tree
//! ([`grammar`]), evaluated with two's-complement wraparound arithmetic for a
//! caller-chosen integer width and signedness ([`expr`], [`value`]), and the
//! result is rendered in decimal plus one alternate radix with an aligned
//! binary breakdown ([`render`]).

pub mod value;
pub mod ast;
pub mod expr;
pub mod grammar;
pub mod render;

use vstd::prelude::*;

verus! {

use vstd::string::StringSliceAdditionalSpecFns;
use crate::expr::EvalErr;
use crate::expr::eval_spec;
use crate::grammar::ParseError;
use crate::grammar::parse_spec;
use crate::render::Base;
use crate::render::alt_line;
use crate::render::bin_line;
use crate::render::dec_line;
use crate::value::Kind;
use crate::value::pat;

/// A failure anywhere along one evaluation: in the grammar, or while
/// evaluating the tree.
#[derive(Debug, Clone, Copy, PartialEq, Eq, Structural)]
pub enum CalcError {
    Parse(ParseError),
    Eval(EvalErr),
}

/// What one whole evaluation of `s` under kind `k` yields: the three output
/// lines of the result, or the first failure along the way.
pub open spec fn eval_line_spec(s: Seq<u8>, k: Kind, base: Base) -> Result<Seq<char>, CalcError> {
    match parse_spec(s) {
        Err(pe) => Err(CalcError::Parse(pe)),
        Ok(e) => match eval_spec(e, k) {
            Err(ee) => Err(CalcError::Eval(ee)),
            Ok(v) => Ok(
                dec_line(v) + alt_line(pat(k, v), k.bits(), base) + bin_line(
                    pat(k, v),
                    k.bits(),
                    base,
                ),
            ),
        },
    }
}

/// One whole evaluation: parses `text`, evaluates the tree under `k`, and
/// renders the result's three output lines.
pub fn eval_line(text: &str, k: Kind, base: Base) -> (r: Result<Vec<char>, CalcError>)
    ensures
        match r {
            Ok(out) => eval_line_spec(text.spec_bytes(), k, base) == Ok::<Seq<char>, CalcError>(
                out@,
            ),
            Err(e) => eval_line_spec(text.spec_bytes(), k, base) == Err::<Seq<char>, CalcError>(e),
        },
{
    match crate::grammar::parse(text) {
        Err(pe) => Err(CalcError::Parse(pe)),
        Ok(e) => match e.eval(k) {
            Err(ee) => Err(CalcError::Eval(ee)),
            Ok(v) => {
                proof {
                    v.lemma_wf_range();
                }
                Ok(crate::render::write_int(v, base))
            },
        },
    }
}

} // verus!
