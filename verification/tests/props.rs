//! Scenario checks for the documented edge cases: shift masking, overflow
//! wrapping, literal range, minimum negation, division by zero, exact
//! formatter output and the whole-line pipeline.

use progcalc::eval_line;
use progcalc::expr::Error;
use progcalc::expr::EvalErr;
use progcalc::grammar::parse;
use progcalc::grammar::ParseError;
use progcalc::render::write_int;
use progcalc::render::Base;
use progcalc::ast::Expr;
use progcalc::value::Kind;
use progcalc::CalcError;

fn eval_k(s: &str, k: Kind) -> i128 {
    parse(s).unwrap().eval(k).unwrap().to_i128()
}

#[test]
fn shift_amount_masked() {
    assert_eq!(eval_k("1 << 35", Kind::U32), 8);
    assert_eq!(eval_k("1 << 3", Kind::U32), 8);
    assert_eq!(eval_k("1 << 35", Kind::I32), 8);
    assert_eq!(eval_k("256 >> 33", Kind::U32), 128);
}

#[test]
fn overflow_wraps() {
    assert_eq!(eval_k("255 + 1", Kind::U8), 0);
    assert_eq!(eval_k("128 * 2", Kind::U8), 0);
    assert_eq!(eval_k("127 + 1", Kind::I8), -128);
}

#[test]
fn literal_range_checked_at_eval() {
    let tree = parse("4294967296").unwrap();
    assert!(matches!(tree.eval(Kind::U32), Err(EvalErr::Invalid(4294967296))));
    assert_eq!(tree.eval(Kind::U64).unwrap().to_i128(), 4294967296);
}

#[test]
fn negate_min_value() {
    assert_eq!(eval_k("-128", Kind::I8), -128);
    assert_eq!(eval_k("-128 - 1", Kind::I8), 127);
    assert_eq!(eval_k("-9223372036854775808", Kind::I64), i64::MIN as i128);
}

#[test]
fn division_by_zero_is_an_error() {
    assert!(matches!(
        parse("1 / 0").unwrap().eval(Kind::U32),
        Err(EvalErr::DivByZero)
    ));
    assert!(matches!(
        parse("1 % 0").unwrap().eval(Kind::I16),
        Err(EvalErr::DivByZero)
    ));
    assert_eq!(eval_k("-7 / 2", Kind::I8), -3);
    assert_eq!(eval_k("-7 % 2", Kind::I8), -1);
}

#[test]
fn parse_error_variants() {
    assert!(matches!(parse(""), Err(ParseError::UnexpectedEnd)));
    assert!(matches!(parse("10 +"), Err(ParseError::UnexpectedEnd)));
    assert!(matches!(parse("(10 + 1"), Err(ParseError::UnexpectedEnd)));
    assert!(matches!(
        parse("10 1"),
        Err(ParseError::UnexpectedToken { index: 1 })
    ));
    assert!(matches!(
        parse("10 = 1"),
        Err(ParseError::InvalidToken { offset: 3 })
    ));
    assert!(matches!(
        parse("1 < 2"),
        Err(ParseError::InvalidToken { offset: 2 })
    ));
    assert!(matches!(
        parse("170141183460469231731687303715884105728"),
        Err(ParseError::Lit(Error::LitParse { start: 0, end: 39 }))
    ));
}

#[test]
fn exact_format_small_octal() {
    let v = parse("5").unwrap().eval(Kind::U8).unwrap();
    let out: String = write_int(v, Base::Oct).into_iter().collect();
    assert_eq!(
        out,
        "5\u{2081}\u{2080}\n         5\u{2088}\n00 000 101\u{2082}\n"
    );
}

#[test]
fn exact_format_hex_byte() {
    let v = parse("0xAB").unwrap().eval(Kind::U8).unwrap();
    let out: String = write_int(v, Base::Hex).into_iter().collect();
    assert_eq!(
        out,
        "171\u{2081}\u{2080}\n   A    B\u{2081}\u{2086}\n1010 1011\u{2082}\n"
    );
}

#[test]
fn eval_line_pipeline() {
    let out: String = eval_line("(10 + 2) * 5", Kind::U16, Base::Hex)
        .unwrap()
        .into_iter()
        .collect();
    let direct: String = write_int(
        parse("(10 + 2) * 5").unwrap().eval(Kind::U16).unwrap(),
        Base::Hex,
    )
    .into_iter()
    .collect();
    assert_eq!(out, direct);
    assert!(out.starts_with("60\u{2081}\u{2080}\n"));

    assert!(matches!(
        eval_line("1 +", Kind::U8, Base::Oct),
        Err(CalcError::Parse(ParseError::UnexpectedEnd))
    ));
    assert!(matches!(
        eval_line("300", Kind::U8, Base::Oct),
        Err(CalcError::Eval(EvalErr::Invalid(300)))
    ));
}

#[test]
fn ast_fixed_width_eval() {
    let tree = Expr::Mul(
        Box::new(Expr::Add(Box::new(Expr::Num(10)), Box::new(Expr::Num(2)))),
        Box::new(Expr::Num(5)),
    );
    assert_eq!(tree.eval(), 60);
    let wrap = Expr::Add(Box::new(Expr::Num(u32::MAX)), Box::new(Expr::Num(1)));
    assert_eq!(wrap.eval(), 0);
    let shifted = Expr::Shl(Box::new(Expr::Num(1)), Box::new(Expr::Num(35)));
    assert_eq!(shifted.eval(), 8);
    let neg = Expr::Neg(Box::new(Expr::Num(1)));
    assert_eq!(neg.eval(), u32::MAX);
}

#[test]
fn radix_prefixes_either_case() {
    assert_eq!(eval_k("0XF", Kind::U32), 15);
    assert_eq!(eval_k("0O20", Kind::U32), 16);
    assert_eq!(eval_k("0xff", Kind::U32), 255);
}

#[test]
fn whitespace_is_free() {
    assert_eq!(eval_k("  1\t+\n2  ", Kind::U32), 3);
    assert_eq!(eval_k("1+2*3", Kind::U32), 7);
}
