//! Evaluation behavior over every kind: grouping, precedence, wrapping,
//! unary operators and literal radixes.

use progcalc::expr::EvalErr;
use progcalc::grammar::parse;
use progcalc::grammar::ParseError;
use progcalc::value::Kind;

fn eval_k(s: &str, k: Kind) -> i128 {
    parse(s).unwrap().eval(k).unwrap().to_i128()
}

fn simple_tests_u8() {
    let k = Kind::U8;
    assert_eq!(eval_k("1", k), 1);
    assert_eq!(eval_k("(1)", k), 1);
    assert_eq!(eval_k("(1 + 1)", k), 2);
    assert_eq!(eval_k("(1) + 1", k), 2);
    assert_eq!(eval_k("1 + (1)", k), 2);
    assert_eq!(eval_k("10 + 2 * 5", k), 20);
    assert_eq!(eval_k("(10 + 2) * 5", k), 60);

    assert_eq!(eval_k("10/3", k), 3);
    assert_eq!(eval_k("10 % 3", k), 1);

    assert_eq!(eval_k("2 & 1", k), 0);
    assert_eq!(eval_k("2 | 1", k), 3);
    assert_eq!(eval_k("3 ^ 1", k), 2);
    assert_eq!(eval_k("1 | 6 ^ 7 & 12", k), 3);
    assert_eq!(eval_k("(1 | 6) ^ 7 & 12", k), 3);
    assert_eq!(eval_k("1 | (6 ^ 7) & 12", k), 1);

    assert_eq!(eval_k("3 << 2", k), 12);
    assert_eq!(eval_k("12 >> 2", k), 3);

    assert_eq!(eval_k("0 - 1", k), 0u8.wrapping_sub(1) as i128);
    assert_eq!(eval_k("-64 + 3", k), 64u8.wrapping_neg().wrapping_add(3) as i128);

    assert_eq!(
        eval_k(&format!("{} + 1", u8::MAX), k),
        u8::MAX.wrapping_add(1) as i128
    );
}

fn simple_tests_u16() {
    let k = Kind::U16;
    assert_eq!(eval_k("1", k), 1);
    assert_eq!(eval_k("(1)", k), 1);
    assert_eq!(eval_k("(1 + 1)", k), 2);
    assert_eq!(eval_k("(1) + 1", k), 2);
    assert_eq!(eval_k("1 + (1)", k), 2);
    assert_eq!(eval_k("10 + 2 * 5", k), 20);
    assert_eq!(eval_k("(10 + 2) * 5", k), 60);

    assert_eq!(eval_k("10/3", k), 3);
    assert_eq!(eval_k("10 % 3", k), 1);

    assert_eq!(eval_k("2 & 1", k), 0);
    assert_eq!(eval_k("2 | 1", k), 3);
    assert_eq!(eval_k("3 ^ 1", k), 2);
    assert_eq!(eval_k("1 | 6 ^ 7 & 12", k), 3);
    assert_eq!(eval_k("(1 | 6) ^ 7 & 12", k), 3);
    assert_eq!(eval_k("1 | (6 ^ 7) & 12", k), 1);

    assert_eq!(eval_k("3 << 2", k), 12);
    assert_eq!(eval_k("12 >> 2", k), 3);

    assert_eq!(eval_k("0 - 1", k), 0u16.wrapping_sub(1) as i128);
    assert_eq!(eval_k("-64 + 3", k), 64u16.wrapping_neg().wrapping_add(3) as i128);

    assert_eq!(
        eval_k(&format!("{} + 1", u16::MAX), k),
        u16::MAX.wrapping_add(1) as i128
    );
}

fn simple_tests_u32() {
    let k = Kind::U32;
    assert_eq!(eval_k("1", k), 1);
    assert_eq!(eval_k("(1)", k), 1);
    assert_eq!(eval_k("(1 + 1)", k), 2);
    assert_eq!(eval_k("(1) + 1", k), 2);
    assert_eq!(eval_k("1 + (1)", k), 2);
    assert_eq!(eval_k("10 + 2 * 5", k), 20);
    assert_eq!(eval_k("(10 + 2) * 5", k), 60);

    assert_eq!(eval_k("10/3", k), 3);
    assert_eq!(eval_k("10 % 3", k), 1);

    assert_eq!(eval_k("2 & 1", k), 0);
    assert_eq!(eval_k("2 | 1", k), 3);
    assert_eq!(eval_k("3 ^ 1", k), 2);
    assert_eq!(eval_k("1 | 6 ^ 7 & 12", k), 3);
    assert_eq!(eval_k("(1 | 6) ^ 7 & 12", k), 3);
    assert_eq!(eval_k("1 | (6 ^ 7) & 12", k), 1);

    assert_eq!(eval_k("3 << 2", k), 12);
    assert_eq!(eval_k("12 >> 2", k), 3);

    assert_eq!(eval_k("0 - 1", k), 0u32.wrapping_sub(1) as i128);
    assert_eq!(eval_k("-64 + 3", k), 64u32.wrapping_neg().wrapping_add(3) as i128);

    assert_eq!(
        eval_k(&format!("{} + 1", u32::MAX), k),
        u32::MAX.wrapping_add(1) as i128
    );
}

fn simple_tests_u64() {
    let k = Kind::U64;
    assert_eq!(eval_k("1", k), 1);
    assert_eq!(eval_k("(1)", k), 1);
    assert_eq!(eval_k("(1 + 1)", k), 2);
    assert_eq!(eval_k("(1) + 1", k), 2);
    assert_eq!(eval_k("1 + (1)", k), 2);
    assert_eq!(eval_k("10 + 2 * 5", k), 20);
    assert_eq!(eval_k("(10 + 2) * 5", k), 60);

    assert_eq!(eval_k("10/3", k), 3);
    assert_eq!(eval_k("10 % 3", k), 1);

    assert_eq!(eval_k("2 & 1", k), 0);
    assert_eq!(eval_k("2 | 1", k), 3);
    assert_eq!(eval_k("3 ^ 1", k), 2);
    assert_eq!(eval_k("1 | 6 ^ 7 & 12", k), 3);
    assert_eq!(eval_k("(1 | 6) ^ 7 & 12", k), 3);
    assert_eq!(eval_k("1 | (6 ^ 7) & 12", k), 1);

    assert_eq!(eval_k("3 << 2", k), 12);
    assert_eq!(eval_k("12 >> 2", k), 3);

    assert_eq!(eval_k("0 - 1", k), 0u64.wrapping_sub(1) as i128);
    assert_eq!(eval_k("-64 + 3", k), 64u64.wrapping_neg().wrapping_add(3) as i128);

    assert_eq!(
        eval_k(&format!("{} + 1", u64::MAX), k),
        u64::MAX.wrapping_add(1) as i128
    );
}

fn simple_tests_i8() {
    let k = Kind::I8;
    assert_eq!(eval_k("1", k), 1);
    assert_eq!(eval_k("(1)", k), 1);
    assert_eq!(eval_k("(1 + 1)", k), 2);
    assert_eq!(eval_k("(1) + 1", k), 2);
    assert_eq!(eval_k("1 + (1)", k), 2);
    assert_eq!(eval_k("10 + 2 * 5", k), 20);
    assert_eq!(eval_k("(10 + 2) * 5", k), 60);

    assert_eq!(eval_k("10/3", k), 3);
    assert_eq!(eval_k("10 % 3", k), 1);

    assert_eq!(eval_k("2 & 1", k), 0);
    assert_eq!(eval_k("2 | 1", k), 3);
    assert_eq!(eval_k("3 ^ 1", k), 2);
    assert_eq!(eval_k("1 | 6 ^ 7 & 12", k), 3);
    assert_eq!(eval_k("(1 | 6) ^ 7 & 12", k), 3);
    assert_eq!(eval_k("1 | (6 ^ 7) & 12", k), 1);

    assert_eq!(eval_k("3 << 2", k), 12);
    assert_eq!(eval_k("12 >> 2", k), 3);

    assert_eq!(eval_k("0 - 1", k), 0i8.wrapping_sub(1) as i128);
    assert_eq!(eval_k("-64 + 3", k), 64i8.wrapping_neg().wrapping_add(3) as i128);

    assert_eq!(
        eval_k(&format!("{} + 1", i8::MAX), k),
        i8::MAX.wrapping_add(1) as i128
    );
}

fn simple_tests_i16() {
    let k = Kind::I16;
    assert_eq!(eval_k("1", k), 1);
    assert_eq!(eval_k("(1)", k), 1);
    assert_eq!(eval_k("(1 + 1)", k), 2);
    assert_eq!(eval_k("(1) + 1", k), 2);
    assert_eq!(eval_k("1 + (1)", k), 2);
    assert_eq!(eval_k("10 + 2 * 5", k), 20);
    assert_eq!(eval_k("(10 + 2) * 5", k), 60);

    assert_eq!(eval_k("10/3", k), 3);
    assert_eq!(eval_k("10 % 3", k), 1);

    assert_eq!(eval_k("2 & 1", k), 0);
    assert_eq!(eval_k("2 | 1", k), 3);
    assert_eq!(eval_k("3 ^ 1", k), 2);
    assert_eq!(eval_k("1 | 6 ^ 7 & 12", k), 3);
    assert_eq!(eval_k("(1 | 6) ^ 7 & 12", k), 3);
    assert_eq!(eval_k("1 | (6 ^ 7) & 12", k), 1);

    assert_eq!(eval_k("3 << 2", k), 12);
    assert_eq!(eval_k("12 >> 2", k), 3);

    assert_eq!(eval_k("0 - 1", k), 0i16.wrapping_sub(1) as i128);
    assert_eq!(eval_k("-64 + 3", k), 64i16.wrapping_neg().wrapping_add(3) as i128);

    assert_eq!(
        eval_k(&format!("{} + 1", i16::MAX), k),
        i16::MAX.wrapping_add(1) as i128
    );
}

fn simple_tests_i32() {
    let k = Kind::I32;
    assert_eq!(eval_k("1", k), 1);
    assert_eq!(eval_k("(1)", k), 1);
    assert_eq!(eval_k("(1 + 1)", k), 2);
    assert_eq!(eval_k("(1) + 1", k), 2);
    assert_eq!(eval_k("1 + (1)", k), 2);
    assert_eq!(eval_k("10 + 2 * 5", k), 20);
    assert_eq!(eval_k("(10 + 2) * 5", k), 60);

    assert_eq!(eval_k("10/3", k), 3);
    assert_eq!(eval_k("10 % 3", k), 1);

    assert_eq!(eval_k("2 & 1", k), 0);
    assert_eq!(eval_k("2 | 1", k), 3);
    assert_eq!(eval_k("3 ^ 1", k), 2);
    assert_eq!(eval_k("1 | 6 ^ 7 & 12", k), 3);
    assert_eq!(eval_k("(1 | 6) ^ 7 & 12", k), 3);
    assert_eq!(eval_k("1 | (6 ^ 7) & 12", k), 1);

    assert_eq!(eval_k("3 << 2", k), 12);
    assert_eq!(eval_k("12 >> 2", k), 3);

    assert_eq!(eval_k("0 - 1", k), 0i32.wrapping_sub(1) as i128);
    assert_eq!(eval_k("-64 + 3", k), 64i32.wrapping_neg().wrapping_add(3) as i128);

    assert_eq!(
        eval_k(&format!("{} + 1", i32::MAX), k),
        i32::MAX.wrapping_add(1) as i128
    );
}

fn simple_tests_i64() {
    let k = Kind::I64;
    assert_eq!(eval_k("1", k), 1);
    assert_eq!(eval_k("(1)", k), 1);
    assert_eq!(eval_k("(1 + 1)", k), 2);
    assert_eq!(eval_k("(1) + 1", k), 2);
    assert_eq!(eval_k("1 + (1)", k), 2);
    assert_eq!(eval_k("10 + 2 * 5", k), 20);
    assert_eq!(eval_k("(10 + 2) * 5", k), 60);

    assert_eq!(eval_k("10/3", k), 3);
    assert_eq!(eval_k("10 % 3", k), 1);

    assert_eq!(eval_k("2 & 1", k), 0);
    assert_eq!(eval_k("2 | 1", k), 3);
    assert_eq!(eval_k("3 ^ 1", k), 2);
    assert_eq!(eval_k("1 | 6 ^ 7 & 12", k), 3);
    assert_eq!(eval_k("(1 | 6) ^ 7 & 12", k), 3);
    assert_eq!(eval_k("1 | (6 ^ 7) & 12", k), 1);

    assert_eq!(eval_k("3 << 2", k), 12);
    assert_eq!(eval_k("12 >> 2", k), 3);

    assert_eq!(eval_k("0 - 1", k), 0i64.wrapping_sub(1) as i128);
    assert_eq!(eval_k("-64 + 3", k), 64i64.wrapping_neg().wrapping_add(3) as i128);

    assert_eq!(
        eval_k(&format!("{} + 1", i64::MAX), k),
        i64::MAX.wrapping_add(1) as i128
    );
}

#[test]
fn expr_simple() {
    simple_tests_u8();
    simple_tests_u16();
    simple_tests_u32();
    simple_tests_u64();

    simple_tests_i8();
    simple_tests_i16();
    simple_tests_i32();
    simple_tests_i64();
}

#[test]
fn malformed() {
    assert!(matches!(
        parse("1000000000000").unwrap().eval(Kind::U32),
        Err(EvalErr::Invalid(_))
    ));
    assert!(matches!(
        parse("0xg").unwrap_err(),
        ParseError::InvalidToken { .. }
    ));
    assert!(matches!(
        parse("0x1000000000000").unwrap().eval(Kind::U32),
        Err(EvalErr::Invalid(_))
    ));
    assert!(matches!(
        parse("0o9").unwrap_err(),
        ParseError::InvalidToken { .. }
    ));
    assert!(matches!(
        parse("0o1000000000000").unwrap().eval(Kind::U32),
        Err(EvalErr::Invalid(_))
    ));
    parse("10 + 1)").unwrap_err();
    parse("10 ++ 1)").unwrap_err();
    parse("10 += 1)").unwrap_err();
    parse("(10 + 1").unwrap_err();
    parse("10)( + 1").unwrap_err();
    parse("10() + 1").unwrap_err();

    assert!(matches!(
        parse("-256 - 1").unwrap().eval(Kind::I8),
        Err(EvalErr::Invalid(_))
    ));
}

#[test]
fn unary() {
    assert_eq!(eval_k("-1", Kind::U32), (-1i32 as u32) as i128);
    assert_eq!(eval_k("-0", Kind::U32), (-0i32 as u32) as i128);
    assert_eq!(eval_k("-5 - 6", Kind::U32), (-5i32 as u32).wrapping_sub(6) as i128);
    assert_eq!(eval_k("-5 + 6", Kind::U32), (-5i32 as u32).wrapping_add(6) as i128);
    assert_eq!(
        eval_k("-5 + -6", Kind::U32),
        (-5i32 as u32).wrapping_add(-6i32 as u32) as i128
    );

    assert_eq!(eval_k("!0", Kind::U32), (!0u32) as i128);
    assert_eq!(eval_k("!1", Kind::U32), (!1u32) as i128);
    assert_eq!(eval_k("!32", Kind::U32), (!32u32) as i128);
    assert_eq!(eval_k("!(-32)", Kind::U32), (!(-32i32 as u32)) as i128);
}

#[test]
fn radix_literal() {
    assert_eq!(eval_k("0xf", Kind::U32), 15);
    assert_eq!(eval_k("0o20", Kind::U32), 16);
    assert_eq!(eval_k("0xf ^ 0o20", Kind::U32), 31);
}

fn signed_tests_i8() {
    let k = Kind::I8;
    assert_eq!(eval_k("0", k), 0);
    assert_eq!(eval_k("1", k), 1);
    assert_eq!(eval_k("-1", k), -1);
    assert_eq!(eval_k("8 - 15", k), -7);
    assert_eq!(eval_k("-3 * - 15", k), 45);
    assert_eq!(eval_k("-3 * 15", k), -45);

    assert_eq!(
        eval_k(&format!("{} - 1", i8::MIN), k),
        i8::MIN.wrapping_sub(1) as i128
    );
    assert_eq!(
        eval_k(&format!("{} + 1", i8::MAX), k),
        i8::MAX.wrapping_add(1) as i128
    );
    assert_eq!(
        eval_k(&format!("-1 * {}", i8::MIN), k),
        i8::MIN.wrapping_mul(-1) as i128
    );
    assert_eq!(eval_k("23 >> 3", k), 23i8.wrapping_shr(3) as i128);
    assert_eq!(
        eval_k(&format!("{} >> 1", i8::MIN), k),
        i8::MIN.wrapping_shr(1) as i128
    );
    assert_eq!(eval_k("-1 >> 1", k), -1);
}

fn signed_tests_i16() {
    let k = Kind::I16;
    assert_eq!(eval_k("0", k), 0);
    assert_eq!(eval_k("1", k), 1);
    assert_eq!(eval_k("-1", k), -1);
    assert_eq!(eval_k("8 - 15", k), -7);
    assert_eq!(eval_k("-3 * - 15", k), 45);
    assert_eq!(eval_k("-3 * 15", k), -45);

    assert_eq!(
        eval_k(&format!("{} - 1", i16::MIN), k),
        i16::MIN.wrapping_sub(1) as i128
    );
    assert_eq!(
        eval_k(&format!("{} + 1", i16::MAX), k),
        i16::MAX.wrapping_add(1) as i128
    );
    assert_eq!(
        eval_k(&format!("-1 * {}", i16::MIN), k),
        i16::MIN.wrapping_mul(-1) as i128
    );
    assert_eq!(eval_k("23 >> 3", k), 23i16.wrapping_shr(3) as i128);
    assert_eq!(
        eval_k(&format!("{} >> 1", i16::MIN), k),
        i16::MIN.wrapping_shr(1) as i128
    );
    assert_eq!(eval_k("-1 >> 1", k), -1);
}

fn signed_tests_i32() {
    let k = Kind::I32;
    assert_eq!(eval_k("0", k), 0);
    assert_eq!(eval_k("1", k), 1);
    assert_eq!(eval_k("-1", k), -1);
    assert_eq!(eval_k("8 - 15", k), -7);
    assert_eq!(eval_k("-3 * - 15", k), 45);
    assert_eq!(eval_k("-3 * 15", k), -45);

    assert_eq!(
        eval_k(&format!("{} - 1", i32::MIN), k),
        i32::MIN.wrapping_sub(1) as i128
    );
    assert_eq!(
        eval_k(&format!("{} + 1", i32::MAX), k),
        i32::MAX.wrapping_add(1) as i128
    );
    assert_eq!(
        eval_k(&format!("-1 * {}", i32::MIN), k),
        i32::MIN.wrapping_mul(-1) as i128
    );
    assert_eq!(eval_k("23 >> 3", k), 23i32.wrapping_shr(3) as i128);
    assert_eq!(
        eval_k(&format!("{} >> 1", i32::MIN), k),
        i32::MIN.wrapping_shr(1) as i128
    );
    assert_eq!(eval_k("-1 >> 1", k), -1);
}

fn signed_tests_i64() {
    let k = Kind::I64;
    assert_eq!(eval_k("0", k), 0);
    assert_eq!(eval_k("1", k), 1);
    assert_eq!(eval_k("-1", k), -1);
    assert_eq!(eval_k("8 - 15", k), -7);
    assert_eq!(eval_k("-3 * - 15", k), 45);
    assert_eq!(eval_k("-3 * 15", k), -45);

    assert_eq!(
        eval_k(&format!("{} - 1", i64::MIN), k),
        i64::MIN.wrapping_sub(1) as i128
    );
    assert_eq!(
        eval_k(&format!("{} + 1", i64::MAX), k),
        i64::MAX.wrapping_add(1) as i128
    );
    assert_eq!(
        eval_k(&format!("-1 * {}", i64::MIN), k),
        i64::MIN.wrapping_mul(-1) as i128
    );
    assert_eq!(eval_k("23 >> 3", k), 23i64.wrapping_shr(3) as i128);
    assert_eq!(
        eval_k(&format!("{} >> 1", i64::MIN), k),
        i64::MIN.wrapping_shr(1) as i128
    );
    assert_eq!(eval_k("-1 >> 1", k), -1);
}

#[test]
fn signed() {
    signed_tests_i8();
    signed_tests_i16();
    signed_tests_i32();
    signed_tests_i64();
}
