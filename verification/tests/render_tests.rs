//! Full-pipeline checks: parse, evaluate, render, then decode the three
//! output lines and compare them against the expected value.

use progcalc::grammar::parse;
use progcalc::render::write_int;
use progcalc::render::Base;
use progcalc::value::Kind;

/// The value's unsigned bit pattern, zero-extended to 64 bits.
fn pattern(k: Kind, v: i128) -> u64 {
    let w = k.bits_ex();
    let mask: u64 = if w == 64 { u64::MAX } else { (1u64 << w) - 1 };
    (v as u64) & mask
}

fn is_hex_digit(c: char) -> bool {
    c.is_ascii_hexdigit()
}

fn hex_digit_val(c: char) -> u64 {
    c.to_digit(16).unwrap() as u64
}

/// The decimal line: an optionally signed integer followed by the base-10
/// marker.
fn check_dec(s: &str, k: Kind, expected: i128) {
    let body = s.strip_suffix("\u{2081}\u{2080}").expect("missing dec marker");
    let trimmed = body.trim();
    let val: i128 = trimmed.parse().expect("bad decimal line");
    assert_eq!(val, expected);
    let _ = k;
}

/// The hex line: space-padded hex digits ending with the base-16 marker.
/// Reassembling the digits by shifting must rebuild the bit pattern.
fn check_hex(s: &str, k: Kind, expected: i128) {
    let body = s.strip_suffix("\u{2081}\u{2086}").expect("missing hex marker");
    let mut val: u64 = 0;
    for c in body.chars() {
        if c == ' ' {
            continue;
        }
        assert!(is_hex_digit(c), "unexpected char {:?} in hex line", c);
        val = val.wrapping_shl(4).wrapping_add(hex_digit_val(c));
    }
    assert_eq!(val, pattern(k, expected));
}

/// The octal line: space-padded octal digits ending with the base-8 marker.
fn check_oct(s: &str, k: Kind, expected: i128) {
    let body = s.strip_suffix("\u{2088}").expect("missing oct marker");
    let mut val: u64 = 0;
    for c in body.chars() {
        if c == ' ' {
            continue;
        }
        assert!(('0'..='7').contains(&c), "unexpected char {:?} in oct line", c);
        val = val.wrapping_shl(3).wrapping_add(hex_digit_val(c));
    }
    assert_eq!(val, pattern(k, expected));
}

/// The binary line: zero-padded groups of the chunk size, space-separated,
/// ending with the base-2 marker; decoding the groups rebuilds the pattern.
fn check_bin(s: &str, base: Base, k: Kind, expected: i128) {
    let body = s.strip_suffix("\u{2082}").expect("missing bin marker");
    let group_bits: u32 = match base {
        Base::Hex => 4,
        Base::Oct => 3,
    };
    let mut val: u64 = 0;
    for group in body.split(' ') {
        assert!(!group.is_empty() && group.len() <= 4);
        let mut g: u64 = 0;
        for c in group.chars() {
            assert!(c == '0' || c == '1', "unexpected char {:?} in bin line", c);
            g = g * 2 + if c == '1' { 1 } else { 0 };
        }
        val = val.wrapping_shl(group_bits).wrapping_add(g);
    }
    assert_eq!(val, pattern(k, expected));
}

fn check_output(s: &str, base: Base, k: Kind, expected: i128) {
    let mut lines = s.lines();
    let dec = lines.next().expect("missing dec line");
    check_dec(dec, k, expected);

    let hex_or_oct = lines.next().expect("missing hex or oct line");
    match base {
        Base::Oct => check_oct(hex_or_oct, k, expected),
        Base::Hex => check_hex(hex_or_oct, k, expected),
    }

    let bin = lines.next().expect("missing bin line");
    check_bin(bin, base, k, expected);

    assert_eq!(lines.next(), None);
}

fn run(expr: &str, base: Base, k: Kind, expected: i128) {
    let tree = parse(expr).unwrap();
    let val = tree.eval(k).unwrap();
    assert_eq!(val.to_i128(), expected);

    let out: String = write_int(val, base).into_iter().collect();
    check_output(&out, base, k, expected);
}

#[test]
fn tests() {
    run("307200", Base::Hex, Kind::U32, 307200);
    run("-307200", Base::Hex, Kind::I32, -307200);
    run("307200", Base::Oct, Kind::U32, 307200);

    run("3 * 3", Base::Oct, Kind::U32, 3 * 3);
}

fn run_simple_u8(base: Base) {
    let k = Kind::U8;
    run("1", base, k, 1);
    run("(1)", base, k, 1);
    run("(1 + 1)", base, k, 2);
    run("(1) + 1", base, k, 2);
    run("1 + (1)", base, k, 2);
    run("10 + 2 * 5", base, k, 20);
    run("(10 + 2) * 5", base, k, 60);

    run("10/3", base, k, 3);
    run("10 % 3", base, k, 1);

    run("2 & 1", base, k, 0);
    run("2 | 1", base, k, 3);
    run("3 ^ 1", base, k, 2);
    run("1 | 6 ^ 7 & 12", base, k, 3);
    run("(1 | 6) ^ 7 & 12", base, k, 3);
    run("1 | (6 ^ 7) & 12", base, k, 1);
    run("!34", base, k, !34u8 as i128);
    run("~34", base, k, !34u8 as i128);

    run("3 << 2", base, k, 12);
    run("12 >> 2", base, k, 3);

    run("0 - 1", base, k, 0u8.wrapping_sub(1) as i128);
    run(
        "-64 + 3",
        base,
        k,
        64u8.wrapping_neg().wrapping_add(3) as i128,
    );

    run(
        &format!("{} + 1", u8::MAX),
        base,
        k,
        u8::MAX.wrapping_add(1) as i128,
    );
}

fn run_simple_u16(base: Base) {
    let k = Kind::U16;
    run("1", base, k, 1);
    run("(1)", base, k, 1);
    run("(1 + 1)", base, k, 2);
    run("(1) + 1", base, k, 2);
    run("1 + (1)", base, k, 2);
    run("10 + 2 * 5", base, k, 20);
    run("(10 + 2) * 5", base, k, 60);

    run("10/3", base, k, 3);
    run("10 % 3", base, k, 1);

    run("2 & 1", base, k, 0);
    run("2 | 1", base, k, 3);
    run("3 ^ 1", base, k, 2);
    run("1 | 6 ^ 7 & 12", base, k, 3);
    run("(1 | 6) ^ 7 & 12", base, k, 3);
    run("1 | (6 ^ 7) & 12", base, k, 1);
    run("!34", base, k, !34u16 as i128);
    run("~34", base, k, !34u16 as i128);

    run("3 << 2", base, k, 12);
    run("12 >> 2", base, k, 3);

    run("0 - 1", base, k, 0u16.wrapping_sub(1) as i128);
    run(
        "-64 + 3",
        base,
        k,
        64u16.wrapping_neg().wrapping_add(3) as i128,
    );

    run(
        &format!("{} + 1", u16::MAX),
        base,
        k,
        u16::MAX.wrapping_add(1) as i128,
    );
}

fn run_simple_u32(base: Base) {
    let k = Kind::U32;
    run("1", base, k, 1);
    run("(1)", base, k, 1);
    run("(1 + 1)", base, k, 2);
    run("(1) + 1", base, k, 2);
    run("1 + (1)", base, k, 2);
    run("10 + 2 * 5", base, k, 20);
    run("(10 + 2) * 5", base, k, 60);

    run("10/3", base, k, 3);
    run("10 % 3", base, k, 1);

    run("2 & 1", base, k, 0);
    run("2 | 1", base, k, 3);
    run("3 ^ 1", base, k, 2);
    run("1 | 6 ^ 7 & 12", base, k, 3);
    run("(1 | 6) ^ 7 & 12", base, k, 3);
    run("1 | (6 ^ 7) & 12", base, k, 1);
    run("!34", base, k, !34u32 as i128);
    run("~34", base, k, !34u32 as i128);

    run("3 << 2", base, k, 12);
    run("12 >> 2", base, k, 3);

    run("0 - 1", base, k, 0u32.wrapping_sub(1) as i128);
    run(
        "-64 + 3",
        base,
        k,
        64u32.wrapping_neg().wrapping_add(3) as i128,
    );

    run(
        &format!("{} + 1", u32::MAX),
        base,
        k,
        u32::MAX.wrapping_add(1) as i128,
    );
}

fn run_simple_u64(base: Base) {
    let k = Kind::U64;
    run("1", base, k, 1);
    run("(1)", base, k, 1);
    run("(1 + 1)", base, k, 2);
    run("(1) + 1", base, k, 2);
    run("1 + (1)", base, k, 2);
    run("10 + 2 * 5", base, k, 20);
    run("(10 + 2) * 5", base, k, 60);

    run("10/3", base, k, 3);
    run("10 % 3", base, k, 1);

    run("2 & 1", base, k, 0);
    run("2 | 1", base, k, 3);
    run("3 ^ 1", base, k, 2);
    run("1 | 6 ^ 7 & 12", base, k, 3);
    run("(1 | 6) ^ 7 & 12", base, k, 3);
    run("1 | (6 ^ 7) & 12", base, k, 1);
    run("!34", base, k, !34u64 as i128);
    run("~34", base, k, !34u64 as i128);

    run("3 << 2", base, k, 12);
    run("12 >> 2", base, k, 3);

    run("0 - 1", base, k, 0u64.wrapping_sub(1) as i128);
    run(
        "-64 + 3",
        base,
        k,
        64u64.wrapping_neg().wrapping_add(3) as i128,
    );

    run(
        &format!("{} + 1", u64::MAX),
        base,
        k,
        u64::MAX.wrapping_add(1) as i128,
    );
}

fn run_simple_i8(base: Base) {
    let k = Kind::I8;
    run("1", base, k, 1);
    run("(1)", base, k, 1);
    run("(1 + 1)", base, k, 2);
    run("(1) + 1", base, k, 2);
    run("1 + (1)", base, k, 2);
    run("10 + 2 * 5", base, k, 20);
    run("(10 + 2) * 5", base, k, 60);

    run("10/3", base, k, 3);
    run("10 % 3", base, k, 1);

    run("2 & 1", base, k, 0);
    run("2 | 1", base, k, 3);
    run("3 ^ 1", base, k, 2);
    run("1 | 6 ^ 7 & 12", base, k, 3);
    run("(1 | 6) ^ 7 & 12", base, k, 3);
    run("1 | (6 ^ 7) & 12", base, k, 1);
    run("!34", base, k, !34i8 as i128);
    run("~34", base, k, !34i8 as i128);

    run("3 << 2", base, k, 12);
    run("12 >> 2", base, k, 3);

    run("0 - 1", base, k, 0i8.wrapping_sub(1) as i128);
    run(
        "-64 + 3",
        base,
        k,
        64i8.wrapping_neg().wrapping_add(3) as i128,
    );

    run(
        &format!("{} + 1", i8::MAX),
        base,
        k,
        i8::MAX.wrapping_add(1) as i128,
    );
}

fn run_simple_i16(base: Base) {
    let k = Kind::I16;
    run("1", base, k, 1);
    run("(1)", base, k, 1);
    run("(1 + 1)", base, k, 2);
    run("(1) + 1", base, k, 2);
    run("1 + (1)", base, k, 2);
    run("10 + 2 * 5", base, k, 20);
    run("(10 + 2) * 5", base, k, 60);

    run("10/3", base, k, 3);
    run("10 % 3", base, k, 1);

    run("2 & 1", base, k, 0);
    run("2 | 1", base, k, 3);
    run("3 ^ 1", base, k, 2);
    run("1 | 6 ^ 7 & 12", base, k, 3);
    run("(1 | 6) ^ 7 & 12", base, k, 3);
    run("1 | (6 ^ 7) & 12", base, k, 1);
    run("!34", base, k, !34i16 as i128);
    run("~34", base, k, !34i16 as i128);

    run("3 << 2", base, k, 12);
    run("12 >> 2", base, k, 3);

    run("0 - 1", base, k, 0i16.wrapping_sub(1) as i128);
    run(
        "-64 + 3",
        base,
        k,
        64i16.wrapping_neg().wrapping_add(3) as i128,
    );

    run(
        &format!("{} + 1", i16::MAX),
        base,
        k,
        i16::MAX.wrapping_add(1) as i128,
    );
}

fn run_simple_i32(base: Base) {
    let k = Kind::I32;
    run("1", base, k, 1);
    run("(1)", base, k, 1);
    run("(1 + 1)", base, k, 2);
    run("(1) + 1", base, k, 2);
    run("1 + (1)", base, k, 2);
    run("10 + 2 * 5", base, k, 20);
    run("(10 + 2) * 5", base, k, 60);

    run("10/3", base, k, 3);
    run("10 % 3", base, k, 1);

    run("2 & 1", base, k, 0);
    run("2 | 1", base, k, 3);
    run("3 ^ 1", base, k, 2);
    run("1 | 6 ^ 7 & 12", base, k, 3);
    run("(1 | 6) ^ 7 & 12", base, k, 3);
    run("1 | (6 ^ 7) & 12", base, k, 1);
    run("!34", base, k, !34i32 as i128);
    run("~34", base, k, !34i32 as i128);

    run("3 << 2", base, k, 12);
    run("12 >> 2", base, k, 3);

    run("0 - 1", base, k, 0i32.wrapping_sub(1) as i128);
    run(
        "-64 + 3",
        base,
        k,
        64i32.wrapping_neg().wrapping_add(3) as i128,
    );

    run(
        &format!("{} + 1", i32::MAX),
        base,
        k,
        i32::MAX.wrapping_add(1) as i128,
    );
}

fn run_simple_i64(base: Base) {
    let k = Kind::I64;
    run("1", base, k, 1);
    run("(1)", base, k, 1);
    run("(1 + 1)", base, k, 2);
    run("(1) + 1", base, k, 2);
    run("1 + (1)", base, k, 2);
    run("10 + 2 * 5", base, k, 20);
    run("(10 + 2) * 5", base, k, 60);

    run("10/3", base, k, 3);
    run("10 % 3", base, k, 1);

    run("2 & 1", base, k, 0);
    run("2 | 1", base, k, 3);
    run("3 ^ 1", base, k, 2);
    run("1 | 6 ^ 7 & 12", base, k, 3);
    run("(1 | 6) ^ 7 & 12", base, k, 3);
    run("1 | (6 ^ 7) & 12", base, k, 1);
    run("!34", base, k, !34i64 as i128);
    run("~34", base, k, !34i64 as i128);

    run("3 << 2", base, k, 12);
    run("12 >> 2", base, k, 3);

    run("0 - 1", base, k, 0i64.wrapping_sub(1) as i128);
    run(
        "-64 + 3",
        base,
        k,
        64i64.wrapping_neg().wrapping_add(3) as i128,
    );

    run(
        &format!("{} + 1", i64::MAX),
        base,
        k,
        i64::MAX.wrapping_add(1) as i128,
    );
}

#[test]
fn main_simple() {
    for base in [Base::Hex, Base::Oct] {
        run_simple_u8(base);
        run_simple_u16(base);
        run_simple_u32(base);
        run_simple_u64(base);

        run_simple_i8(base);
        run_simple_i16(base);
        run_simple_i32(base);
        run_simple_i64(base);
    }
}
