//! The expression grammar: a lexer for literals, operators and parentheses,
//! and a recursive-descent parser that builds an [`Expr`] tree respecting
//! the precedence table documented on [`Expr`].
//!
//! The grammar is specified twice over: [`lex_from`] and the `parse_*` spec
//! functions define token-by-token what every input means, and the
//! executable [`parse`] is proved to return exactly [`parse_spec`] of its
//! input bytes.

use vstd::prelude::*;

verus! {

use vstd::string::StringSliceAdditionalSpecFns;
use crate::expr::Error;
use crate::expr::Expr;

/// One lexical token of the grammar.
#[derive(Debug, Clone, Copy, PartialEq, Eq, Structural)]
pub enum Token {
    /// An integer literal, already decoded into the widest container.
    Num(i128),
    Plus,
    Minus,
    Star,
    Slash,
    Percent,
    Shl,
    Shr,
    Amp,
    Caret,
    Pipe,
    /// Bitwise complement, written `~` or `!`.
    Not,
    LParen,
    RParen,
}

/// A failure to turn text into an expression tree.
#[derive(Debug, Clone, Copy, PartialEq, Eq, Structural)]
pub enum ParseError {
    /// The byte at `offset` cannot start or continue any token.
    InvalidToken { offset: usize },
    /// The token at `index` breaks the grammar.
    UnexpectedToken { index: usize },
    /// The input ended where the grammar demands more.
    UnexpectedEnd,
    /// A literal token does not fit the widest literal container.
    Lit(Error),
}

/// ASCII whitespace as the lexer skips it.
pub open spec fn is_ws(b: u8) -> bool {
    b == 32 || (9 <= b <= 13)
}

/// A decimal digit byte.
pub open spec fn is_dec(b: u8) -> bool {
    48 <= b <= 57
}

/// An octal digit byte.
pub open spec fn is_oct(b: u8) -> bool {
    48 <= b <= 55
}

/// A hexadecimal digit byte, either case.
pub open spec fn is_hex(b: u8) -> bool {
    is_dec(b) || (65 <= b <= 70) || (97 <= b <= 102)
}

/// A digit byte of the given radix (10, 8 or 16).
pub open spec fn is_digit(b: u8, radix: u32) -> bool {
    if radix == 16 {
        is_hex(b)
    } else if radix == 8 {
        is_oct(b)
    } else {
        is_dec(b)
    }
}

/// The numeric value of a digit byte.
pub open spec fn digit_val(b: u8) -> int {
    if is_dec(b) {
        b - 48
    } else if 65 <= b <= 70 {
        b - 55
    } else {
        b - 87
    }
}

/// First position at or after `i` whose byte is not a digit of `radix`:
/// the end of a maximal digit run.
pub open spec fn scan_end(s: Seq<u8>, i: int, radix: u32) -> int
    decreases s.len() - i,
{
    if 0 <= i < s.len() && is_digit(s[i], radix) {
        scan_end(s, i + 1, radix)
    } else {
        i
    }
}

/// The value of the digits in `[i, end)` read in `radix`, appended to an
/// accumulator already holding the digits before `i`.
pub open spec fn lit_val(s: Seq<u8>, i: int, end: int, radix: u32, acc: int) -> int
    decreases end - i,
{
    if i < end {
        lit_val(s, i + 1, end, radix, acc * radix + digit_val(s[i]))
    } else {
        acc
    }
}

/// A maximal digit run ends no earlier than it starts and within the input.
proof fn lemma_scan_end_bounds(s: Seq<u8>, i: int, radix: u32)
    requires
        0 <= i <= s.len(),
    ensures
        i <= scan_end(s, i, radix) <= s.len(),
    decreases s.len() - i,
{
    if i < s.len() && is_digit(s[i], radix) {
        lemma_scan_end_bounds(s, i + 1, radix);
    }
}

/// Reading further digits never shrinks a non-negative accumulator.
proof fn lemma_lit_val_lower(s: Seq<u8>, i: int, end: int, radix: u32, acc: int)
    requires
        0 <= acc,
        2 <= radix,
        forall|t: int| i <= t < end ==> 0 <= #[trigger] digit_val(s[t]),
    ensures
        lit_val(s, i, end, radix, acc) >= acc,
    decreases end - i,
{
    if i < end {
        assert(acc * radix >= acc) by (nonlinear_arith)
            requires
                acc >= 0,
                radix >= 2,
        ;
        lemma_lit_val_lower(s, i + 1, end, radix, acc * radix + digit_val(s[i]));
    }
}

/// Prepends a token to the outcome of lexing the rest of the input.
pub open spec fn lex_cons(t: Token, rest: Result<Seq<Token>, ParseError>) -> Result<
    Seq<Token>,
    ParseError,
> {
    match rest {
        Ok(ts) => Ok(seq![t] + ts),
        Err(e) => Err(e),
    }
}

/// The tokens of `s` from position `i` on: whitespace is skipped, `<<` and
/// `>>` are two-byte operators, and literals are maximal digit runs in
/// decimal, or in hex or octal after a `0x`/`0X` or `0o`/`0O` prefix. A byte
/// that fits no token is an invalid-token failure; a literal exceeding the
/// widest container is a literal failure carrying the token's span.
pub open spec fn lex_from(s: Seq<u8>, i: int) -> Result<Seq<Token>, ParseError>
    decreases s.len() - i, 1int,
{
    if i < 0 || i >= s.len() {
        Ok(Seq::empty())
    } else if is_ws(s[i]) {
        lex_from(s, i + 1)
    } else if s[i] == 43 {
        lex_cons(Token::Plus, lex_from(s, i + 1))
    } else if s[i] == 45 {
        lex_cons(Token::Minus, lex_from(s, i + 1))
    } else if s[i] == 42 {
        lex_cons(Token::Star, lex_from(s, i + 1))
    } else if s[i] == 47 {
        lex_cons(Token::Slash, lex_from(s, i + 1))
    } else if s[i] == 37 {
        lex_cons(Token::Percent, lex_from(s, i + 1))
    } else if s[i] == 38 {
        lex_cons(Token::Amp, lex_from(s, i + 1))
    } else if s[i] == 94 {
        lex_cons(Token::Caret, lex_from(s, i + 1))
    } else if s[i] == 124 {
        lex_cons(Token::Pipe, lex_from(s, i + 1))
    } else if s[i] == 126 || s[i] == 33 {
        lex_cons(Token::Not, lex_from(s, i + 1))
    } else if s[i] == 40 {
        lex_cons(Token::LParen, lex_from(s, i + 1))
    } else if s[i] == 41 {
        lex_cons(Token::RParen, lex_from(s, i + 1))
    } else if s[i] == 60 {
        if i + 1 < s.len() && s[i + 1] == 60 {
            lex_cons(Token::Shl, lex_from(s, i + 2))
        } else {
            Err(ParseError::InvalidToken { offset: i as usize })
        }
    } else if s[i] == 62 {
        if i + 1 < s.len() && s[i + 1] == 62 {
            lex_cons(Token::Shr, lex_from(s, i + 2))
        } else {
            Err(ParseError::InvalidToken { offset: i as usize })
        }
    } else if s[i] == 48 && i + 1 < s.len() && (s[i + 1] == 120 || s[i + 1] == 88) {
        lex_lit(s, i, i + 2, 16)
    } else if s[i] == 48 && i + 1 < s.len() && (s[i + 1] == 111 || s[i + 1] == 79) {
        lex_lit(s, i, i + 2, 8)
    } else if is_dec(s[i]) {
        lex_lit(s, i, i, 10)
    } else {
        Err(ParseError::InvalidToken { offset: i as usize })
    }
}

/// One literal token: digits of `radix` starting at `digits` (the token
/// itself starts at `start`, before any radix prefix), then the rest of the
/// input.
pub open spec fn lex_lit(s: Seq<u8>, start: int, digits: int, radix: u32) -> Result<
    Seq<Token>,
    ParseError,
>
    decreases s.len() - start, 0int,
{
    let j = scan_end(s, digits, radix);
    if j == digits {
        Err(ParseError::InvalidToken { offset: digits as usize })
    } else {
        let v = lit_val(s, digits, j, radix, 0);
        if v > i128::MAX {
            Err(ParseError::Lit(Error::LitParse { start: start as usize, end: j as usize }))
        } else if start < j <= s.len() {
            lex_cons(Token::Num(v as i128), lex_from(s, j))
        } else {
            // A maximal digit run always moves forward; this branch is
            // unreachable but keeps the recursion visibly bounded.
            Err(ParseError::UnexpectedEnd)
        }
    }
}

/// The tokens of the whole input.
pub open spec fn lex_spec(s: Seq<u8>) -> Result<Seq<Token>, ParseError> {
    lex_from(s, 0)
}

/// Every byte strictly inside a maximal digit run is a digit.
proof fn lemma_scan_all_digits(s: Seq<u8>, i: int, radix: u32)
    requires
        0 <= i <= s.len(),
    ensures
        forall|t: int| i <= t < scan_end(s, i, radix) ==> is_digit(#[trigger] s[t], radix),
    decreases s.len() - i,
{
    if i < s.len() && is_digit(s[i], radix) {
        lemma_scan_all_digits(s, i + 1, radix);
        lemma_scan_end_bounds(s, i + 1, radix);
    }
}

/// Whether `b` is a digit of `radix`.
fn is_digit_ex(b: u8, radix: u32) -> (r: bool)
    ensures
        r == is_digit(b, radix),
{
    if radix == 16 {
        (48 <= b && b <= 57) || (65 <= b && b <= 70) || (97 <= b && b <= 102)
    } else if radix == 8 {
        48 <= b && b <= 55
    } else {
        48 <= b && b <= 57
    }
}

/// The numeric value of a digit byte.
fn digit_val_ex(b: u8) -> (r: u32)
    requires
        is_hex(b),
    ensures
        r as int == digit_val(b),
        r < 16,
{
    if b <= 57 {
        (b - 48) as u32
    } else if b <= 70 {
        (b - 55) as u32
    } else {
        (b - 87) as u32
    }
}

/// Finds the end of the maximal digit run starting at `from`.
fn scan_digits(s: &[u8], from: usize, radix: u32) -> (j: usize)
    requires
        from <= s@.len(),
    ensures
        j as int == scan_end(s@, from as int, radix),
        from <= j <= s@.len(),
    decreases s@.len() - from,
{
    proof {
        lemma_scan_end_bounds(s@, from as int, radix);
    }
    let mut j = from;
    while j < s.len() && is_digit_ex(s[j], radix)
        invariant
            from <= j <= s@.len(),
            scan_end(s@, from as int, radix) == scan_end(s@, j as int, radix),
        decreases s@.len() - j,
    {
        j = j + 1;
    }
    j
}

/// Decodes the literal whose digits start at `digits` (the token itself
/// starts at `start`, before any radix prefix). On success the value and the
/// position after the last digit come back; every failure is exactly what
/// [`lex_lit`] yields.
fn lit_token(s: &[u8], start: usize, digits: usize, radix: u32) -> (r: Result<
    (i128, usize),
    ParseError,
>)
    requires
        start <= digits <= s@.len(),
        radix == 10 || radix == 8 || radix == 16,
    ensures
        match r {
            Ok(p) => {
                let j = scan_end(s@, digits as int, radix);
                digits < p.1 == j && p.1 <= s@.len() && 0 <= p.0 && p.0 as int == lit_val(
                    s@,
                    digits as int,
                    j,
                    radix,
                    0,
                )
            },
            Err(e) => lex_lit(s@, start as int, digits as int, radix) == Err::<
                Seq<Token>,
                ParseError,
            >(e),
        },
{
    let ghost jj = scan_end(s@, digits as int, radix);
    proof {
        lemma_scan_end_bounds(s@, digits as int, radix);
        lemma_scan_all_digits(s@, digits as int, radix);
    }
    let j = scan_digits(s, digits, radix);
    if j == digits {
        return Err(ParseError::InvalidToken { offset: digits });
    }
    let mut acc: i128 = 0;
    let mut t = digits;
    while t < j
        invariant
            digits <= t <= j,
            j as int == jj,
            jj <= s@.len(),
            radix == 10 || radix == 8 || radix == 16,
            jj == scan_end(s@, digits as int, radix),
            forall|u: int| digits <= u < jj ==> is_digit(#[trigger] s@[u], radix),
            0 <= acc <= i128::MAX,
            lit_val(s@, digits as int, jj, radix, 0) == lit_val(s@, t as int, jj, radix, acc as int),
        decreases j - t,
    {
        let b = s[t];
        let d = digit_val_ex(b);
        let rad = radix as i128;
        let dd = d as i128;
        proof {
            assert(0 <= digit_val(s@[t as int]) < radix);
        }
        if acc > (i128::MAX - dd) / rad {
            proof {
                vstd::arithmetic::div_mod::lemma_fundamental_div_mod(
                    i128::MAX - dd,
                    rad as int,
                );
                let q = (i128::MAX - dd) / rad as int;
                assert(acc * rad > i128::MAX - dd) by (nonlinear_arith)
                    requires
                        acc >= q + 1,
                        rad >= 2,
                        q * rad + (rad - 1) >= i128::MAX - dd,
                ;
                assert(lit_val(s@, t as int, jj, radix, acc as int) == lit_val(
                    s@,
                    t + 1,
                    jj,
                    radix,
                    acc * rad + dd,
                ));
                assert(forall|u: int|
                    t + 1 <= u < jj ==> 0 <= #[trigger] digit_val(s@[u]));
                lemma_lit_val_lower(s@, t + 1, jj, radix, acc * rad + dd);
            }
            return Err(
                ParseError::Lit(Error::LitParse { start, end: j }),
            );
        }
        proof {
            vstd::arithmetic::div_mod::lemma_fundamental_div_mod(i128::MAX - dd, rad as int);
            let q = (i128::MAX - dd) / rad as int;
            assert(acc * rad <= q * rad) by (nonlinear_arith)
                requires
                    acc <= q,
                    rad >= 2,
            ;
            assert(q * rad <= i128::MAX - dd);
        }
        acc = acc * rad + dd;
        t = t + 1;
    }
    Ok((acc, j))
}

/// Splits the input into tokens, or reports the first lexical failure.
pub fn lex(s: &[u8]) -> (r: Result<Vec<Token>, ParseError>)
    ensures
        match r {
            Ok(ts) => lex_spec(s@) == Ok::<Seq<Token>, ParseError>(ts@),
            Err(e) => lex_spec(s@) == Err::<Seq<Token>, ParseError>(e),
        },
{
    let mut toks: Vec<Token> = Vec::new();
    let mut i: usize = 0;
    while i < s.len()
        invariant
            i <= s@.len(),
            (match lex_from(s@, i as int) {
                Ok(rest) => lex_spec(s@) == Ok::<Seq<Token>, ParseError>(toks@ + rest),
                Err(e) => lex_spec(s@) == Err::<Seq<Token>, ParseError>(e),
            }),
        decreases s@.len() - i,
    {
        let b = s[i];
        let tok: Token;
        let next: usize;
        if b == 32 || (9 <= b && b <= 13) {
            i = i + 1;
            continue ;
        } else if b == 43 {
            tok = Token::Plus;
            next = i + 1;
        } else if b == 45 {
            tok = Token::Minus;
            next = i + 1;
        } else if b == 42 {
            tok = Token::Star;
            next = i + 1;
        } else if b == 47 {
            tok = Token::Slash;
            next = i + 1;
        } else if b == 37 {
            tok = Token::Percent;
            next = i + 1;
        } else if b == 38 {
            tok = Token::Amp;
            next = i + 1;
        } else if b == 94 {
            tok = Token::Caret;
            next = i + 1;
        } else if b == 124 {
            tok = Token::Pipe;
            next = i + 1;
        } else if b == 126 || b == 33 {
            tok = Token::Not;
            next = i + 1;
        } else if b == 40 {
            tok = Token::LParen;
            next = i + 1;
        } else if b == 41 {
            tok = Token::RParen;
            next = i + 1;
        } else if b == 60 {
            if i + 1 < s.len() && s[i + 1] == 60 {
                tok = Token::Shl;
                next = i + 2;
            } else {
                return Err(ParseError::InvalidToken { offset: i });
            }
        } else if b == 62 {
            if i + 1 < s.len() && s[i + 1] == 62 {
                tok = Token::Shr;
                next = i + 2;
            } else {
                return Err(ParseError::InvalidToken { offset: i });
            }
        } else if b == 48 && i + 1 < s.len() && (s[i + 1] == 120 || s[i + 1] == 88) {
            match lit_token(s, i, i + 2, 16) {
                Ok(p) => {
                    tok = Token::Num(p.0);
                    next = p.1;
                },
                Err(e) => {
                    return Err(e);
                },
            }
        } else if b == 48 && i + 1 < s.len() && (s[i + 1] == 111 || s[i + 1] == 79) {
            match lit_token(s, i, i + 2, 8) {
                Ok(p) => {
                    tok = Token::Num(p.0);
                    next = p.1;
                },
                Err(e) => {
                    return Err(e);
                },
            }
        } else if 48 <= b && b <= 57 {
            match lit_token(s, i, i, 10) {
                Ok(p) => {
                    tok = Token::Num(p.0);
                    next = p.1;
                },
                Err(e) => {
                    return Err(e);
                },
            }
        } else {
            return Err(ParseError::InvalidToken { offset: i });
        }
        proof {
            assert(lex_from(s@, i as int) == lex_cons(tok, lex_from(s@, next as int)));
            match lex_from(s@, next as int) {
                Ok(rest) => {
                    assert(toks@ + (seq![tok] + rest) =~= toks@.push(tok) + rest);
                },
                Err(_) => {},
            }
        }
        toks.push(tok);
        i = next;
    }
    proof {
        assert(toks@ + Seq::<Token>::empty() =~= toks@);
    }
    Ok(toks)
}


/// A primary expression: a literal, or a parenthesized expression.
pub open spec fn parse_primary(toks: Seq<Token>, i: int) -> Result<(Expr, int), ParseError>
    decreases toks.len() - i, 1int,
{
    if i < 0 || i >= toks.len() {
        Err(ParseError::UnexpectedEnd)
    } else {
        match toks[i] {
            Token::Num(n) => Ok((Expr::Num(n), i + 1)),
            Token::LParen => match parse_or(toks, i + 1) {
                Ok(p) => if p.1 < toks.len() && toks[p.1] is RParen {
                    Ok((p.0, p.1 + 1))
                } else if p.1 < toks.len() {
                    Err(ParseError::UnexpectedToken { index: p.1 as usize })
                } else {
                    Err(ParseError::UnexpectedEnd)
                },
                Err(e) => Err(e),
            },
            _ => Err(ParseError::UnexpectedToken { index: i as usize }),
        }
    }
}

/// A unary chain: any number of prefix `-` or `~`/`!`, then a primary.
pub open spec fn parse_unary(toks: Seq<Token>, i: int) -> Result<(Expr, int), ParseError>
    decreases toks.len() - i, 2int,
{
    if 0 <= i < toks.len() && toks[i] is Minus {
        match parse_unary(toks, i + 1) {
            Ok(p) => Ok((Expr::Neg(Box::new(p.0)), p.1)),
            Err(e) => Err(e),
        }
    } else if 0 <= i < toks.len() && toks[i] is Not {
        match parse_unary(toks, i + 1) {
            Ok(p) => Ok((Expr::Bitnot(Box::new(p.0)), p.1)),
            Err(e) => Err(e),
        }
    } else {
        parse_primary(toks, i)
    }
}

/// The `*`, `/`, `%` precedence tier: one operand of the tier below, then any
/// number of operator-operand pairs, grouped left to right.
pub open spec fn parse_mul(toks: Seq<Token>, i: int) -> Result<(Expr, int), ParseError>
    decreases toks.len() - i, 3int,
{
    match parse_unary(toks, i) {
        Ok(p) => if i < p.1 <= toks.len() {
            parse_mul_rest(toks, p.1, p.0)
        } else {
            // A parsed operand always consumes tokens; this branch is
            // unreachable but keeps the recursion visibly bounded.
            Err(ParseError::UnexpectedEnd)
        },
        Err(e) => Err(e),
    }
}

/// The operator-operand pairs continuing a `parse_mul` chain after `acc`.
pub open spec fn parse_mul_rest(toks: Seq<Token>, j: int, acc: Expr) -> Result<
    (Expr, int),
    ParseError,
>
    decreases toks.len() - j, 3int,
{
    if 0 <= j < toks.len() && (toks[j] is Star || toks[j] is Slash || toks[j] is Percent) {
        match parse_unary(toks, j + 1) {
            Ok(p) => if j < p.1 <= toks.len() {
                let node = if toks[j] is Star {
                    Expr::Mul(Box::new(acc), Box::new(p.0))
                } else if toks[j] is Slash {
                    Expr::Div(Box::new(acc), Box::new(p.0))
                } else {
                    Expr::Rem(Box::new(acc), Box::new(p.0))
                };
                parse_mul_rest(toks, p.1, node)
            } else {
                Err(ParseError::UnexpectedEnd)
            },
            Err(e) => Err(e),
        }
    } else {
        Ok((acc, j))
    }
}

/// The `+`, `-` precedence tier: one operand of the tier below, then any
/// number of operator-operand pairs, grouped left to right.
pub open spec fn parse_add(toks: Seq<Token>, i: int) -> Result<(Expr, int), ParseError>
    decreases toks.len() - i, 4int,
{
    match parse_mul(toks, i) {
        Ok(p) => if i < p.1 <= toks.len() {
            parse_add_rest(toks, p.1, p.0)
        } else {
            // A parsed operand always consumes tokens; this branch is
            // unreachable but keeps the recursion visibly bounded.
            Err(ParseError::UnexpectedEnd)
        },
        Err(e) => Err(e),
    }
}

/// The operator-operand pairs continuing a `parse_add` chain after `acc`.
pub open spec fn parse_add_rest(toks: Seq<Token>, j: int, acc: Expr) -> Result<
    (Expr, int),
    ParseError,
>
    decreases toks.len() - j, 4int,
{
    if 0 <= j < toks.len() && (toks[j] is Plus || toks[j] is Minus) {
        match parse_mul(toks, j + 1) {
            Ok(p) => if j < p.1 <= toks.len() {
                let node = if toks[j] is Plus {
                    Expr::Add(Box::new(acc), Box::new(p.0))
                } else {
                    Expr::Sub(Box::new(acc), Box::new(p.0))
                };
                parse_add_rest(toks, p.1, node)
            } else {
                Err(ParseError::UnexpectedEnd)
            },
            Err(e) => Err(e),
        }
    } else {
        Ok((acc, j))
    }
}

/// The `>>`, `<<` precedence tier: one operand of the tier below, then any
/// number of operator-operand pairs, grouped left to right.
pub open spec fn parse_shift(toks: Seq<Token>, i: int) -> Result<(Expr, int), ParseError>
    decreases toks.len() - i, 5int,
{
    match parse_add(toks, i) {
        Ok(p) => if i < p.1 <= toks.len() {
            parse_shift_rest(toks, p.1, p.0)
        } else {
            // A parsed operand always consumes tokens; this branch is
            // unreachable but keeps the recursion visibly bounded.
            Err(ParseError::UnexpectedEnd)
        },
        Err(e) => Err(e),
    }
}

/// The operator-operand pairs continuing a `parse_shift` chain after `acc`.
pub open spec fn parse_shift_rest(toks: Seq<Token>, j: int, acc: Expr) -> Result<
    (Expr, int),
    ParseError,
>
    decreases toks.len() - j, 5int,
{
    if 0 <= j < toks.len() && (toks[j] is Shr || toks[j] is Shl) {
        match parse_add(toks, j + 1) {
            Ok(p) => if j < p.1 <= toks.len() {
                let node = if toks[j] is Shr {
                    Expr::Shr(Box::new(acc), Box::new(p.0))
                } else {
                    Expr::Shl(Box::new(acc), Box::new(p.0))
                };
                parse_shift_rest(toks, p.1, node)
            } else {
                Err(ParseError::UnexpectedEnd)
            },
            Err(e) => Err(e),
        }
    } else {
        Ok((acc, j))
    }
}

/// The `&` precedence tier: one operand of the tier below, then any
/// number of operator-operand pairs, grouped left to right.
pub open spec fn parse_and(toks: Seq<Token>, i: int) -> Result<(Expr, int), ParseError>
    decreases toks.len() - i, 6int,
{
    match parse_shift(toks, i) {
        Ok(p) => if i < p.1 <= toks.len() {
            parse_and_rest(toks, p.1, p.0)
        } else {
            // A parsed operand always consumes tokens; this branch is
            // unreachable but keeps the recursion visibly bounded.
            Err(ParseError::UnexpectedEnd)
        },
        Err(e) => Err(e),
    }
}

/// The operator-operand pairs continuing a `parse_and` chain after `acc`.
pub open spec fn parse_and_rest(toks: Seq<Token>, j: int, acc: Expr) -> Result<
    (Expr, int),
    ParseError,
>
    decreases toks.len() - j, 6int,
{
    if 0 <= j < toks.len() && (toks[j] is Amp) {
        match parse_shift(toks, j + 1) {
            Ok(p) => if j < p.1 <= toks.len() {
                let node = Expr::And(Box::new(acc), Box::new(p.0));
                parse_and_rest(toks, p.1, node)
            } else {
                Err(ParseError::UnexpectedEnd)
            },
            Err(e) => Err(e),
        }
    } else {
        Ok((acc, j))
    }
}

/// The `^` precedence tier: one operand of the tier below, then any
/// number of operator-operand pairs, grouped left to right.
pub open spec fn parse_xor(toks: Seq<Token>, i: int) -> Result<(Expr, int), ParseError>
    decreases toks.len() - i, 7int,
{
    match parse_and(toks, i) {
        Ok(p) => if i < p.1 <= toks.len() {
            parse_xor_rest(toks, p.1, p.0)
        } else {
            // A parsed operand always consumes tokens; this branch is
            // unreachable but keeps the recursion visibly bounded.
            Err(ParseError::UnexpectedEnd)
        },
        Err(e) => Err(e),
    }
}

/// The operator-operand pairs continuing a `parse_xor` chain after `acc`.
pub open spec fn parse_xor_rest(toks: Seq<Token>, j: int, acc: Expr) -> Result<
    (Expr, int),
    ParseError,
>
    decreases toks.len() - j, 7int,
{
    if 0 <= j < toks.len() && (toks[j] is Caret) {
        match parse_and(toks, j + 1) {
            Ok(p) => if j < p.1 <= toks.len() {
                let node = Expr::Xor(Box::new(acc), Box::new(p.0));
                parse_xor_rest(toks, p.1, node)
            } else {
                Err(ParseError::UnexpectedEnd)
            },
            Err(e) => Err(e),
        }
    } else {
        Ok((acc, j))
    }
}

/// The `|` precedence tier: one operand of the tier below, then any
/// number of operator-operand pairs, grouped left to right.
pub open spec fn parse_or(toks: Seq<Token>, i: int) -> Result<(Expr, int), ParseError>
    decreases toks.len() - i, 8int,
{
    match parse_xor(toks, i) {
        Ok(p) => if i < p.1 <= toks.len() {
            parse_or_rest(toks, p.1, p.0)
        } else {
            // A parsed operand always consumes tokens; this branch is
            // unreachable but keeps the recursion visibly bounded.
            Err(ParseError::UnexpectedEnd)
        },
        Err(e) => Err(e),
    }
}

/// The operator-operand pairs continuing a `parse_or` chain after `acc`.
pub open spec fn parse_or_rest(toks: Seq<Token>, j: int, acc: Expr) -> Result<
    (Expr, int),
    ParseError,
>
    decreases toks.len() - j, 8int,
{
    if 0 <= j < toks.len() && (toks[j] is Pipe) {
        match parse_xor(toks, j + 1) {
            Ok(p) => if j < p.1 <= toks.len() {
                let node = Expr::Or(Box::new(acc), Box::new(p.0));
                parse_or_rest(toks, p.1, node)
            } else {
                Err(ParseError::UnexpectedEnd)
            },
            Err(e) => Err(e),
        }
    } else {
        Ok((acc, j))
    }
}

/// A whole token sequence as one expression: the loosest tier, which must
/// consume every token.
pub open spec fn parse_toks(toks: Seq<Token>) -> Result<Expr, ParseError> {
    match parse_or(toks, 0) {
        Ok(p) => if p.1 == toks.len() {
            Ok(p.0)
        } else {
            Err(ParseError::UnexpectedToken { index: p.1 as usize })
        },
        Err(e) => Err(e),
    }
}

/// What parsing the input bytes yields: the expression tree, or the first
/// lexical or grammatical failure.
pub open spec fn parse_spec(s: Seq<u8>) -> Result<Expr, ParseError> {
    match lex_spec(s) {
        Ok(toks) => parse_toks(toks),
        Err(e) => Err(e),
    }
}

/// Executable form of [`parse_primary`].
fn parse_primary_ex(toks: &Vec<Token>, i: usize) -> (r: Result<(Expr, usize), ParseError>)
    ensures
        match r {
            Ok(p) => parse_primary(toks@, i as int) == Ok::<(Expr, int), ParseError>(
                (p.0, p.1 as int),
            ) && i < p.1 <= toks@.len(),
            Err(e) => parse_primary(toks@, i as int) == Err::<(Expr, int), ParseError>(e),
        },
    decreases toks@.len() - i, 1int,
{
    if i >= toks.len() {
        return Err(ParseError::UnexpectedEnd);
    }
    match toks[i] {
        Token::Num(n) => Ok((Expr::Num(n), i + 1)),
        Token::LParen => match parse_or_ex(toks, i + 1) {
            Ok(p) => {
                let (e, j) = p;
                if j < toks.len() {
                    match toks[j] {
                        Token::RParen => Ok((e, j + 1)),
                        _ => Err(ParseError::UnexpectedToken { index: j }),
                    }
                } else {
                    Err(ParseError::UnexpectedEnd)
                }
            },
            Err(e) => Err(e),
        },
        _ => Err(ParseError::UnexpectedToken { index: i }),
    }
}

/// Executable form of [`parse_unary`].
fn parse_unary_ex(toks: &Vec<Token>, i: usize) -> (r: Result<(Expr, usize), ParseError>)
    ensures
        match r {
            Ok(p) => parse_unary(toks@, i as int) == Ok::<(Expr, int), ParseError>(
                (p.0, p.1 as int),
            ) && i < p.1 <= toks@.len(),
            Err(e) => parse_unary(toks@, i as int) == Err::<(Expr, int), ParseError>(e),
        },
    decreases toks@.len() - i, 2int,
{
    if i < toks.len() {
        match toks[i] {
            Token::Minus => {
                return match parse_unary_ex(toks, i + 1) {
                    Ok(p) => Ok((Expr::Neg(Box::new(p.0)), p.1)),
                    Err(e) => Err(e),
                };
            },
            Token::Not => {
                return match parse_unary_ex(toks, i + 1) {
                    Ok(p) => Ok((Expr::Bitnot(Box::new(p.0)), p.1)),
                    Err(e) => Err(e),
                };
            },
            _ => {},
        }
    }
    parse_primary_ex(toks, i)
}

/// Executable form of [`parse_mul`].
fn parse_mul_ex(toks: &Vec<Token>, i: usize) -> (r: Result<(Expr, usize), ParseError>)
    ensures
        match r {
            Ok(p) => parse_mul(toks@, i as int) == Ok::<(Expr, int), ParseError>(
                (p.0, p.1 as int),
            ) && i < p.1 <= toks@.len(),
            Err(e) => parse_mul(toks@, i as int) == Err::<(Expr, int), ParseError>(e),
        },
    decreases toks@.len() - i, 3int,
{
    let (mut e, mut j) = match parse_unary_ex(toks, i) {
        Ok(p) => p,
        Err(er) => {
            return Err(er);
        },
    };
    loop
        invariant
            i < j <= toks@.len(),
            parse_mul_rest(toks@, j as int, e) == parse_mul(toks@, i as int),
        decreases toks@.len() - j,
    {
        if j >= toks.len() {
            return Ok((e, j));
        }
        let op = toks[j];
        match op {
            Token::Star | Token::Slash | Token::Percent => {},
            _ => {
                return Ok((e, j));
            },
        }
        match parse_unary_ex(toks, j + 1) {
            Ok(p) => {
                        e = match op {
                            Token::Star => Expr::Mul(Box::new(e), Box::new(p.0)),
                            Token::Slash => Expr::Div(Box::new(e), Box::new(p.0)),
                            _ => Expr::Rem(Box::new(e), Box::new(p.0)),
                        };
                j = p.1;
            },
            Err(er) => {
                return Err(er);
            },
        }
    }
}

/// Executable form of [`parse_add`].
fn parse_add_ex(toks: &Vec<Token>, i: usize) -> (r: Result<(Expr, usize), ParseError>)
    ensures
        match r {
            Ok(p) => parse_add(toks@, i as int) == Ok::<(Expr, int), ParseError>(
                (p.0, p.1 as int),
            ) && i < p.1 <= toks@.len(),
            Err(e) => parse_add(toks@, i as int) == Err::<(Expr, int), ParseError>(e),
        },
    decreases toks@.len() - i, 4int,
{
    let (mut e, mut j) = match parse_mul_ex(toks, i) {
        Ok(p) => p,
        Err(er) => {
            return Err(er);
        },
    };
    loop
        invariant
            i < j <= toks@.len(),
            parse_add_rest(toks@, j as int, e) == parse_add(toks@, i as int),
        decreases toks@.len() - j,
    {
        if j >= toks.len() {
            return Ok((e, j));
        }
        let op = toks[j];
        match op {
            Token::Plus | Token::Minus => {},
            _ => {
                return Ok((e, j));
            },
        }
        match parse_mul_ex(toks, j + 1) {
            Ok(p) => {
                        e = match op {
                            Token::Plus => Expr::Add(Box::new(e), Box::new(p.0)),
                            _ => Expr::Sub(Box::new(e), Box::new(p.0)),
                        };
                j = p.1;
            },
            Err(er) => {
                return Err(er);
            },
        }
    }
}

/// Executable form of [`parse_shift`].
fn parse_shift_ex(toks: &Vec<Token>, i: usize) -> (r: Result<(Expr, usize), ParseError>)
    ensures
        match r {
            Ok(p) => parse_shift(toks@, i as int) == Ok::<(Expr, int), ParseError>(
                (p.0, p.1 as int),
            ) && i < p.1 <= toks@.len(),
            Err(e) => parse_shift(toks@, i as int) == Err::<(Expr, int), ParseError>(e),
        },
    decreases toks@.len() - i, 5int,
{
    let (mut e, mut j) = match parse_add_ex(toks, i) {
        Ok(p) => p,
        Err(er) => {
            return Err(er);
        },
    };
    loop
        invariant
            i < j <= toks@.len(),
            parse_shift_rest(toks@, j as int, e) == parse_shift(toks@, i as int),
        decreases toks@.len() - j,
    {
        if j >= toks.len() {
            return Ok((e, j));
        }
        let op = toks[j];
        match op {
            Token::Shr | Token::Shl => {},
            _ => {
                return Ok((e, j));
            },
        }
        match parse_add_ex(toks, j + 1) {
            Ok(p) => {
                        e = match op {
                            Token::Shr => Expr::Shr(Box::new(e), Box::new(p.0)),
                            _ => Expr::Shl(Box::new(e), Box::new(p.0)),
                        };
                j = p.1;
            },
            Err(er) => {
                return Err(er);
            },
        }
    }
}

/// Executable form of [`parse_and`].
fn parse_and_ex(toks: &Vec<Token>, i: usize) -> (r: Result<(Expr, usize), ParseError>)
    ensures
        match r {
            Ok(p) => parse_and(toks@, i as int) == Ok::<(Expr, int), ParseError>(
                (p.0, p.1 as int),
            ) && i < p.1 <= toks@.len(),
            Err(e) => parse_and(toks@, i as int) == Err::<(Expr, int), ParseError>(e),
        },
    decreases toks@.len() - i, 6int,
{
    let (mut e, mut j) = match parse_shift_ex(toks, i) {
        Ok(p) => p,
        Err(er) => {
            return Err(er);
        },
    };
    loop
        invariant
            i < j <= toks@.len(),
            parse_and_rest(toks@, j as int, e) == parse_and(toks@, i as int),
        decreases toks@.len() - j,
    {
        if j >= toks.len() {
            return Ok((e, j));
        }
        let op = toks[j];
        match op {
            Token::Amp => {},
            _ => {
                return Ok((e, j));
            },
        }
        match parse_shift_ex(toks, j + 1) {
            Ok(p) => {
                e = Expr::And(Box::new(e), Box::new(p.0));
                j = p.1;
            },
            Err(er) => {
                return Err(er);
            },
        }
    }
}

/// Executable form of [`parse_xor`].
fn parse_xor_ex(toks: &Vec<Token>, i: usize) -> (r: Result<(Expr, usize), ParseError>)
    ensures
        match r {
            Ok(p) => parse_xor(toks@, i as int) == Ok::<(Expr, int), ParseError>(
                (p.0, p.1 as int),
            ) && i < p.1 <= toks@.len(),
            Err(e) => parse_xor(toks@, i as int) == Err::<(Expr, int), ParseError>(e),
        },
    decreases toks@.len() - i, 7int,
{
    let (mut e, mut j) = match parse_and_ex(toks, i) {
        Ok(p) => p,
        Err(er) => {
            return Err(er);
        },
    };
    loop
        invariant
            i < j <= toks@.len(),
            parse_xor_rest(toks@, j as int, e) == parse_xor(toks@, i as int),
        decreases toks@.len() - j,
    {
        if j >= toks.len() {
            return Ok((e, j));
        }
        let op = toks[j];
        match op {
            Token::Caret => {},
            _ => {
                return Ok((e, j));
            },
        }
        match parse_and_ex(toks, j + 1) {
            Ok(p) => {
                e = Expr::Xor(Box::new(e), Box::new(p.0));
                j = p.1;
            },
            Err(er) => {
                return Err(er);
            },
        }
    }
}

/// Executable form of [`parse_or`].
fn parse_or_ex(toks: &Vec<Token>, i: usize) -> (r: Result<(Expr, usize), ParseError>)
    ensures
        match r {
            Ok(p) => parse_or(toks@, i as int) == Ok::<(Expr, int), ParseError>(
                (p.0, p.1 as int),
            ) && i < p.1 <= toks@.len(),
            Err(e) => parse_or(toks@, i as int) == Err::<(Expr, int), ParseError>(e),
        },
    decreases toks@.len() - i, 8int,
{
    let (mut e, mut j) = match parse_xor_ex(toks, i) {
        Ok(p) => p,
        Err(er) => {
            return Err(er);
        },
    };
    loop
        invariant
            i < j <= toks@.len(),
            parse_or_rest(toks@, j as int, e) == parse_or(toks@, i as int),
        decreases toks@.len() - j,
    {
        if j >= toks.len() {
            return Ok((e, j));
        }
        let op = toks[j];
        match op {
            Token::Pipe => {},
            _ => {
                return Ok((e, j));
            },
        }
        match parse_xor_ex(toks, j + 1) {
            Ok(p) => {
                e = Expr::Or(Box::new(e), Box::new(p.0));
                j = p.1;
            },
            Err(er) => {
                return Err(er);
            },
        }
    }
}

/// Parses the text of one expression into a tree, as [`parse_spec`] states
/// over the text's bytes. Whitespace separates tokens freely; the empty
/// input and every malformed one come back as an error, never as a tree.
pub fn parse(text: &str) -> (r: Result<Expr, ParseError>)
    ensures
        match r {
            Ok(e) => parse_spec(text.spec_bytes()) == Ok::<Expr, ParseError>(e),
            Err(er) => parse_spec(text.spec_bytes()) == Err::<Expr, ParseError>(er),
        },
{
    let bytes = text.as_bytes();
    match lex(bytes) {
        Err(e) => Err(e),
        Ok(toks) => match parse_or_ex(&toks, 0) {
            Err(e) => Err(e),
            Ok(p) => {
                let (e, j) = p;
                if j == toks.len() {
                    Ok(e)
                } else {
                    Err(ParseError::UnexpectedToken { index: j })
                }
            },
        },
    }
}


/// Law: with no parentheses, `&` binds tighter than `^`, which binds
/// tighter than `|`: four literals joined by `|`, `^` and `&` group as
/// `a | (b ^ (c & d))`.
pub proof fn lemma_precedence(a: i128, b: i128, c: i128, d: i128)
    ensures
        parse_toks(
            seq![
                Token::Num(a),
                Token::Pipe,
                Token::Num(b),
                Token::Caret,
                Token::Num(c),
                Token::Amp,
                Token::Num(d),
            ],
        ) == Ok::<Expr, ParseError>(
            Expr::Or(
                Box::new(Expr::Num(a)),
                Box::new(
                    Expr::Xor(
                        Box::new(Expr::Num(b)),
                        Box::new(Expr::And(Box::new(Expr::Num(c)), Box::new(Expr::Num(d)))),
                    ),
                ),
            ),
        ),
{
    let t = seq![
        Token::Num(a),
        Token::Pipe,
        Token::Num(b),
        Token::Caret,
        Token::Num(c),
        Token::Amp,
        Token::Num(d),
    ];
    let ea = Expr::Num(a);
    let eb = Expr::Num(b);
    let ec = Expr::Num(c);
    let ed = Expr::Num(d);
    let cd = Expr::And(Box::new(ec), Box::new(ed));
    let bcd = Expr::Xor(Box::new(eb), Box::new(cd));
    let abcd = Expr::Or(Box::new(ea), Box::new(bcd));
    assert(t.len() == 7);
    // The literal `a` alone satisfies every tier from primary up to xor.
    assert(parse_primary(t, 0) == Ok::<(Expr, int), ParseError>((ea, 1)));
    assert(parse_unary(t, 0) == Ok::<(Expr, int), ParseError>((ea, 1)));
    assert(parse_mul_rest(t, 1, ea) == Ok::<(Expr, int), ParseError>((ea, 1)));
    assert(parse_mul(t, 0) == Ok::<(Expr, int), ParseError>((ea, 1)));
    assert(parse_add_rest(t, 1, ea) == Ok::<(Expr, int), ParseError>((ea, 1)));
    assert(parse_add(t, 0) == Ok::<(Expr, int), ParseError>((ea, 1)));
    assert(parse_shift_rest(t, 1, ea) == Ok::<(Expr, int), ParseError>((ea, 1)));
    assert(parse_shift(t, 0) == Ok::<(Expr, int), ParseError>((ea, 1)));
    assert(parse_and_rest(t, 1, ea) == Ok::<(Expr, int), ParseError>((ea, 1)));
    assert(parse_and(t, 0) == Ok::<(Expr, int), ParseError>((ea, 1)));
    assert(parse_xor_rest(t, 1, ea) == Ok::<(Expr, int), ParseError>((ea, 1)));
    assert(parse_xor(t, 0) == Ok::<(Expr, int), ParseError>((ea, 1)));
    // The literal `b` carries from primary up to the and tier.
    assert(parse_primary(t, 2) == Ok::<(Expr, int), ParseError>((eb, 3)));
    assert(parse_unary(t, 2) == Ok::<(Expr, int), ParseError>((eb, 3)));
    assert(parse_mul_rest(t, 3, eb) == Ok::<(Expr, int), ParseError>((eb, 3)));
    assert(parse_mul(t, 2) == Ok::<(Expr, int), ParseError>((eb, 3)));
    assert(parse_add_rest(t, 3, eb) == Ok::<(Expr, int), ParseError>((eb, 3)));
    assert(parse_add(t, 2) == Ok::<(Expr, int), ParseError>((eb, 3)));
    assert(parse_shift_rest(t, 3, eb) == Ok::<(Expr, int), ParseError>((eb, 3)));
    assert(parse_shift(t, 2) == Ok::<(Expr, int), ParseError>((eb, 3)));
    assert(parse_and_rest(t, 3, eb) == Ok::<(Expr, int), ParseError>((eb, 3)));
    assert(parse_and(t, 2) == Ok::<(Expr, int), ParseError>((eb, 3)));
    // The literal `c` carries from primary up to the shift tier.
    assert(parse_primary(t, 4) == Ok::<(Expr, int), ParseError>((ec, 5)));
    assert(parse_unary(t, 4) == Ok::<(Expr, int), ParseError>((ec, 5)));
    assert(parse_mul_rest(t, 5, ec) == Ok::<(Expr, int), ParseError>((ec, 5)));
    assert(parse_mul(t, 4) == Ok::<(Expr, int), ParseError>((ec, 5)));
    assert(parse_add_rest(t, 5, ec) == Ok::<(Expr, int), ParseError>((ec, 5)));
    assert(parse_add(t, 4) == Ok::<(Expr, int), ParseError>((ec, 5)));
    assert(parse_shift_rest(t, 5, ec) == Ok::<(Expr, int), ParseError>((ec, 5)));
    assert(parse_shift(t, 4) == Ok::<(Expr, int), ParseError>((ec, 5)));
    // The literal `d` carries from primary up to the shift tier.
    assert(parse_primary(t, 6) == Ok::<(Expr, int), ParseError>((ed, 7)));
    assert(parse_unary(t, 6) == Ok::<(Expr, int), ParseError>((ed, 7)));
    assert(parse_mul_rest(t, 7, ed) == Ok::<(Expr, int), ParseError>((ed, 7)));
    assert(parse_mul(t, 6) == Ok::<(Expr, int), ParseError>((ed, 7)));
    assert(parse_add_rest(t, 7, ed) == Ok::<(Expr, int), ParseError>((ed, 7)));
    assert(parse_add(t, 6) == Ok::<(Expr, int), ParseError>((ed, 7)));
    assert(parse_shift_rest(t, 7, ed) == Ok::<(Expr, int), ParseError>((ed, 7)));
    assert(parse_shift(t, 6) == Ok::<(Expr, int), ParseError>((ed, 7)));
    // `&` joins c and d, `^` joins b with that, `|` joins a with the rest.
    assert(parse_and_rest(t, 7, cd) == Ok::<(Expr, int), ParseError>((cd, 7)));
    assert(parse_and_rest(t, 5, ec) == Ok::<(Expr, int), ParseError>((cd, 7)));
    assert(parse_and(t, 4) == Ok::<(Expr, int), ParseError>((cd, 7)));
    assert(parse_xor_rest(t, 7, bcd) == Ok::<(Expr, int), ParseError>((bcd, 7)));
    assert(parse_xor_rest(t, 3, eb) == Ok::<(Expr, int), ParseError>((bcd, 7)));
    assert(parse_xor(t, 2) == Ok::<(Expr, int), ParseError>((bcd, 7)));
    assert(parse_or_rest(t, 7, abcd) == Ok::<(Expr, int), ParseError>((abcd, 7)));
    assert(parse_or_rest(t, 1, ea) == Ok::<(Expr, int), ParseError>((abcd, 7)));
    assert(parse_or(t, 0) == Ok::<(Expr, int), ParseError>((abcd, 7)));
}


/// The expression node a binary operator token builds.
pub open spec fn binop_node(tok: Token, l: Expr, r: Expr) -> Expr {
    match tok {
        Token::Star => Expr::Mul(Box::new(l), Box::new(r)),
        Token::Slash => Expr::Div(Box::new(l), Box::new(r)),
        Token::Percent => Expr::Rem(Box::new(l), Box::new(r)),
        Token::Plus => Expr::Add(Box::new(l), Box::new(r)),
        Token::Minus => Expr::Sub(Box::new(l), Box::new(r)),
        Token::Shr => Expr::Shr(Box::new(l), Box::new(r)),
        Token::Shl => Expr::Shl(Box::new(l), Box::new(r)),
        Token::Amp => Expr::And(Box::new(l), Box::new(r)),
        Token::Caret => Expr::Xor(Box::new(l), Box::new(r)),
        Token::Pipe => Expr::Or(Box::new(l), Box::new(r)),
        _ => l,
    }
}

/// Whether a token is one of the ten binary operators.
pub open spec fn is_binop(tok: Token) -> bool {
    match tok {
        Token::Star | Token::Slash | Token::Percent | Token::Plus | Token::Minus | Token::Shr
            | Token::Shl | Token::Amp | Token::Caret | Token::Pipe => true,
        _ => false,
    }
}

/// Law: for every binary operator, the three tokens of `a op b` parse to
/// exactly the operator's node over the two literals. With
/// [`crate::expr::lemma_binop_literals`] this pins what evaluating the text
/// `a op b` yields, for every operator of the grammar.
pub proof fn lemma_binop_parse(a: i128, b: i128, tok: Token)
    requires
        is_binop(tok),
    ensures
        parse_toks(seq![Token::Num(a), tok, Token::Num(b)]) == Ok::<Expr, ParseError>(
            binop_node(tok, Expr::Num(a), Expr::Num(b)),
        ),
{
    let t = seq![Token::Num(a), tok, Token::Num(b)];
    let ea = Expr::Num(a);
    let eb = Expr::Num(b);
    let node = binop_node(tok, ea, eb);
    assert(t.len() == 3);
    if tok is Star {
        assert(parse_primary(t, 0) == Ok::<(Expr, int), ParseError>((ea, 1)));
        assert(parse_unary(t, 0) == Ok::<(Expr, int), ParseError>((ea, 1)));
        assert(parse_primary(t, 2) == Ok::<(Expr, int), ParseError>((eb, 3)));
        assert(parse_unary(t, 2) == Ok::<(Expr, int), ParseError>((eb, 3)));
        assert(parse_mul_rest(t, 3, node) == Ok::<(Expr, int), ParseError>((node, 3)));
        assert(parse_mul_rest(t, 1, ea) == Ok::<(Expr, int), ParseError>((node, 3)));
        assert(parse_mul(t, 0) == Ok::<(Expr, int), ParseError>((node, 3)));
        assert(parse_add_rest(t, 3, node) == Ok::<(Expr, int), ParseError>((node, 3)));
        assert(parse_add(t, 0) == Ok::<(Expr, int), ParseError>((node, 3)));
        assert(parse_shift_rest(t, 3, node) == Ok::<(Expr, int), ParseError>((node, 3)));
        assert(parse_shift(t, 0) == Ok::<(Expr, int), ParseError>((node, 3)));
        assert(parse_and_rest(t, 3, node) == Ok::<(Expr, int), ParseError>((node, 3)));
        assert(parse_and(t, 0) == Ok::<(Expr, int), ParseError>((node, 3)));
        assert(parse_xor_rest(t, 3, node) == Ok::<(Expr, int), ParseError>((node, 3)));
        assert(parse_xor(t, 0) == Ok::<(Expr, int), ParseError>((node, 3)));
        assert(parse_or_rest(t, 3, node) == Ok::<(Expr, int), ParseError>((node, 3)));
        assert(parse_or(t, 0) == Ok::<(Expr, int), ParseError>((node, 3)));
    } else if tok is Slash {
        assert(parse_primary(t, 0) == Ok::<(Expr, int), ParseError>((ea, 1)));
        assert(parse_unary(t, 0) == Ok::<(Expr, int), ParseError>((ea, 1)));
        assert(parse_primary(t, 2) == Ok::<(Expr, int), ParseError>((eb, 3)));
        assert(parse_unary(t, 2) == Ok::<(Expr, int), ParseError>((eb, 3)));
        assert(parse_mul_rest(t, 3, node) == Ok::<(Expr, int), ParseError>((node, 3)));
        assert(parse_mul_rest(t, 1, ea) == Ok::<(Expr, int), ParseError>((node, 3)));
        assert(parse_mul(t, 0) == Ok::<(Expr, int), ParseError>((node, 3)));
        assert(parse_add_rest(t, 3, node) == Ok::<(Expr, int), ParseError>((node, 3)));
        assert(parse_add(t, 0) == Ok::<(Expr, int), ParseError>((node, 3)));
        assert(parse_shift_rest(t, 3, node) == Ok::<(Expr, int), ParseError>((node, 3)));
        assert(parse_shift(t, 0) == Ok::<(Expr, int), ParseError>((node, 3)));
        assert(parse_and_rest(t, 3, node) == Ok::<(Expr, int), ParseError>((node, 3)));
        assert(parse_and(t, 0) == Ok::<(Expr, int), ParseError>((node, 3)));
        assert(parse_xor_rest(t, 3, node) == Ok::<(Expr, int), ParseError>((node, 3)));
        assert(parse_xor(t, 0) == Ok::<(Expr, int), ParseError>((node, 3)));
        assert(parse_or_rest(t, 3, node) == Ok::<(Expr, int), ParseError>((node, 3)));
        assert(parse_or(t, 0) == Ok::<(Expr, int), ParseError>((node, 3)));
    } else if tok is Percent {
        assert(parse_primary(t, 0) == Ok::<(Expr, int), ParseError>((ea, 1)));
        assert(parse_unary(t, 0) == Ok::<(Expr, int), ParseError>((ea, 1)));
        assert(parse_primary(t, 2) == Ok::<(Expr, int), ParseError>((eb, 3)));
        assert(parse_unary(t, 2) == Ok::<(Expr, int), ParseError>((eb, 3)));
        assert(parse_mul_rest(t, 3, node) == Ok::<(Expr, int), ParseError>((node, 3)));
        assert(parse_mul_rest(t, 1, ea) == Ok::<(Expr, int), ParseError>((node, 3)));
        assert(parse_mul(t, 0) == Ok::<(Expr, int), ParseError>((node, 3)));
        assert(parse_add_rest(t, 3, node) == Ok::<(Expr, int), ParseError>((node, 3)));
        assert(parse_add(t, 0) == Ok::<(Expr, int), ParseError>((node, 3)));
        assert(parse_shift_rest(t, 3, node) == Ok::<(Expr, int), ParseError>((node, 3)));
        assert(parse_shift(t, 0) == Ok::<(Expr, int), ParseError>((node, 3)));
        assert(parse_and_rest(t, 3, node) == Ok::<(Expr, int), ParseError>((node, 3)));
        assert(parse_and(t, 0) == Ok::<(Expr, int), ParseError>((node, 3)));
        assert(parse_xor_rest(t, 3, node) == Ok::<(Expr, int), ParseError>((node, 3)));
        assert(parse_xor(t, 0) == Ok::<(Expr, int), ParseError>((node, 3)));
        assert(parse_or_rest(t, 3, node) == Ok::<(Expr, int), ParseError>((node, 3)));
        assert(parse_or(t, 0) == Ok::<(Expr, int), ParseError>((node, 3)));
    } else if tok is Plus {
        assert(parse_primary(t, 0) == Ok::<(Expr, int), ParseError>((ea, 1)));
        assert(parse_unary(t, 0) == Ok::<(Expr, int), ParseError>((ea, 1)));
        assert(parse_mul_rest(t, 1, ea) == Ok::<(Expr, int), ParseError>((ea, 1)));
        assert(parse_mul(t, 0) == Ok::<(Expr, int), ParseError>((ea, 1)));
        assert(parse_primary(t, 2) == Ok::<(Expr, int), ParseError>((eb, 3)));
        assert(parse_unary(t, 2) == Ok::<(Expr, int), ParseError>((eb, 3)));
        assert(parse_mul_rest(t, 3, eb) == Ok::<(Expr, int), ParseError>((eb, 3)));
        assert(parse_mul(t, 2) == Ok::<(Expr, int), ParseError>((eb, 3)));
        assert(parse_add_rest(t, 3, node) == Ok::<(Expr, int), ParseError>((node, 3)));
        assert(parse_add_rest(t, 1, ea) == Ok::<(Expr, int), ParseError>((node, 3)));
        assert(parse_add(t, 0) == Ok::<(Expr, int), ParseError>((node, 3)));
        assert(parse_shift_rest(t, 3, node) == Ok::<(Expr, int), ParseError>((node, 3)));
        assert(parse_shift(t, 0) == Ok::<(Expr, int), ParseError>((node, 3)));
        assert(parse_and_rest(t, 3, node) == Ok::<(Expr, int), ParseError>((node, 3)));
        assert(parse_and(t, 0) == Ok::<(Expr, int), ParseError>((node, 3)));
        assert(parse_xor_rest(t, 3, node) == Ok::<(Expr, int), ParseError>((node, 3)));
        assert(parse_xor(t, 0) == Ok::<(Expr, int), ParseError>((node, 3)));
        assert(parse_or_rest(t, 3, node) == Ok::<(Expr, int), ParseError>((node, 3)));
        assert(parse_or(t, 0) == Ok::<(Expr, int), ParseError>((node, 3)));
    } else if tok is Minus {
        assert(parse_primary(t, 0) == Ok::<(Expr, int), ParseError>((ea, 1)));
        assert(parse_unary(t, 0) == Ok::<(Expr, int), ParseError>((ea, 1)));
        assert(parse_mul_rest(t, 1, ea) == Ok::<(Expr, int), ParseError>((ea, 1)));
        assert(parse_mul(t, 0) == Ok::<(Expr, int), ParseError>((ea, 1)));
        assert(parse_primary(t, 2) == Ok::<(Expr, int), ParseError>((eb, 3)));
        assert(parse_unary(t, 2) == Ok::<(Expr, int), ParseError>((eb, 3)));
        assert(parse_mul_rest(t, 3, eb) == Ok::<(Expr, int), ParseError>((eb, 3)));
        assert(parse_mul(t, 2) == Ok::<(Expr, int), ParseError>((eb, 3)));
        assert(parse_add_rest(t, 3, node) == Ok::<(Expr, int), ParseError>((node, 3)));
        assert(parse_add_rest(t, 1, ea) == Ok::<(Expr, int), ParseError>((node, 3)));
        assert(parse_add(t, 0) == Ok::<(Expr, int), ParseError>((node, 3)));
        assert(parse_shift_rest(t, 3, node) == Ok::<(Expr, int), ParseError>((node, 3)));
        assert(parse_shift(t, 0) == Ok::<(Expr, int), ParseError>((node, 3)));
        assert(parse_and_rest(t, 3, node) == Ok::<(Expr, int), ParseError>((node, 3)));
        assert(parse_and(t, 0) == Ok::<(Expr, int), ParseError>((node, 3)));
        assert(parse_xor_rest(t, 3, node) == Ok::<(Expr, int), ParseError>((node, 3)));
        assert(parse_xor(t, 0) == Ok::<(Expr, int), ParseError>((node, 3)));
        assert(parse_or_rest(t, 3, node) == Ok::<(Expr, int), ParseError>((node, 3)));
        assert(parse_or(t, 0) == Ok::<(Expr, int), ParseError>((node, 3)));
    } else if tok is Shr {
        assert(parse_primary(t, 0) == Ok::<(Expr, int), ParseError>((ea, 1)));
        assert(parse_unary(t, 0) == Ok::<(Expr, int), ParseError>((ea, 1)));
        assert(parse_mul_rest(t, 1, ea) == Ok::<(Expr, int), ParseError>((ea, 1)));
        assert(parse_mul(t, 0) == Ok::<(Expr, int), ParseError>((ea, 1)));
        assert(parse_add_rest(t, 1, ea) == Ok::<(Expr, int), ParseError>((ea, 1)));
        assert(parse_add(t, 0) == Ok::<(Expr, int), ParseError>((ea, 1)));
        assert(parse_primary(t, 2) == Ok::<(Expr, int), ParseError>((eb, 3)));
        assert(parse_unary(t, 2) == Ok::<(Expr, int), ParseError>((eb, 3)));
        assert(parse_mul_rest(t, 3, eb) == Ok::<(Expr, int), ParseError>((eb, 3)));
        assert(parse_mul(t, 2) == Ok::<(Expr, int), ParseError>((eb, 3)));
        assert(parse_add_rest(t, 3, eb) == Ok::<(Expr, int), ParseError>((eb, 3)));
        assert(parse_add(t, 2) == Ok::<(Expr, int), ParseError>((eb, 3)));
        assert(parse_shift_rest(t, 3, node) == Ok::<(Expr, int), ParseError>((node, 3)));
        assert(parse_shift_rest(t, 1, ea) == Ok::<(Expr, int), ParseError>((node, 3)));
        assert(parse_shift(t, 0) == Ok::<(Expr, int), ParseError>((node, 3)));
        assert(parse_and_rest(t, 3, node) == Ok::<(Expr, int), ParseError>((node, 3)));
        assert(parse_and(t, 0) == Ok::<(Expr, int), ParseError>((node, 3)));
        assert(parse_xor_rest(t, 3, node) == Ok::<(Expr, int), ParseError>((node, 3)));
        assert(parse_xor(t, 0) == Ok::<(Expr, int), ParseError>((node, 3)));
        assert(parse_or_rest(t, 3, node) == Ok::<(Expr, int), ParseError>((node, 3)));
        assert(parse_or(t, 0) == Ok::<(Expr, int), ParseError>((node, 3)));
    } else if tok is Shl {
        assert(parse_primary(t, 0) == Ok::<(Expr, int), ParseError>((ea, 1)));
        assert(parse_unary(t, 0) == Ok::<(Expr, int), ParseError>((ea, 1)));
        assert(parse_mul_rest(t, 1, ea) == Ok::<(Expr, int), ParseError>((ea, 1)));
        assert(parse_mul(t, 0) == Ok::<(Expr, int), ParseError>((ea, 1)));
        assert(parse_add_rest(t, 1, ea) == Ok::<(Expr, int), ParseError>((ea, 1)));
        assert(parse_add(t, 0) == Ok::<(Expr, int), ParseError>((ea, 1)));
        assert(parse_primary(t, 2) == Ok::<(Expr, int), ParseError>((eb, 3)));
        assert(parse_unary(t, 2) == Ok::<(Expr, int), ParseError>((eb, 3)));
        assert(parse_mul_rest(t, 3, eb) == Ok::<(Expr, int), ParseError>((eb, 3)));
        assert(parse_mul(t, 2) == Ok::<(Expr, int), ParseError>((eb, 3)));
        assert(parse_add_rest(t, 3, eb) == Ok::<(Expr, int), ParseError>((eb, 3)));
        assert(parse_add(t, 2) == Ok::<(Expr, int), ParseError>((eb, 3)));
        assert(parse_shift_rest(t, 3, node) == Ok::<(Expr, int), ParseError>((node, 3)));
        assert(parse_shift_rest(t, 1, ea) == Ok::<(Expr, int), ParseError>((node, 3)));
        assert(parse_shift(t, 0) == Ok::<(Expr, int), ParseError>((node, 3)));
        assert(parse_and_rest(t, 3, node) == Ok::<(Expr, int), ParseError>((node, 3)));
        assert(parse_and(t, 0) == Ok::<(Expr, int), ParseError>((node, 3)));
        assert(parse_xor_rest(t, 3, node) == Ok::<(Expr, int), ParseError>((node, 3)));
        assert(parse_xor(t, 0) == Ok::<(Expr, int), ParseError>((node, 3)));
        assert(parse_or_rest(t, 3, node) == Ok::<(Expr, int), ParseError>((node, 3)));
        assert(parse_or(t, 0) == Ok::<(Expr, int), ParseError>((node, 3)));
    } else if tok is Amp {
        assert(parse_primary(t, 0) == Ok::<(Expr, int), ParseError>((ea, 1)));
        assert(parse_unary(t, 0) == Ok::<(Expr, int), ParseError>((ea, 1)));
        assert(parse_mul_rest(t, 1, ea) == Ok::<(Expr, int), ParseError>((ea, 1)));
        assert(parse_mul(t, 0) == Ok::<(Expr, int), ParseError>((ea, 1)));
        assert(parse_add_rest(t, 1, ea) == Ok::<(Expr, int), ParseError>((ea, 1)));
        assert(parse_add(t, 0) == Ok::<(Expr, int), ParseError>((ea, 1)));
        assert(parse_shift_rest(t, 1, ea) == Ok::<(Expr, int), ParseError>((ea, 1)));
        assert(parse_shift(t, 0) == Ok::<(Expr, int), ParseError>((ea, 1)));
        assert(parse_primary(t, 2) == Ok::<(Expr, int), ParseError>((eb, 3)));
        assert(parse_unary(t, 2) == Ok::<(Expr, int), ParseError>((eb, 3)));
        assert(parse_mul_rest(t, 3, eb) == Ok::<(Expr, int), ParseError>((eb, 3)));
        assert(parse_mul(t, 2) == Ok::<(Expr, int), ParseError>((eb, 3)));
        assert(parse_add_rest(t, 3, eb) == Ok::<(Expr, int), ParseError>((eb, 3)));
        assert(parse_add(t, 2) == Ok::<(Expr, int), ParseError>((eb, 3)));
        assert(parse_shift_rest(t, 3, eb) == Ok::<(Expr, int), ParseError>((eb, 3)));
        assert(parse_shift(t, 2) == Ok::<(Expr, int), ParseError>((eb, 3)));
        assert(parse_and_rest(t, 3, node) == Ok::<(Expr, int), ParseError>((node, 3)));
        assert(parse_and_rest(t, 1, ea) == Ok::<(Expr, int), ParseError>((node, 3)));
        assert(parse_and(t, 0) == Ok::<(Expr, int), ParseError>((node, 3)));
        assert(parse_xor_rest(t, 3, node) == Ok::<(Expr, int), ParseError>((node, 3)));
        assert(parse_xor(t, 0) == Ok::<(Expr, int), ParseError>((node, 3)));
        assert(parse_or_rest(t, 3, node) == Ok::<(Expr, int), ParseError>((node, 3)));
        assert(parse_or(t, 0) == Ok::<(Expr, int), ParseError>((node, 3)));
    } else if tok is Caret {
        assert(parse_primary(t, 0) == Ok::<(Expr, int), ParseError>((ea, 1)));
        assert(parse_unary(t, 0) == Ok::<(Expr, int), ParseError>((ea, 1)));
        assert(parse_mul_rest(t, 1, ea) == Ok::<(Expr, int), ParseError>((ea, 1)));
        assert(parse_mul(t, 0) == Ok::<(Expr, int), ParseError>((ea, 1)));
        assert(parse_add_rest(t, 1, ea) == Ok::<(Expr, int), ParseError>((ea, 1)));
        assert(parse_add(t, 0) == Ok::<(Expr, int), ParseError>((ea, 1)));
        assert(parse_shift_rest(t, 1, ea) == Ok::<(Expr, int), ParseError>((ea, 1)));
        assert(parse_shift(t, 0) == Ok::<(Expr, int), ParseError>((ea, 1)));
        assert(parse_and_rest(t, 1, ea) == Ok::<(Expr, int), ParseError>((ea, 1)));
        assert(parse_and(t, 0) == Ok::<(Expr, int), ParseError>((ea, 1)));
        assert(parse_primary(t, 2) == Ok::<(Expr, int), ParseError>((eb, 3)));
        assert(parse_unary(t, 2) == Ok::<(Expr, int), ParseError>((eb, 3)));
        assert(parse_mul_rest(t, 3, eb) == Ok::<(Expr, int), ParseError>((eb, 3)));
        assert(parse_mul(t, 2) == Ok::<(Expr, int), ParseError>((eb, 3)));
        assert(parse_add_rest(t, 3, eb) == Ok::<(Expr, int), ParseError>((eb, 3)));
        assert(parse_add(t, 2) == Ok::<(Expr, int), ParseError>((eb, 3)));
        assert(parse_shift_rest(t, 3, eb) == Ok::<(Expr, int), ParseError>((eb, 3)));
        assert(parse_shift(t, 2) == Ok::<(Expr, int), ParseError>((eb, 3)));
        assert(parse_and_rest(t, 3, eb) == Ok::<(Expr, int), ParseError>((eb, 3)));
        assert(parse_and(t, 2) == Ok::<(Expr, int), ParseError>((eb, 3)));
        assert(parse_xor_rest(t, 3, node) == Ok::<(Expr, int), ParseError>((node, 3)));
        assert(parse_xor_rest(t, 1, ea) == Ok::<(Expr, int), ParseError>((node, 3)));
        assert(parse_xor(t, 0) == Ok::<(Expr, int), ParseError>((node, 3)));
        assert(parse_or_rest(t, 3, node) == Ok::<(Expr, int), ParseError>((node, 3)));
        assert(parse_or(t, 0) == Ok::<(Expr, int), ParseError>((node, 3)));
    } else if tok is Pipe {
        assert(parse_primary(t, 0) == Ok::<(Expr, int), ParseError>((ea, 1)));
        assert(parse_unary(t, 0) == Ok::<(Expr, int), ParseError>((ea, 1)));
        assert(parse_mul_rest(t, 1, ea) == Ok::<(Expr, int), ParseError>((ea, 1)));
        assert(parse_mul(t, 0) == Ok::<(Expr, int), ParseError>((ea, 1)));
        assert(parse_add_rest(t, 1, ea) == Ok::<(Expr, int), ParseError>((ea, 1)));
        assert(parse_add(t, 0) == Ok::<(Expr, int), ParseError>((ea, 1)));
        assert(parse_shift_rest(t, 1, ea) == Ok::<(Expr, int), ParseError>((ea, 1)));
        assert(parse_shift(t, 0) == Ok::<(Expr, int), ParseError>((ea, 1)));
        assert(parse_and_rest(t, 1, ea) == Ok::<(Expr, int), ParseError>((ea, 1)));
        assert(parse_and(t, 0) == Ok::<(Expr, int), ParseError>((ea, 1)));
        assert(parse_xor_rest(t, 1, ea) == Ok::<(Expr, int), ParseError>((ea, 1)));
        assert(parse_xor(t, 0) == Ok::<(Expr, int), ParseError>((ea, 1)));
        assert(parse_primary(t, 2) == Ok::<(Expr, int), ParseError>((eb, 3)));
        assert(parse_unary(t, 2) == Ok::<(Expr, int), ParseError>((eb, 3)));
        assert(parse_mul_rest(t, 3, eb) == Ok::<(Expr, int), ParseError>((eb, 3)));
        assert(parse_mul(t, 2) == Ok::<(Expr, int), ParseError>((eb, 3)));
        assert(parse_add_rest(t, 3, eb) == Ok::<(Expr, int), ParseError>((eb, 3)));
        assert(parse_add(t, 2) == Ok::<(Expr, int), ParseError>((eb, 3)));
        assert(parse_shift_rest(t, 3, eb) == Ok::<(Expr, int), ParseError>((eb, 3)));
        assert(parse_shift(t, 2) == Ok::<(Expr, int), ParseError>((eb, 3)));
        assert(parse_and_rest(t, 3, eb) == Ok::<(Expr, int), ParseError>((eb, 3)));
        assert(parse_and(t, 2) == Ok::<(Expr, int), ParseError>((eb, 3)));
        assert(parse_xor_rest(t, 3, eb) == Ok::<(Expr, int), ParseError>((eb, 3)));
        assert(parse_xor(t, 2) == Ok::<(Expr, int), ParseError>((eb, 3)));
        assert(parse_or_rest(t, 3, node) == Ok::<(Expr, int), ParseError>((node, 3)));
        assert(parse_or_rest(t, 1, ea) == Ok::<(Expr, int), ParseError>((node, 3)));
        assert(parse_or(t, 0) == Ok::<(Expr, int), ParseError>((node, 3)));
    } else {
    }
}

} // verus!
