//! The multi-radix formatter: renders an evaluated value as three aligned
//! lines. The first is the signed-or-unsigned decimal reading. The second
//! splits the unsigned bit pattern into one octal or hex digit per chunk of
//! 3 or 4 bits, most significant first, space-separated, leading zero
//! chunks blanked; the third renders the same chunks in full binary, so the
//! two lines align column for column. Each line ends with a radix marker.

use vstd::prelude::*;

verus! {

use vstd::arithmetic::power2::pow2;
use vstd::arithmetic::power2::lemma_pow2_pos;
use vstd::arithmetic::power2::lemma_pow2_adds;
use vstd::arithmetic::power2::lemma2_to64;
use vstd::arithmetic::div_mod::lemma_fundamental_div_mod;
use vstd::arithmetic::div_mod::lemma_fundamental_div_mod_converse;
use vstd::arithmetic::div_mod::lemma_mod_breakdown;
use vstd::arithmetic::div_mod::lemma_mod_pos_bound;
use vstd::arithmetic::div_mod::lemma_small_mod;
use vstd::bits::lemma_u64_shr_is_div;
use vstd::bits::lemma_u64_shl_is_mul;
use vstd::bits::lemma_u64_pow2_no_overflow;
use vstd::bits::lemma_u64_low_bits_mask_is_mod;
use vstd::bits::low_bits_mask;
use crate::value::Value;

/// The alternate radix of the second output line. Decimal and binary are
/// always rendered.
#[derive(Debug, Clone, Copy, PartialEq, Eq, Structural)]
pub enum Base {
    Hex,
    Oct,
}

impl Base {
    /// Bits per digit chunk: 4 for hex, 3 for octal.
    pub open spec fn chunk_bits(self) -> nat {
        match self {
            Base::Hex => 4,
            Base::Oct => 3,
        }
    }

    /// Bits per digit chunk, as a machine integer.
    pub fn bits(self) -> (r: u32)
        ensures
            r == self.chunk_bits(),
    {
        match self {
            Base::Hex => 4,
            Base::Oct => 3,
        }
    }

    /// The marker glyph ending the alternate-radix line.
    pub open spec fn subscript_spec(self) -> Seq<char> {
        match self {
            Base::Oct => seq!['₈'],
            Base::Hex => seq!['₁', '₆'],
        }
    }

    /// The marker glyph ending the alternate-radix line.
    pub fn subscript(self) -> (r: &'static str)
        ensures
            r@ == self.subscript_spec(),
    {
        match self {
            Base::Oct => {
                let s = "₈";
                proof {
                    reveal_strlit("₈");
                    assert(s@ =~= self.subscript_spec());
                }
                s
            },
            Base::Hex => {
                let s = "₁₆";
                proof {
                    reveal_strlit("₁₆");
                    assert(s@ =~= self.subscript_spec());
                }
                s
            },
        }
    }
}

/// How many chunks a width of `w` bits needs: `w / cb`, rounded up.
pub open spec fn n_chunks(w: nat, cb: nat) -> int {
    ((w + cb - 1) as int) / (cb as int)
}

/// Bits in the most significant chunk: the remainder of the width, or a
/// full chunk when the chunk size divides the width evenly.
pub open spec fn top_bits(w: nat, cb: nat) -> nat {
    if w % cb == 0 {
        cb
    } else {
        w % cb
    }
}

/// Columns chunk `i` occupies: the most significant chunk may be narrower.
pub open spec fn chunk_width(w: nat, cb: nat, i: int) -> nat {
    if i == 0 {
        top_bits(w, cb)
    } else {
        cb
    }
}

/// The value of chunk `i` of `bits`, counting chunks from the most
/// significant: `cb` bits ending `cb * (n_chunks - 1 - i)` bits from the
/// bottom.
pub open spec fn chunk(bits: u64, w: nat, cb: nat, i: int) -> nat {
    ((bits as nat) / pow2((cb * (n_chunks(w, cb) - 1 - i)) as nat)) % pow2(cb)
}

/// Whether every chunk up to and including `i` is zero.
pub open spec fn chunks_zero_upto(bits: u64, w: nat, cb: nat, i: int) -> bool {
    forall|t: int| 0 <= t <= i ==> chunk(bits, w, cb, t) == 0
}

/// The character of one digit, octal digits and decimal digits included.
pub open spec fn digit_char(d: nat) -> char {
    if d == 0 {
        '0'
    } else if d == 1 {
        '1'
    } else if d == 2 {
        '2'
    } else if d == 3 {
        '3'
    } else if d == 4 {
        '4'
    } else if d == 5 {
        '5'
    } else if d == 6 {
        '6'
    } else if d == 7 {
        '7'
    } else if d == 8 {
        '8'
    } else if d == 9 {
        '9'
    } else if d == 10 {
        'A'
    } else if d == 11 {
        'B'
    } else if d == 12 {
        'C'
    } else if d == 13 {
        'D'
    } else if d == 14 {
        'E'
    } else {
        'F'
    }
}

/// `n` spaces.
pub open spec fn spaces(n: nat) -> Seq<char> {
    Seq::new(n, |i: int| ' ')
}

/// The binary rendering of `c` in exactly `cw` columns, leading zeros kept.
pub open spec fn bin_chars(c: nat, cw: nat) -> Seq<char> {
    Seq::new(cw, |t: int| digit_char((c / pow2((cw - 1 - t) as nat)) % 2))
}

/// Chunk `i` on the alternate-radix line: its digit right-aligned in the
/// chunk's columns, or all blank for a leading zero chunk that is not the
/// last chunk.
pub open spec fn alt_field(bits: u64, w: nat, cb: nat, i: int) -> Seq<char> {
    let cw = chunk_width(w, cb, i);
    if i + 1 < n_chunks(w, cb) && chunks_zero_upto(bits, w, cb, i) {
        spaces(cw)
    } else {
        spaces((cw - 1) as nat).push(digit_char(chunk(bits, w, cb, i)))
    }
}

/// The alternate-radix line's fields from chunk `i` on, space-separated.
pub open spec fn alt_tail(bits: u64, w: nat, cb: nat, i: int) -> Seq<char>
    decreases n_chunks(w, cb) - i,
{
    if i < 0 || i >= n_chunks(w, cb) {
        Seq::empty()
    } else {
        (if i > 0 {
            seq![' ']
        } else {
            Seq::empty()
        }) + alt_field(bits, w, cb, i) + alt_tail(bits, w, cb, i + 1)
    }
}

/// The binary line's fields from chunk `i` on, space-separated.
pub open spec fn bin_tail(bits: u64, w: nat, cb: nat, i: int) -> Seq<char>
    decreases n_chunks(w, cb) - i,
{
    if i < 0 || i >= n_chunks(w, cb) {
        Seq::empty()
    } else {
        (if i > 0 {
            seq![' ']
        } else {
            Seq::empty()
        }) + bin_chars(chunk(bits, w, cb, i), chunk_width(w, cb, i)) + bin_tail(bits, w, cb, i + 1)
    }
}

/// The whole alternate-radix line, marker glyph and newline included.
pub open spec fn alt_line(bits: u64, w: nat, base: Base) -> Seq<char> {
    alt_tail(bits, w, base.chunk_bits(), 0) + base.subscript_spec() + seq!['\n']
}

/// The whole binary line, marker glyph and newline included.
pub open spec fn bin_line(bits: u64, w: nat, base: Base) -> Seq<char> {
    bin_tail(bits, w, base.chunk_bits(), 0) + seq!['₂', '\n']
}

/// The decimal digits of `v`, most significant first, without sign.
pub open spec fn dec_digits(v: nat) -> Seq<char>
    decreases v,
{
    if v < 10 {
        seq![digit_char(v)]
    } else {
        dec_digits(v / 10).push(digit_char(v % 10))
    }
}

/// The whole decimal line: sign if negative, digits, marker glyph, newline.
pub open spec fn dec_line(v: int) -> Seq<char> {
    (if v < 0 {
        seq!['-']
    } else {
        Seq::empty()
    }) + dec_digits((if v < 0 {
        -v
    } else {
        v
    }) as nat) + seq!['₁', '₀', '\n']
}

/// Reassembling the rendered digits by shifting: the fold a reader performs
/// on the alternate-radix or binary line, pushing each chunk's value into
/// an accumulator from the most significant chunk on.
pub open spec fn chunks_fold(bits: u64, w: nat, cb: nat, i: int, acc: nat) -> nat
    decreases n_chunks(w, cb) - i,
{
    if i < 0 || i >= n_chunks(w, cb) {
        acc
    } else {
        chunks_fold(bits, w, cb, i + 1, acc * pow2(cb) + chunk(bits, w, cb, i))
    }
}

/// Folding the chunks from `i` on recovers the accumulator, shifted past
/// the remaining chunks, plus the low bits they cover.
proof fn lemma_chunks_fold_suffix(bits: u64, w: nat, cb: nat, i: int, acc: nat)
    requires
        1 <= cb,
        cb <= w,
        0 <= i <= n_chunks(w, cb),
    ensures
        chunks_fold(bits, w, cb, i, acc) == acc * pow2((cb * (n_chunks(w, cb) - i)) as nat) + (
        bits as nat) % pow2((cb * (n_chunks(w, cb) - i)) as nat),
    decreases n_chunks(w, cb) - i,
{
    let n = n_chunks(w, cb);
    lemma_chunk_geometry(w, cb);
    if i >= n {
        assert(pow2(0) == 1) by {
            lemma2_to64();
        }
        assert((bits as nat) % 1 == 0) by {
            vstd::arithmetic::div_mod::lemma_mod_bound(bits as int, 1);
        }
        assert(chunks_fold(bits, w, cb, i, acc) == acc);
        assert((cb * (n - i)) as nat == 0) by (nonlinear_arith)
            requires
                i == n,
        ;
        assert(acc * pow2((cb * (n - i)) as nat) + (bits as nat) % pow2((cb * (n - i)) as nat)
            == acc);
    } else {
        let s = (cb * (n - 1 - i)) as nat;
        let c = chunk(bits, w, cb, i);
        let acc2 = acc * pow2(cb) + c;
        lemma_chunks_fold_suffix(bits, w, cb, i + 1, acc2);
        lemma_pow2_pos(s);
        lemma_pow2_pos(cb);
        lemma_pow2_adds(cb, s);
        assert(cb * (n - (i + 1)) == s) by (nonlinear_arith)
            requires
                s == cb * (n - 1 - i),
        ;
        assert((cb * (n - i)) as nat == cb + s) by (nonlinear_arith)
            requires
                s == cb * (n - 1 - i),
                i < n,
        ;
        lemma_mod_breakdown(bits as int, pow2(s) as int, pow2(cb) as int);
        assert(chunks_fold(bits, w, cb, i, acc) == acc2 * pow2(s) + (bits as nat) % pow2(s));
        assert((acc * pow2(cb) + c) * pow2(s) == acc * (pow2(cb) * pow2(s)) + c * pow2(s))
            by (nonlinear_arith);
        assert(c * pow2(s) == pow2(s) * (((bits as nat) / pow2(s)) % pow2(cb)))
            by (nonlinear_arith)
            requires
                c == ((bits as nat) / pow2(s)) % pow2(cb),
        ;
        assert((bits as int) % (pow2(s) as int * pow2(cb) as int) == pow2(s) * (((bits as nat)
            / pow2(s)) % pow2(cb)) + (bits as nat) % pow2(s));
        assert(pow2(s) as int * pow2(cb) as int == pow2((cb + s) as nat) as int);
        assert(chunks_fold(bits, w, cb, i, acc) == acc * pow2((cb + s) as nat) + ((c * pow2(s)) + (
        bits as nat) % pow2(s)));
        assert(chunks_fold(bits, w, cb, i, acc) == acc * pow2((cb * (n - i)) as nat) + (bits as nat)
            % pow2((cb * (n - i)) as nat));
    }
}

/// Law: decoding the rendered chunks reconstructs the bit pattern exactly.
/// Folding every chunk of the alternate-radix and binary lines — most
/// significant first, shifting the accumulator one chunk per digit — yields
/// the unsigned bit pattern the formatter started from.
pub proof fn lemma_chunks_round_trip(bits: u64, w: nat, cb: nat)
    requires
        1 <= cb,
        cb <= w <= 64,
        (bits as nat) < pow2(w),
    ensures
        chunks_fold(bits, w, cb, 0, 0) == bits,
{
    let n = n_chunks(w, cb);
    lemma_chunk_geometry(w, cb);
    lemma_chunks_fold_suffix(bits, w, cb, 0, 0);
    let total = (cb * n) as nat;
    assert(cb * n == cb * (n - 1) + cb) by (nonlinear_arith);
    assert(total >= w);
    if total > w {
        vstd::arithmetic::power2::lemma_pow2_strictly_increases(w, total);
    }
    lemma_small_mod(bits as nat, pow2(total));
}

/// The chunk geometry: chunks cover the width, with only the most
/// significant chunk possibly narrower.
pub proof fn lemma_chunk_geometry(w: nat, cb: nat)
    requires
        1 <= cb,
        cb <= w,
    ensures
        1 <= n_chunks(w, cb),
        cb * (n_chunks(w, cb) - 1) + top_bits(w, cb) == w,
        1 <= top_bits(w, cb) <= cb,
{
    let n = n_chunks(w, cb);
    lemma_fundamental_div_mod(w as int, cb as int);
    lemma_mod_pos_bound(w as int, cb as int);
    let q = (w as int) / (cb as int);
    let r = (w as int) % (cb as int);
    if r == 0 {
        assert((w + cb - 1) as int == q * (cb as int) + (cb - 1)) by (nonlinear_arith)
            requires
                w == (cb as int) * q + r,
                r == 0,
        ;
        lemma_fundamental_div_mod_converse((w + cb - 1) as int, cb as int, q, (cb - 1) as int);
        assert(n == q);
        assert(q >= 1) by (nonlinear_arith)
            requires
                w == (cb as int) * q + r,
                r == 0,
                w >= cb,
                cb >= 1,
        ;
        assert(cb * (n - 1) + top_bits(w, cb) == w) by (nonlinear_arith)
            requires
                w == (cb as int) * q + r,
                r == 0,
                n == q,
                top_bits(w, cb) == cb,
        ;
    } else {
        assert((w + cb - 1) as int == (q + 1) * (cb as int) + (r - 1)) by (nonlinear_arith)
            requires
                w == (cb as int) * q + r,
        ;
        lemma_fundamental_div_mod_converse((w + cb - 1) as int, cb as int, q + 1, r - 1);
        assert(n == q + 1);
        assert(q >= 0) by (nonlinear_arith)
            requires
                w == (cb as int) * q + r,
                0 <= r < cb,
                w >= cb,
                cb >= 1,
        ;
        assert(cb * (n - 1) + top_bits(w, cb) == w) by (nonlinear_arith)
            requires
                w == (cb as int) * q + r,
                n == q + 1,
                top_bits(w, cb) == r,
        ;
    }
}

/// The character of one digit, as a machine value.
fn digit_char_ex(d: u64) -> (c: char)
    requires
        d < 16,
    ensures
        c == digit_char(d as nat),
{
    if d == 0 {
        '0'
    } else if d == 1 {
        '1'
    } else if d == 2 {
        '2'
    } else if d == 3 {
        '3'
    } else if d == 4 {
        '4'
    } else if d == 5 {
        '5'
    } else if d == 6 {
        '6'
    } else if d == 7 {
        '7'
    } else if d == 8 {
        '8'
    } else if d == 9 {
        '9'
    } else if d == 10 {
        'A'
    } else if d == 11 {
        'B'
    } else if d == 12 {
        'C'
    } else if d == 13 {
        'D'
    } else if d == 14 {
        'E'
    } else {
        'F'
    }
}

/// Appends `cnt` spaces.
fn push_spaces(out: &mut Vec<char>, cnt: u32)
    ensures
        final(out)@ == old(out)@ + spaces(cnt as nat),
{
    let mut t: u32 = 0;
    while t < cnt
        invariant
            t <= cnt,
            out@ == old(out)@ + spaces(t as nat),
        decreases cnt - t,
    {
        out.push(' ');
        proof {
            assert(old(out)@ + spaces(t as nat) + seq![' '] =~= old(out)@ + spaces(
                (t + 1) as nat,
            ));
        }
        t = t + 1;
    }
}

/// Reads chunk `i` of `bits`, counting from the most significant chunk.
fn chunk_ex(bits: u64, w: u32, cb: u32, n: u32, i: u32) -> (c: u64)
    requires
        1 <= cb <= 4,
        cb <= w <= 64,
        n as int == n_chunks(w as nat, cb as nat),
        i < n,
    ensures
        c as nat == chunk(bits, w as nat, cb as nat, i as int),
        c < 16,
{
    proof {
        lemma_chunk_geometry(w as nat, cb as nat);
        lemma2_to64();
        assert(cb * (n - 1 - i) <= cb * (n - 1)) by (nonlinear_arith)
            requires
                0 <= i < n,
                cb >= 1,
        ;
    }
    let s = cb * (n - 1 - i);
    proof {
        assert(s < 64);
        lemma_u64_pow2_no_overflow(cb as nat);
        lemma_u64_shl_is_mul(1u64, cb as u64);
        lemma_u64_shr_is_div(bits, s as u64);
        lemma_u64_low_bits_mask_is_mod((bits >> (s as u64)), cb as nat);
        lemma_pow2_pos((cb * (n - 1 - i)) as nat);
        lemma_mod_pos_bound((bits >> (s as u64)) as int, pow2(cb as nat) as int);
    }
    let mask = (1u64 << (cb as u64)) - 1;
    (bits >> (s as u64)) & mask
}

/// Renders the alternate-radix line and the binary line of the value's bit
/// pattern: purely the underlying representation, with no signedness.
pub fn write_int_continue(val: Value, base: Base) -> (out: Vec<char>)
    requires
        val.wf(),
    ensures
        out@ == alt_line(val.bits, val.kind.bits(), base) + bin_line(
            val.bits,
            val.kind.bits(),
            base,
        ),
{
    let w = val.kind.bits_ex();
    let cb = base.bits();
    let n = (w + cb - 1) / cb;
    let top = if w % cb == 0 {
        cb
    } else {
        w % cb
    };
    let ghost wn = w as nat;
    let ghost cbn = cb as nat;
    proof {
        lemma_chunk_geometry(wn, cbn);
    }
    let bits = val.bits;
    let mut out: Vec<char> = Vec::new();
    let mut seen = false;
    let mut i: u32 = 0;
    while i < n
        invariant
            1 <= cb <= 4,
            cb <= w <= 64,
            wn == w as nat,
            cbn == cb as nat,
            n as int == n_chunks(wn, cbn),
            top as nat == top_bits(wn, cbn),
            i <= n,
            seen == !chunks_zero_upto(bits, wn, cbn, i as int - 1),
            alt_tail(bits, wn, cbn, 0) == out@ + alt_tail(bits, wn, cbn, i as int),
        decreases n - i,
    {
        let ghost out0 = out@;
        let c = chunk_ex(bits, w, cb, n, i);
        let ghost sep: Seq<char> = if i > 0 {
            seq![' ']
        } else {
            Seq::empty()
        };
        if i > 0 {
            out.push(' ');
        }
        let cw = if i == 0 {
            top
        } else {
            cb
        };
        proof {
            if !seen && c == 0 {
                assert forall|t: int| 0 <= t <= i as int implies chunk(bits, wn, cbn, t)
                    == 0 by {
                    if t < i as int {
                        assert(chunks_zero_upto(bits, wn, cbn, i as int - 1));
                    }
                }
            }
            if chunks_zero_upto(bits, wn, cbn, i as int) {
                assert(chunk(bits, wn, cbn, i as int) == 0);
                assert(chunks_zero_upto(bits, wn, cbn, i as int - 1));
            }
        }
        let blank = !seen && c == 0 && i + 1 < n;
        if blank {
            push_spaces(&mut out, cw);
        } else {
            push_spaces(&mut out, cw - 1);
            let d = digit_char_ex(c);
            out.push(d);
        }
        proof {
            let ii = i as int;
            assert(alt_tail(bits, wn, cbn, ii) == sep + alt_field(bits, wn, cbn, ii) + alt_tail(
                bits,
                wn,
                cbn,
                ii + 1,
            ));
            if blank {
                assert(alt_field(bits, wn, cbn, ii) =~= spaces(cw as nat));
            } else {
                assert(alt_field(bits, wn, cbn, ii) =~= spaces((cw - 1) as nat).push(
                    digit_char(c as nat),
                ));
            }
            assert(out@ =~= out0 + sep + alt_field(bits, wn, cbn, ii));
            assert(out0 + (sep + alt_field(bits, wn, cbn, ii) + alt_tail(bits, wn, cbn, ii + 1))
                =~= (out0 + sep + alt_field(bits, wn, cbn, ii)) + alt_tail(bits, wn, cbn, ii + 1));
        }
        seen = seen || c != 0;
        i = i + 1;
    }
    proof {
        assert(alt_tail(bits, wn, cbn, n as int) =~= Seq::<char>::empty());
        assert(out@ + Seq::<char>::empty() =~= out@);
    }
    let ghost fields = out@;
    match base {
        Base::Oct => {
            out.push('₈');
        },
        Base::Hex => {
            out.push('₁');
            out.push('₆');
        },
    }
    out.push('\n');
    proof {
        assert(out@ =~= fields + base.subscript_spec() + seq!['\n']);
        assert(out@ =~= alt_line(bits, wn, base));
    }
    let ghost altdone = out@;
    let mut bout: Vec<char> = Vec::new();
    let mut i: u32 = 0;
    while i < n
        invariant
            1 <= cb <= 4,
            cb <= w <= 64,
            wn == w as nat,
            cbn == cb as nat,
            n as int == n_chunks(wn, cbn),
            top as nat == top_bits(wn, cbn),
            i <= n,
            bin_tail(bits, wn, cbn, 0) == bout@ + bin_tail(bits, wn, cbn, i as int),
        decreases n - i,
    {
        let ghost bout0 = bout@;
        let c = chunk_ex(bits, w, cb, n, i);
        let ghost sep: Seq<char> = if i > 0 {
            seq![' ']
        } else {
            Seq::empty()
        };
        if i > 0 {
            bout.push(' ');
        }
        let cw = if i == 0 {
            top
        } else {
            cb
        };
        let ghost bstart = bout@;
        let mut t: u32 = 0;
        while t < cw
            invariant
                cw <= 4,
                c < 16,
                t <= cw,
                bout@ == bstart + bin_chars(c as nat, cw as nat).take(t as int),
            decreases cw - t,
        {
            let s = cw - 1 - t;
            proof {
                lemma_u64_shr_is_div(c, s as u64);
                lemma_u64_low_bits_mask_is_mod((c >> (s as u64)), 1);
                lemma2_to64();
                assert(low_bits_mask(1) == 1);
                lemma_pow2_pos(s as nat);
                lemma_mod_pos_bound((c >> (s as u64)) as int, 2);
            }
            let bit = (c >> (s as u64)) & 1;
            let d = digit_char_ex(bit);
            bout.push(d);
            proof {
                assert(bin_chars(c as nat, cw as nat)[t as int] == d);
                assert(bstart + bin_chars(c as nat, cw as nat).take(t as int) + seq![d] =~= bstart
                    + bin_chars(c as nat, cw as nat).take(t as int + 1));
            }
            t = t + 1;
        }
        proof {
            let ii = i as int;
            assert(bin_chars(c as nat, cw as nat).take(cw as int) =~= bin_chars(
                c as nat,
                cw as nat,
            ));
            assert(bin_tail(bits, wn, cbn, ii) == sep + bin_chars(
                chunk(bits, wn, cbn, ii),
                chunk_width(wn, cbn, ii),
            ) + bin_tail(bits, wn, cbn, ii + 1));
            assert(bout@ =~= bout0 + sep + bin_chars(c as nat, cw as nat));
            assert(bout0 + (sep + bin_chars(c as nat, cw as nat) + bin_tail(bits, wn, cbn, ii + 1))
                =~= (bout0 + sep + bin_chars(c as nat, cw as nat)) + bin_tail(bits, wn, cbn, ii
                + 1));
        }
        i = i + 1;
    }
    proof {
        assert(bin_tail(bits, wn, cbn, n as int) =~= Seq::<char>::empty());
        assert(bout@ + Seq::<char>::empty() =~= bout@);
    }
    bout.push('₂');
    bout.push('\n');
    proof {
        assert(bout@ =~= bin_tail(bits, wn, cbn, 0) + seq!['₂', '\n']);
        assert(bout@ =~= bin_line(bits, wn, base));
    }
    out.append(&mut bout);
    proof {
        assert(out@ =~= altdone + bin_line(bits, wn, base));
    }
    out
}

/// Renders the value as its three output lines: the signedness-aware
/// decimal reading, then the alternate-radix and binary breakdown of the
/// bit pattern from [`write_int_continue`].
pub fn write_int(val: Value, base: Base) -> (out: Vec<char>)
    requires
        val.wf(),
    ensures
        out@ == dec_line(val@) + alt_line(val.bits, val.kind.bits(), base) + bin_line(
            val.bits,
            val.kind.bits(),
            base,
        ),
{
    proof {
        val.lemma_wf_range();
        val.kind.lemma_sizes();
    }
    let v = val.to_i128();
    let mut out: Vec<char> = Vec::new();
    if v < 0 {
        out.push('-');
    }
    let ghost sign = out@;
    let mag: u128 = if v < 0 {
        (-v) as u128
    } else {
        v as u128
    };
    let ghost m0 = mag as nat;
    if mag == 0 {
        out.push('0');
        proof {
            assert(out@ =~= sign + dec_digits(m0));
        }
    } else {
        let mut tmp: Vec<char> = Vec::new();
        let mut cur = mag;
        while cur > 0
            invariant
                cur > 0 ==> dec_digits(m0) == dec_digits(cur as nat) + tmp@.reverse(),
                cur == 0 ==> dec_digits(m0) == tmp@.reverse(),
            decreases cur,
        {
            let ghost tmp0 = tmp@;
            let d = (cur % 10) as u64;
            let dc = digit_char_ex(d);
            tmp.push(dc);
            proof {
                assert(tmp@.reverse() =~= seq![dc] + tmp0.reverse());
                if cur < 10 {
                    lemma_small_mod(cur as nat, 10);
                    assert(dec_digits(cur as nat) =~= seq![dc]);
                } else {
                    assert(dec_digits(cur as nat) == dec_digits((cur as nat) / 10).push(dc));
                    assert(dec_digits((cur as nat) / 10).push(dc) + tmp0.reverse() =~= dec_digits(
                        (cur as nat) / 10,
                    ) + (seq![dc] + tmp0.reverse()));
                }
            }
            cur = cur / 10;
        }
        let mut idx: usize = 0;
        while idx < tmp.len()
            invariant
                idx <= tmp@.len(),
                dec_digits(m0) == tmp@.reverse(),
                out@ == sign + tmp@.reverse().take(idx as int),
            decreases tmp@.len() - idx,
        {
            let ch = tmp[tmp.len() - 1 - idx];
            out.push(ch);
            proof {
                assert(tmp@.reverse()[idx as int] == ch);
                assert(sign + tmp@.reverse().take(idx as int) + seq![ch] =~= sign
                    + tmp@.reverse().take(idx as int + 1));
            }
            idx = idx + 1;
        }
        proof {
            assert(tmp@.reverse().take(tmp@.len() as int) =~= tmp@.reverse());
        }
    }
    out.push('₁');
    out.push('₀');
    out.push('\n');
    proof {
        assert(out@ =~= dec_line(val@));
    }
    let ghost decdone = out@;
    let mut rest = write_int_continue(val, base);
    out.append(&mut rest);
    proof {
        assert(out@ =~= decdone + (alt_line(val.bits, val.kind.bits(), base) + bin_line(
            val.bits,
            val.kind.bits(),
            base,
        )));
        assert(out@ =~= dec_line(val@) + alt_line(val.bits, val.kind.bits(), base) + bin_line(
            val.bits,
            val.kind.bits(),
            base,
        ));
    }
    out
}

} // verus!
