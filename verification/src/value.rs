//! The integer representations an expression can be evaluated under, and
//! machine values of those representations.
//!
//! A [`Kind`] is a bit width (8, 16, 32 or 64) together with a signedness; a
//! [`Value`] carries the kind it was computed under plus the two's-complement
//! bit pattern, zero-extended into a `u64`. The mathematical reading of a
//! pattern is given by [`val`], and [`wrap`] reduces an arbitrary integer into
//! the kind's range the way wraparound arithmetic does.

use vstd::prelude::*;

verus! {

use vstd::arithmetic::power2::pow2;
use vstd::arithmetic::power2::lemma2_to64;
use vstd::arithmetic::power2::lemma2_to64_rest;
use vstd::arithmetic::power2::lemma_pow2_adds;
use vstd::arithmetic::power2::lemma_pow2_pos;
use vstd::arithmetic::div_mod::lemma_small_mod;
use vstd::arithmetic::div_mod::lemma_mod_add_multiples_vanish;
use vstd::arithmetic::div_mod::lemma_mod_sub_multiples_vanish;
use vstd::arithmetic::div_mod::lemma_add_mod_noop;
use vstd::arithmetic::div_mod::lemma_sub_mod_noop;
use vstd::arithmetic::div_mod::lemma_mul_mod_noop;
use vstd::arithmetic::div_mod::lemma_mod_bound;
use vstd::arithmetic::div_mod::lemma_mod_pos_bound;
use vstd::arithmetic::div_mod::lemma_fundamental_div_mod_converse;
use vstd::arithmetic::div_mod::lemma_hoist_over_denominator;
use vstd::arithmetic::div_mod::lemma_div_is_ordered;
use vstd::arithmetic::div_mod::lemma_div_multiples_vanish;
use vstd::arithmetic::power2::lemma_pow2_strictly_increases;
use vstd::bits::lemma_u64_shr_is_div;
use vstd::bits::lemma_u64_shl_is_mul;
use vstd::bits::lemma_u64_pow2_no_overflow;
use vstd::bits::lemma_u64_low_bits_mask_is_mod;
use vstd::bits::low_bits_mask;

/// One integer representation: a width of 8, 16, 32 or 64 bits, signed or
/// unsigned. It is chosen per evaluation call and never stored in the tree.
#[derive(Clone, Copy, Debug, PartialEq, Eq, Structural)]
pub enum Kind {
    U8,
    U16,
    U32,
    U64,
    I8,
    I16,
    I32,
    I64,
}

impl Kind {
    /// Number of bits in the representation.
    pub open spec fn bits(self) -> nat {
        match self {
            Kind::U8 | Kind::I8 => 8,
            Kind::U16 | Kind::I16 => 16,
            Kind::U32 | Kind::I32 => 32,
            Kind::U64 | Kind::I64 => 64,
        }
    }

    /// Whether the representation is two's-complement signed.
    pub open spec fn signed(self) -> bool {
        match self {
            Kind::I8 | Kind::I16 | Kind::I32 | Kind::I64 => true,
            _ => false,
        }
    }

    /// 2^bits, the number of distinct values of the representation.
    pub open spec fn modulus(self) -> int {
        pow2(self.bits()) as int
    }

    /// 2^(bits-1), the magnitude of the most negative signed value.
    pub open spec fn half(self) -> int {
        pow2((self.bits() - 1) as nat) as int
    }

    /// Least representable value.
    pub open spec fn min_value(self) -> int {
        if self.signed() {
            -self.half()
        } else {
            0
        }
    }

    /// Greatest representable value.
    pub open spec fn max_value(self) -> int {
        if self.signed() {
            self.half() - 1
        } else {
            self.modulus() - 1
        }
    }

    /// Whether `v` is exactly representable.
    pub open spec fn in_range(self, v: int) -> bool {
        self.min_value() <= v <= self.max_value()
    }

    /// Establishes the concrete numeric facts about this kind's sizes that
    /// the arithmetic proofs lean on.
    pub proof fn lemma_sizes(self)
        ensures
            self.modulus() == 2 * self.half(),
            256 <= self.modulus() <= 0x1_0000_0000_0000_0000,
            128 <= self.half() <= 0x8000_0000_0000_0000,
            self.half() == pow2((self.bits() - 1) as nat),
    {
        lemma2_to64();
        lemma2_to64_rest();
        lemma_pow2_adds((self.bits() - 1) as nat, 1);
    }

    /// Number of bits, as a machine integer.
    pub fn bits_ex(self) -> (r: u32)
        ensures
            r == self.bits(),
    {
        match self {
            Kind::U8 | Kind::I8 => 8,
            Kind::U16 | Kind::I16 => 16,
            Kind::U32 | Kind::I32 => 32,
            Kind::U64 | Kind::I64 => 64,
        }
    }

    /// Signedness, as a machine boolean.
    pub fn signed_ex(self) -> (r: bool)
        ensures
            r == self.signed(),
    {
        match self {
            Kind::I8 | Kind::I16 | Kind::I32 | Kind::I64 => true,
            _ => false,
        }
    }

    /// The modulus 2^bits. It can exceed `u64`, hence the `u128`.
    pub fn modulus_u128(self) -> (r: u128)
        ensures
            r == self.modulus(),
    {
        proof {
            lemma2_to64();
            lemma2_to64_rest();
        }
        match self {
            Kind::U8 | Kind::I8 => 0x100,
            Kind::U16 | Kind::I16 => 0x1_0000,
            Kind::U32 | Kind::I32 => 0x1_0000_0000,
            Kind::U64 | Kind::I64 => 0x1_0000_0000_0000_0000,
        }
    }

    /// The modulus 2^bits as an `i128`.
    pub fn modulus_i128(self) -> (r: i128)
        ensures
            r == self.modulus(),
    {
        proof {
            lemma2_to64();
            lemma2_to64_rest();
        }
        match self {
            Kind::U8 | Kind::I8 => 0x100,
            Kind::U16 | Kind::I16 => 0x1_0000,
            Kind::U32 | Kind::I32 => 0x1_0000_0000,
            Kind::U64 | Kind::I64 => 0x1_0000_0000_0000_0000,
        }
    }

    /// 2^(bits-1), as a machine integer.
    pub fn half_u64(self) -> (r: u64)
        ensures
            r == self.half(),
    {
        proof {
            lemma2_to64();
            lemma2_to64_rest();
        }
        match self {
            Kind::U8 | Kind::I8 => 0x80,
            Kind::U16 | Kind::I16 => 0x8000,
            Kind::U32 | Kind::I32 => 0x8000_0000,
            Kind::U64 | Kind::I64 => 0x8000_0000_0000_0000,
        }
    }

    /// All-ones mask of the kind's width, 2^bits - 1.
    pub fn mask_u64(self) -> (r: u64)
        ensures
            r == self.modulus() - 1,
    {
        proof {
            lemma2_to64();
            lemma2_to64_rest();
        }
        match self {
            Kind::U8 | Kind::I8 => 0xFF,
            Kind::U16 | Kind::I16 => 0xFFFF,
            Kind::U32 | Kind::I32 => 0xFFFF_FFFF,
            Kind::U64 | Kind::I64 => 0xFFFF_FFFF_FFFF_FFFF,
        }
    }

    /// Least representable value, as an `i128`.
    pub fn min_i128(self) -> (r: i128)
        ensures
            r == self.min_value(),
    {
        proof {
            lemma2_to64();
            lemma2_to64_rest();
        }
        match self {
            Kind::U8 | Kind::U16 | Kind::U32 | Kind::U64 => 0,
            Kind::I8 => -0x80,
            Kind::I16 => -0x8000,
            Kind::I32 => -0x8000_0000,
            Kind::I64 => -0x8000_0000_0000_0000,
        }
    }

    /// Greatest representable value, as an `i128`.
    pub fn max_i128(self) -> (r: i128)
        ensures
            r == self.max_value(),
    {
        proof {
            lemma2_to64();
            lemma2_to64_rest();
        }
        match self {
            Kind::U8 => 0xFF,
            Kind::U16 => 0xFFFF,
            Kind::U32 => 0xFFFF_FFFF,
            Kind::U64 => 0xFFFF_FFFF_FFFF_FFFF,
            Kind::I8 => 0x7F,
            Kind::I16 => 0x7FFF,
            Kind::I32 => 0x7FFF_FFFF,
            Kind::I64 => 0x7FFF_FFFF_FFFF_FFFF,
        }
    }
}

/// The bit pattern, in `[0, 2^bits)`, that represents the integer `v` under
/// kind `k`: `v` reduced modulo 2^bits.
pub open spec fn pat(k: Kind, v: int) -> u64 {
    (v % k.modulus()) as u64
}

/// The integer a bit pattern `p` stands for under kind `k`: `p` itself for an
/// unsigned kind, and the two's-complement reading for a signed one.
pub open spec fn val(k: Kind, p: u64) -> int {
    if k.signed() && p >= k.half() {
        p - k.modulus()
    } else {
        p as int
    }
}

/// The unique representable integer congruent to `v` modulo 2^bits: the
/// result wraparound arithmetic produces when a computation lands on `v`.
pub open spec fn wrap(k: Kind, v: int) -> int {
    val(k, pat(k, v))
}

/// `wrap` leaves representable values unchanged, always lands in range, and
/// identifies integers congruent modulo 2^bits.
pub proof fn lemma_wrap_basics(k: Kind, v: int)
    ensures
        k.in_range(wrap(k, v)),
        k.in_range(v) ==> wrap(k, v) == v,
        pat(k, v) < k.modulus(),
        wrap(k, v) % k.modulus() == v % k.modulus(),
{
    k.lemma_sizes();
    let m = k.modulus();
    lemma_mod_bound(v, m);
    let p = v % m;
    if k.signed() && p >= k.half() {
        lemma_mod_sub_multiples_vanish(p, m);
        lemma_small_mod(p as nat, m as nat);
    } else {
        lemma_small_mod(p as nat, m as nat);
    }
    if k.in_range(v) {
        if v >= 0 {
            lemma_small_mod(v as nat, m as nat);
        } else {
            lemma_mod_add_multiples_vanish(v, m);
            lemma_small_mod((v + m) as nat, m as nat);
        }
    }
}

/// A pattern below the modulus is recovered exactly from the value it stands
/// for, and that value is representable.
pub proof fn lemma_val_in_range(k: Kind, p: u64)
    requires
        p < k.modulus(),
    ensures
        k.in_range(val(k, p)),
        pat(k, val(k, p)) == p,
        val(k, p) % k.modulus() == p as int,
{
    k.lemma_sizes();
    let m = k.modulus();
    lemma_small_mod(p as nat, m as nat);
    if k.signed() && p >= k.half() {
        lemma_mod_sub_multiples_vanish(p as int, m);
    }
}

/// A machine value: the bit pattern `bits` read under representation `kind`.
/// `bits` is the two's-complement pattern zero-extended to 64 bits; the
/// well-formedness predicate [`Value::wf`] bounds it by the kind's modulus.
#[derive(Clone, Copy, Debug)]
pub struct Value {
    pub kind: Kind,
    pub bits: u64,
}

impl View for Value {
    type V = int;

    /// The mathematical integer this machine value represents.
    open spec fn view(&self) -> int {
        val(self.kind, self.bits)
    }
}

impl Value {
    /// The bit pattern does not exceed the kind's width.
    pub open spec fn wf(self) -> bool {
        self.bits < self.kind.modulus()
    }

    /// A well-formed value represents an in-range integer, and is the unique
    /// well-formed value of its kind doing so.
    pub proof fn lemma_wf_range(self)
        requires
            self.wf(),
        ensures
            self.kind.in_range(self@),
            pat(self.kind, self@) == self.bits,
    {
        lemma_val_in_range(self.kind, self.bits);
    }

    /// Builds the value of `k` representing `v`, for representable `v`.
    pub fn of_in_range(k: Kind, v: i128) -> (r: Value)
        requires
            k.in_range(v as int),
        ensures
            r.wf(),
            r.kind == k,
            r@ == v as int,
    {
        proof {
            k.lemma_sizes();
        }
        if v >= 0 {
            let r = Value { kind: k, bits: v as u64 };
            proof {
                assert(r@ == v as int);
            }
            r
        } else {
            let m = k.modulus_i128();
            let r = Value { kind: k, bits: (v + m) as u64 };
            proof {
                assert(r.bits >= k.half());
                assert(r@ == v as int);
            }
            r
        }
    }

    /// The represented integer, widened losslessly.
    pub fn to_i128(&self) -> (r: i128)
        requires
            self.wf(),
        ensures
            r as int == self@,
    {
        proof {
            self.kind.lemma_sizes();
        }
        if self.kind.signed_ex() && self.bits >= self.kind.half_u64() {
            (self.bits as i128) - self.kind.modulus_i128()
        } else {
            self.bits as i128
        }
    }

    /// Builds the value of `k` that a computation landing on `q` wraps to.
    /// `q` must already be within one modulus of the representable range.
    pub fn of_wrapped(k: Kind, q: i128) -> (r: Value)
        requires
            -k.modulus() <= q < k.modulus(),
        ensures
            r.wf(),
            r.kind == k,
            r@ == wrap(k, q as int),
    {
        proof {
            k.lemma_sizes();
        }
        let bits: u64 = if q < 0 {
            proof {
                lemma_mod_add_multiples_vanish(q as int, k.modulus());
                lemma_small_mod((q + k.modulus()) as nat, k.modulus() as nat);
            }
            (q + k.modulus_i128()) as u64
        } else {
            proof {
                lemma_small_mod(q as nat, k.modulus() as nat);
            }
            q as u64
        };
        Value { kind: k, bits }
    }

    /// Whether the represented integer is zero.
    pub fn is_zero(&self) -> (r: bool)
        requires
            self.wf(),
        ensures
            r == (self@ == 0),
    {
        proof {
            self.lemma_wf_range();
            if self@ == 0 {
                lemma_wrap_basics(self.kind, 0);
                lemma_val_in_range(self.kind, self.bits);
            }
        }
        self.bits == 0
    }

    /// Modular addition: the sum, wrapped into the kind's range.
    pub fn wrapping_add(self, rhs: Value) -> (r: Value)
        requires
            self.wf(),
            rhs.wf(),
            rhs.kind == self.kind,
        ensures
            r.wf(),
            r.kind == self.kind,
            r@ == wrap(self.kind, self@ + rhs@),
    {
        let k = self.kind;
        let m = k.modulus_u128();
        let s = ((self.bits as u128) + (rhs.bits as u128)) % m;
        proof {
            k.lemma_sizes();
            self.lemma_wf_range();
            rhs.lemma_wf_range();
            lemma_val_in_range(k, self.bits);
            lemma_val_in_range(k, rhs.bits);
            lemma_add_mod_noop(self@, rhs@, k.modulus());
            lemma_mod_pos_bound(self.bits + rhs.bits, k.modulus());
        }
        Value { kind: k, bits: s as u64 }
    }

    /// Modular subtraction: the difference, wrapped into the kind's range.
    pub fn wrapping_sub(self, rhs: Value) -> (r: Value)
        requires
            self.wf(),
            rhs.wf(),
            rhs.kind == self.kind,
        ensures
            r.wf(),
            r.kind == self.kind,
            r@ == wrap(self.kind, self@ - rhs@),
    {
        let k = self.kind;
        let m = k.modulus_u128();
        proof {
            k.lemma_sizes();
        }
        let s = ((self.bits as u128) + m - (rhs.bits as u128)) % m;
        proof {
            lemma_val_in_range(k, self.bits);
            lemma_val_in_range(k, rhs.bits);
            lemma_mod_add_multiples_vanish(self.bits - rhs.bits, k.modulus());
            lemma_sub_mod_noop(self@, rhs@, k.modulus());
            lemma_mod_pos_bound(self.bits + k.modulus() - rhs.bits, k.modulus());
        }
        Value { kind: k, bits: s as u64 }
    }

    /// Modular negation: `-self`, wrapped into the kind's range.
    pub fn wrapping_neg(self) -> (r: Value)
        requires
            self.wf(),
        ensures
            r.wf(),
            r.kind == self.kind,
            r@ == wrap(self.kind, -self@),
    {
        let k = self.kind;
        let m = k.modulus_u128();
        let s = (m - (self.bits as u128)) % m;
        proof {
            k.lemma_sizes();
            lemma_val_in_range(k, self.bits);
            lemma_mod_add_multiples_vanish(0 - self.bits, k.modulus());
            lemma_sub_mod_noop(0, self@, k.modulus());
            lemma_sub_mod_noop(0, self.bits as int, k.modulus());
            lemma_mod_pos_bound(k.modulus() - self.bits, k.modulus());
        }
        Value { kind: k, bits: s as u64 }
    }

    /// Modular multiplication: the product, wrapped into the kind's range.
    pub fn wrapping_mul(self, rhs: Value) -> (r: Value)
        requires
            self.wf(),
            rhs.wf(),
            rhs.kind == self.kind,
        ensures
            r.wf(),
            r.kind == self.kind,
            r@ == wrap(self.kind, self@ * rhs@),
    {
        let k = self.kind;
        let m = k.modulus_u128();
        proof {
            assert((self.bits as u128) * (rhs.bits as u128) <= u128::MAX) by (nonlinear_arith)
                requires
                    self.bits <= u64::MAX,
                    rhs.bits <= u64::MAX,
            ;
        }
        let s = ((self.bits as u128) * (rhs.bits as u128)) % m;
        proof {
            k.lemma_sizes();
            lemma_val_in_range(k, self.bits);
            lemma_val_in_range(k, rhs.bits);
            lemma_mul_mod_noop(self@, rhs@, k.modulus());
            lemma_mul_mod_noop(self.bits as int, rhs.bits as int, k.modulus());
            lemma_mod_pos_bound((self.bits as int) * (rhs.bits as int), k.modulus());
        }
        Value { kind: k, bits: s as u64 }
    }
}

/// The quotient of truncating division, the way hardware divide instructions
/// round: toward zero.
pub open spec fn trunc_div(a: int, b: int) -> int
    recommends
        b != 0,
{
    if a == 0 {
        0
    } else if a > 0 && b > 0 {
        a / b
    } else if a < 0 && b < 0 {
        (a * -1) / (b * -1)
    } else if a < 0 {
        ((a * -1) / b) * -1
    } else {
        (a / (b * -1)) * -1
    }
}

/// The remainder of truncating division: it satisfies
/// `a == b * trunc_div(a, b) + trunc_rem(a, b)` and takes the dividend's sign.
pub open spec fn trunc_rem(a: int, b: int) -> int
    recommends
        b != 0,
{
    if a == 0 {
        0
    } else if a > 0 && b > 0 {
        a % b
    } else if a < 0 && b < 0 {
        ((a * -1) % (b * -1)) * -1
    } else if a < 0 {
        ((a * -1) % b) * -1
    } else {
        a % (b * -1)
    }
}

impl Value {
    /// Wrapping truncating division. The quotient is representable for every
    /// input pair except a signed minimum divided by -1, whose quotient wraps
    /// back to the minimum.
    pub fn wrapping_div(self, rhs: Value) -> (r: Value)
        requires
            self.wf(),
            rhs.wf(),
            rhs.kind == self.kind,
            rhs@ != 0,
        ensures
            r.wf(),
            r.kind == self.kind,
            r@ == wrap(self.kind, trunc_div(self@, rhs@)),
    {
        let k = self.kind;
        proof {
            k.lemma_sizes();
            self.lemma_wf_range();
            rhs.lemma_wf_range();
            lemma_trunc_div_bound(self@, rhs@);
        }
        let a = self.to_i128();
        let b = rhs.to_i128();
        match a.checked_div(b) {
            Some(q) => Value::of_wrapped(k, q),
            None => {
                proof {
                    assert(false);
                }
                Value { kind: k, bits: 0 }
            },
        }
    }

    /// Wrapping truncating remainder. The remainder is always representable;
    /// the wrap only normalizes the signed minimum-by-minus-one case to 0.
    pub fn wrapping_rem(self, rhs: Value) -> (r: Value)
        requires
            self.wf(),
            rhs.wf(),
            rhs.kind == self.kind,
            rhs@ != 0,
        ensures
            r.wf(),
            r.kind == self.kind,
            r@ == wrap(self.kind, trunc_rem(self@, rhs@)),
    {
        let k = self.kind;
        proof {
            k.lemma_sizes();
            self.lemma_wf_range();
            rhs.lemma_wf_range();
            lemma_trunc_rem_bound(self@, rhs@);
        }
        let a = self.to_i128();
        let b = rhs.to_i128();
        match a.checked_rem(b) {
            Some(q) => Value::of_wrapped(k, q),
            None => {
                proof {
                    assert(false);
                }
                Value { kind: k, bits: 0 }
            },
        }
    }
}

/// The shift distance an operand demands: its bit pattern, masked to the
/// kind's width so that shifting a 32-bit value by 35 shifts it by 3.
pub open spec fn shift_amt(k: Kind, y: int) -> nat {
    (pat(k, y) & ((k.bits() - 1) as u64)) as nat
}

/// A pattern below the modulus is unchanged by the kind's all-ones mask, and
/// conversely.
proof fn lemma_mask_iff(k: Kind, x: u64)
    ensures
        x < k.modulus() <==> x & ((k.modulus() - 1) as u64) == x,
{
    k.lemma_sizes();
    let w = k.bits();
    if w == 64 {
        lemma2_to64_rest();
        assert(x & 0xFFFF_FFFF_FFFF_FFFFu64 == x) by (bit_vector);
    } else {
        lemma_u64_pow2_no_overflow(w);
        lemma_u64_low_bits_mask_is_mod(x, w);
        assert((k.modulus() - 1) as u64 == low_bits_mask(w) as u64);
        if x < k.modulus() {
            lemma_small_mod(x as nat, pow2(w));
        } else {
            lemma_mod_bound(x as int, pow2(w) as int);
        }
    }
}

impl Value {
    /// Bitwise complement of the pattern within the kind's width. On the
    /// represented integers this is `-1 - v`, wrapped.
    pub fn bitnot(self) -> (r: Value)
        requires
            self.wf(),
        ensures
            r.wf(),
            r.kind == self.kind,
            r@ == wrap(self.kind, -1 - self@),
    {
        let k = self.kind;
        proof {
            k.lemma_sizes();
            lemma_val_in_range(k, self.bits);
            lemma_mod_add_multiples_vanish(-1 - self.bits, k.modulus());
            lemma_sub_mod_noop(-1, self@, k.modulus());
            lemma_sub_mod_noop(-1, self.bits as int, k.modulus());
            lemma_small_mod((k.modulus() - 1 - self.bits) as nat, k.modulus() as nat);
        }
        Value { kind: k, bits: self.kind.mask_u64() - self.bits }
    }

    /// Bitwise AND of the two patterns.
    pub fn bitand(self, rhs: Value) -> (r: Value)
        requires
            self.wf(),
            rhs.wf(),
            rhs.kind == self.kind,
        ensures
            r.wf(),
            r.kind == self.kind,
            r@ == val(self.kind, pat(self.kind, self@) & pat(self.kind, rhs@)),
    {
        let k = self.kind;
        proof {
            lemma_val_in_range(k, self.bits);
            lemma_val_in_range(k, rhs.bits);
            let x = self.bits;
            let y = rhs.bits;
            assert(x & y <= x) by (bit_vector);
        }
        Value { kind: k, bits: self.bits & rhs.bits }
    }

    /// Bitwise XOR of the two patterns.
    pub fn bitxor(self, rhs: Value) -> (r: Value)
        requires
            self.wf(),
            rhs.wf(),
            rhs.kind == self.kind,
        ensures
            r.wf(),
            r.kind == self.kind,
            r@ == val(self.kind, pat(self.kind, self@) ^ pat(self.kind, rhs@)),
    {
        let k = self.kind;
        proof {
            lemma_val_in_range(k, self.bits);
            lemma_val_in_range(k, rhs.bits);
            lemma_mask_iff(k, self.bits);
            lemma_mask_iff(k, rhs.bits);
            let x = self.bits;
            let y = rhs.bits;
            let mk = (k.modulus() - 1) as u64;
            assert((x ^ y) & mk == (x ^ y)) by (bit_vector)
                requires
                    x & mk == x,
                    y & mk == y,
            ;
            lemma_mask_iff(k, self.bits ^ rhs.bits);
        }
        Value { kind: k, bits: self.bits ^ rhs.bits }
    }

    /// Bitwise OR of the two patterns.
    pub fn bitor(self, rhs: Value) -> (r: Value)
        requires
            self.wf(),
            rhs.wf(),
            rhs.kind == self.kind,
        ensures
            r.wf(),
            r.kind == self.kind,
            r@ == val(self.kind, pat(self.kind, self@) | pat(self.kind, rhs@)),
    {
        let k = self.kind;
        proof {
            lemma_val_in_range(k, self.bits);
            lemma_val_in_range(k, rhs.bits);
            lemma_mask_iff(k, self.bits);
            lemma_mask_iff(k, rhs.bits);
            let x = self.bits;
            let y = rhs.bits;
            let mk = (k.modulus() - 1) as u64;
            assert((x | y) & mk == (x | y)) by (bit_vector)
                requires
                    x & mk == x,
                    y & mk == y,
            ;
            lemma_mask_iff(k, self.bits | rhs.bits);
        }
        Value { kind: k, bits: self.bits | rhs.bits }
    }

    /// The shift distance demanded by `rhs`: its pattern masked to the width.
    fn shift_amount(self, rhs: Value) -> (r: u64)
        requires
            self.wf(),
            rhs.wf(),
            rhs.kind == self.kind,
        ensures
            r == shift_amt(self.kind, rhs@),
            r < self.kind.bits(),
    {
        let k = self.kind;
        let wm = (k.bits_ex() as u64) - 1;
        proof {
            lemma_val_in_range(k, rhs.bits);
            let y = rhs.bits;
            assert(y & wm <= wm) by (bit_vector);
        }
        rhs.bits & wm
    }

    /// Left shift with a masked shift distance: multiplication by a power of
    /// two, wrapped into the kind's range.
    pub fn wrapping_shl(self, rhs: Value) -> (r: Value)
        requires
            self.wf(),
            rhs.wf(),
            rhs.kind == self.kind,
        ensures
            r.wf(),
            r.kind == self.kind,
            r@ == wrap(self.kind, self@ * pow2(shift_amt(self.kind, rhs@))),
    {
        let k = self.kind;
        let am = self.shift_amount(rhs);
        proof {
            k.lemma_sizes();
            lemma_u64_pow2_no_overflow(am as nat);
            lemma_u64_shl_is_mul(1u64, am);
        }
        let p2 = 1u64 << am;
        let m = k.modulus_u128();
        proof {
            assert((self.bits as u128) * (p2 as u128) <= u128::MAX) by (nonlinear_arith)
                requires
                    self.bits <= u64::MAX,
                    p2 <= u64::MAX,
            ;
        }
        let s = ((self.bits as u128) * (p2 as u128)) % m;
        proof {
            lemma_val_in_range(k, self.bits);
            lemma_small_mod(self.bits as nat, k.modulus() as nat);
            lemma_pow2_strictly_increases(am as nat, k.bits());
            lemma_small_mod(p2 as nat, k.modulus() as nat);
            lemma_mul_mod_noop(self@, p2 as int, k.modulus());
            lemma_mul_mod_noop(self.bits as int, p2 as int, k.modulus());
            lemma_mod_pos_bound((self.bits as int) * (p2 as int), k.modulus());
        }
        Value { kind: k, bits: s as u64 }
    }

    /// Right shift with a masked shift distance: logical for an unsigned
    /// kind, arithmetic for a signed one. On the represented integers both
    /// are division by a power of two, rounded toward negative infinity.
    pub fn wrapping_shr(self, rhs: Value) -> (r: Value)
        requires
            self.wf(),
            rhs.wf(),
            rhs.kind == self.kind,
        ensures
            r.wf(),
            r.kind == self.kind,
            r@ == self@ / (pow2(shift_amt(self.kind, rhs@)) as int),
    {
        let k = self.kind;
        let am = self.shift_amount(rhs);
        proof {
            k.lemma_sizes();
            lemma_pow2_pos(am as nat);
            lemma_u64_shr_is_div(self.bits, am);
            lemma_val_in_range(k, self.bits);
        }
        let q = self.bits >> am;
        if self.kind.signed_ex() && self.bits >= self.kind.half_u64() {
            let mask = k.mask_u64();
            proof {
                lemma_u64_shr_is_div(mask, am);
            }
            let msk_shr = mask >> am;
            proof {
                let w = k.bits();
                let amn = am as nat;
                let p = pow2(amn) as int;
                let mm = k.modulus();
                let big_m = pow2((w - amn) as nat) as int;
                lemma_pow2_adds(amn, (w - amn) as nat);
                lemma_pow2_pos((w - amn) as nat);
                // mask >> am is the count of pattern groups minus one.
                assert(mm - 1 == (big_m - 1) * p + (p - 1)) by (nonlinear_arith)
                    requires
                        mm == p * big_m,
                ;
                lemma_fundamental_div_mod_converse(mm - 1, p, big_m - 1, p - 1);
                assert(msk_shr == big_m - 1);
                // The represented value is the pattern minus the modulus;
                // dividing it hoists that modulus out as a multiple.
                lemma_hoist_over_denominator(self@, big_m, pow2(amn));
                assert(self@ + big_m * p == self.bits) by (nonlinear_arith)
                    requires
                        self@ == self.bits - mm,
                        mm == p * big_m,
                ;
                assert(self@ / p + big_m == self.bits as int / p);
                // Bounds: the result pattern stays in the signed half.
                lemma_div_is_ordered(self.bits as int, mm - 1, p);
                let hp = pow2((w - 1 - amn) as nat) as int;
                lemma_pow2_adds((w - 1 - amn) as nat, amn);
                assert((w - 1 - amn) as nat + amn == (w - 1) as nat);
                assert(hp * p == k.half());
                lemma_div_multiples_vanish(-hp, p);
                assert(p * -hp == -(k.half())) by (nonlinear_arith)
                    requires
                        p * hp == k.half(),
                ;
                lemma_div_is_ordered(-(k.half()), self@, p);
                if amn == 0 {
                    assert(hp == k.half());
                } else {
                    lemma_pow2_strictly_increases((w - 1 - amn) as nat, (w - 1) as nat);
                }
            }
            Value { kind: k, bits: q + (mask - msk_shr) }
        } else {
            proof {
                if k.signed() {
                    lemma_div_is_ordered(self.bits as int, k.half() - 1, pow2(am as nat) as int);
                    lemma_div_is_ordered(0, self.bits as int, pow2(am as nat) as int);
                }
                lemma_div_is_ordered(self.bits as int, k.modulus() - 1, pow2(am as nat) as int);
            }
            Value { kind: k, bits: q }
        }
    }
}

/// The magnitude of a truncating quotient never exceeds the dividend's.
proof fn lemma_trunc_div_bound(a: int, b: int)
    requires
        b != 0,
    ensures
        -(if a >= 0 {
            a
        } else {
            -a
        }) <= trunc_div(a, b) <= (if a >= 0 {
            a
        } else {
            -a
        }),
{
    if a != 0 {
        let aa = if a > 0 {
            a
        } else {
            a * -1
        };
        let bb = if b > 0 {
            b
        } else {
            b * -1
        };
        assert(0 <= aa / bb <= aa) by (nonlinear_arith)
            requires
                aa >= 0,
                bb >= 1,
        ;
    }
}

/// The magnitude of a truncating remainder is below the divisor's.
proof fn lemma_trunc_rem_bound(a: int, b: int)
    requires
        b != 0,
    ensures
        a >= 0 ==> 0 <= trunc_rem(a, b) < if b > 0 {
            b
        } else {
            -b
        },
        a < 0 ==> 0 - (if b > 0 {
            b
        } else {
            -b
        }) < trunc_rem(a, b) <= 0,
{
    if a != 0 {
        let aa = if a > 0 {
            a
        } else {
            a * -1
        };
        let bb = if b > 0 {
            b
        } else {
            b * -1
        };
        lemma_mod_pos_bound(aa, bb);
    }
}

} // verus!
