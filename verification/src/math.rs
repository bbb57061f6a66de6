//! Overflow-checked arithmetic over a wide (256-bit) intermediate type, plus
//! an integer square root. Pure functions, no state.

use vstd::prelude::*;
use vstd::arithmetic::div_mod::{
    lemma_basic_div, lemma_fundamental_div_mod, lemma_fundamental_div_mod_converse,
    lemma_mod_division_less_than_divisor, lemma_small_mod,
};
use vstd::arithmetic::mul::{
    lemma_mul_inequality, lemma_mul_strict_inequality, lemma_mul_upper_bound,
};
use vstd::arithmetic::power2::{
    lemma2_to64, lemma_pow2_adds, lemma_pow2_pos, lemma_pow2_strictly_increases, pow2,
};

verus! {

/// A failed checked arithmetic operation, carried to the caller instead of
/// wrapping or trapping.
#[derive(Clone, Copy, Debug, PartialEq, Eq, Structural)]
pub enum MathError {
    AddOverflow,
    SubUnderflow,
    MulOverflow,
    DivByZero,
}

/// 2^64, the base in which 128-bit operands are split for wide multiplication.
pub const B64: u128 = 0x1_0000_0000_0000_0000;

/// 2^128 as a mathematical integer: one more than the largest `u128`.
pub open spec fn p128() -> int {
    0x1_0000_0000_0000_0000_0000_0000_0000_0000int
}

/// 2^256 as a mathematical integer: the first value a [`U256`] cannot hold.
pub open spec fn p256() -> int {
    0x1_0000_0000_0000_0000_0000_0000_0000_0000_0000_0000_0000_0000_0000_0000_0000_0000int
}

/// An unsigned 256-bit integer as two 128-bit halves.
#[derive(Clone, Copy, Debug, PartialEq, Eq, Structural)]
pub struct U256 {
    pub hi: u128,
    pub lo: u128,
}

impl U256 {
    /// The mathematical value: `hi * 2^128 + lo`.
    pub open spec fn val(self) -> int {
        self.hi * 0x1_0000_0000_0000_0000_0000_0000_0000_0000int + self.lo
    }

    pub fn zero() -> (r: U256)
        ensures
            r.val() == 0,
    {
        U256 { hi: 0, lo: 0 }
    }

    pub fn from_u128(x: u128) -> (r: U256)
        ensures
            r.val() == x,
    {
        U256 { hi: 0, lo: x }
    }

    pub fn is_zero(self) -> (r: bool)
        ensures
            r == (self.val() == 0),
    {
        self.hi == 0 && self.lo == 0
    }

    pub fn lt(self, other: U256) -> (r: bool)
        ensures
            r == (self.val() < other.val()),
    {
        if self.hi != other.hi {
            self.hi < other.hi
        } else {
            self.lo < other.lo
        }
    }

    pub fn le(self, other: U256) -> (r: bool)
        ensures
            r == (self.val() <= other.val()),
    {
        if self.hi != other.hi {
            self.hi < other.hi
        } else {
            self.lo <= other.lo
        }
    }

    /// Sum of two 256-bit values, or `None` when the sum does not fit.
    pub fn checked_add(self, other: U256) -> (r: Option<U256>)
        ensures
            match r {
                Some(s) => s.val() == self.val() + other.val(),
                None => self.val() + other.val() >= p256(),
            },
    {
        let (lo, carry) = add_carry(self.lo, other.lo);
        match self.hi.checked_add(other.hi) {
            Some(h) => match h.checked_add(carry) {
                Some(hi) => Some(U256 { hi, lo }),
                None => None,
            },
            None => None,
        }
    }
}

/// 128-bit addition split into a low half and a one-bit carry.
fn add_carry(x: u128, y: u128) -> (r: (u128, u128))
    ensures
        r.1 <= 1,
        r.0 + r.1 * 0x1_0000_0000_0000_0000_0000_0000_0000_0000int == x + y,
{
    if x > u128::MAX - y {
        ((x - (u128::MAX - y)) - 1, 1)
    } else {
        (x + y, 0)
    }
}

/// The full 256-bit product of two 128-bit values.
pub fn mul_wide(a: u128, b: u128) -> (r: U256)
    ensures
        r.val() == a * b,
{
    let a1 = a / B64;
    let a0 = a % B64;
    let b1 = b / B64;
    let b0 = b % B64;
    proof {
        lemma_mul_upper_bound(a0 as int, (B64 - 1) as int, b0 as int, (B64 - 1) as int);
        lemma_mul_upper_bound(a0 as int, (B64 - 1) as int, b1 as int, (B64 - 1) as int);
        lemma_mul_upper_bound(a1 as int, (B64 - 1) as int, b0 as int, (B64 - 1) as int);
        lemma_mul_upper_bound(a1 as int, (B64 - 1) as int, b1 as int, (B64 - 1) as int);
    }
    let p00 = a0 * b0;
    let p01 = a0 * b1;
    let p10 = a1 * b0;
    let p11 = a1 * b1;
    assert(a * b == p11 * (B64 * B64) + (p01 + p10) * B64 + p00) by (nonlinear_arith)
        requires
            a == a1 * B64 + a0,
            b == b1 * B64 + b0,
            p00 == a0 * b0,
            p01 == a0 * b1,
            p10 == a1 * b0,
            p11 == a1 * b1,
    ;
    let t = p00 / B64 + p01 % B64 + p10 % B64;
    let lo = (t % B64) * B64 + p00 % B64;
    proof {
        lemma_mul_upper_bound(a as int, u128::MAX as int, b as int, u128::MAX as int);
        assert((p11 + p01 / B64 + p10 / B64 + t / B64) * 0x1_0000_0000_0000_0000_0000_0000_0000_0000int + lo == a * b)
            by (nonlinear_arith)
            requires
                a * b == p11 * (B64 * B64) + (p01 + p10) * B64 + p00,
                p00 == B64 * (p00 / B64) + p00 % B64,
                p01 == B64 * (p01 / B64) + p01 % B64,
                p10 == B64 * (p10 / B64) + p10 % B64,
                t == B64 * (t / B64) + t % B64,
                t == p00 / B64 + p01 % B64 + p10 % B64,
                lo == (t % B64) * B64 + p00 % B64,
                B64 == 0x1_0000_0000_0000_0000u128,
        ;
        assert(p11 + p01 / B64 + p10 / B64 + t / B64 < p128()) by {
            if p11 + p01 / B64 + p10 / B64 + t / B64 >= p128() {
                lemma_mul_inequality(p128(), p11 + p01 / B64 + p10 / B64 + t / B64, p128());
            }
        }
    }
    let hi = p11 + p01 / B64 + p10 / B64 + t / B64;
    U256 { hi, lo }
}

proof fn lemma_pow2_values()
    ensures
        pow2(127) == 0x8000_0000_0000_0000_0000_0000_0000_0000,
        pow2(128) == 0x1_0000_0000_0000_0000_0000_0000_0000_0000,
{
    lemma2_to64();
    lemma2_to64_rest_local();
    lemma_pow2_adds(64, 63);
    lemma_pow2_adds(64, 64);
}

proof fn lemma2_to64_rest_local()
    ensures
        pow2(63) == 0x8000_0000_0000_0000,
{
    lemma2_to64();
    lemma_pow2_adds(32, 31);
}

/// Algebra of one long-division step: splitting off the top bit of the
/// remaining low word.
proof fn lemma_bit_split(lo: int, pk: int, pk1: int, q: int, r: int, b: int, r2: int)
    by (nonlinear_arith)
    requires
        pk == 2 * pk1,
        pk1 > 0,
        lo == pk * q + r,
        0 <= r < pk,
        r == b * pk1 + r2,
        0 <= r2 < pk1,
    ensures
        lo == pk1 * (2 * q + b) + r2,
        0 <= b <= 1,
{
}

/// Algebra of one long-division step: the quotient and remainder updates.
proof fn lemma_div_step(d: int, q: int, r: int, b: int, v: int, q2: int, r2: int)
    requires
        d > 0,
        q * d + r == v,
        0 <= r < d,
        0 <= b <= 1,
        (2 * r + b >= d) ==> (q2 == 2 * q + 1 && r2 == 2 * r + b - d),
        (2 * r + b < d) ==> (q2 == 2 * q && r2 == 2 * r + b),
    ensures
        q2 * d + r2 == 2 * v + b,
        0 <= r2 < d,
{
    assert((2 * q + 1) * d == 2 * (q * d) + d) by (nonlinear_arith);
    assert((2 * q) * d == 2 * (q * d)) by (nonlinear_arith);
}

/// 256-bit-by-128-bit division for quotients that fit in 128 bits,
/// by binary long division over the low half.
pub fn div_rem_wide(n: U256, d: u128) -> (r: (u128, u128))
    requires
        d > 0,
        n.hi < d,
    ensures
        r.0 * d + r.1 == n.val(),
        r.1 < d,
{
    let mut q: u128 = 0;
    let mut rem: u128 = n.hi;
    let mut loreg: u128 = n.lo;
    proof {
        lemma_pow2_values();
        lemma2_to64();
        lemma_basic_div(n.lo as int, pow2(128) as int);
        lemma_small_mod(n.lo as nat, pow2(128));
        assert(n.hi * pow2(0) == n.hi) by (nonlinear_arith)
            requires
                pow2(0) == 1,
        ;
        assert((n.lo as int % pow2(128) as int) * pow2(0) == n.lo) by (nonlinear_arith)
            requires
                pow2(0) == 1,
                n.lo as int % pow2(128) as int == n.lo as int,
        ;
    }
    for i in 0..128u32
        invariant
            d > 0,
            n.hi < d,
            q * d + rem == n.hi * pow2(i as nat) + n.lo as int / pow2((128 - i) as nat) as int,
            rem < d,
            loreg == (n.lo as int % pow2((128 - i) as nat) as int) * pow2(i as nat),
            q < pow2(i as nat),
            pow2(127) == 0x8000_0000_0000_0000_0000_0000_0000_0000,
            pow2(128) == 0x1_0000_0000_0000_0000_0000_0000_0000_0000,
    {
        let ghost k = (128 - i) as nat;
        let ghost big_q: int = n.lo as int / pow2(k) as int;
        let ghost big_r: int = n.lo as int % pow2(k) as int;
        let ghost r2: int = big_r % pow2((k - 1) as nat) as int;
        let ghost bb: int = big_r / pow2((k - 1) as nat) as int;
        let b: u128 = loreg / 0x8000_0000_0000_0000_0000_0000_0000_0000u128;
        let loreg2: u128 = (loreg % 0x8000_0000_0000_0000_0000_0000_0000_0000u128) * 2;
        proof {
            let pk = pow2(k) as int;
            let pk1 = pow2((k - 1) as nat) as int;
            lemma2_to64();
            lemma_pow2_pos((k - 1) as nat);
            lemma_pow2_pos(k);
            lemma_pow2_pos(i as nat);
            lemma_pow2_adds((k - 1) as nat, 1);
            lemma_pow2_adds(i as nat, 1);
            lemma_fundamental_div_mod(n.lo as int, pk);
            lemma_fundamental_div_mod(big_r, pk1);
            lemma_mod_division_less_than_divisor(n.lo as int, pk);
            lemma_mod_division_less_than_divisor(big_r, pk1);
            lemma_bit_split(n.lo as int, pk, pk1, big_q, big_r, bb, r2);
            // the register holds the remaining bits shifted left by i;
            // its top bit is the next bit of the dividend
            lemma_pow2_adds((k - 1) as nat, i as nat);
            assert(loreg == bb * pow2(127) + r2 * pow2(i as nat)) by (nonlinear_arith)
                requires
                    loreg == big_r * pow2(i as nat),
                    big_r == bb * pk1 + r2,
                    pk1 * pow2(i as nat) == pow2(127),
                    pk1 == pow2((k - 1) as nat),
            ;
            assert(r2 * pow2(i as nat) < pow2(127)) by {
                lemma_mul_strict_inequality(r2, pk1, pow2(i as nat) as int);
            }
            assert(r2 * pow2(i as nat) >= 0) by (nonlinear_arith)
                requires
                    r2 >= 0,
                    pow2(i as nat) > 0,
            ;
            lemma_fundamental_div_mod_converse(
                loreg as int,
                pow2(127) as int,
                bb,
                r2 * pow2(i as nat),
            );
            assert(b == bb);
            assert(loreg % 0x8000_0000_0000_0000_0000_0000_0000_0000u128 == r2 * pow2(i as nat));
            // the value consumed so far gains that bit
            lemma_fundamental_div_mod_converse(n.lo as int, pk1, 2 * big_q + bb, r2);
            assert(loreg2 == r2 * pow2((i + 1) as nat)) by (nonlinear_arith)
                requires
                    loreg2 == (r2 * pow2(i as nat)) * 2,
                    pow2((i + 1) as nat) == 2 * pow2(i as nat),
            ;
        }
        proof {
            if (i as nat) < 127 {
                lemma_pow2_strictly_increases(i as nat, 127);
            }
        }
        let q2: u128;
        let rem2: u128;
        if rem >= 0x8000_0000_0000_0000_0000_0000_0000_0000u128 || 2 * rem + b >= d {
            q2 = 2 * q + 1;
            rem2 = (rem + b) - (d - rem);
        } else {
            q2 = 2 * q;
            rem2 = 2 * rem + b;
        }
        proof {
            let v = n.hi * pow2(i as nat) + n.lo as int / pow2(k) as int;
            lemma_div_step(d as int, q as int, rem as int, bb, v, q2 as int, rem2 as int);
            lemma2_to64();
            lemma_pow2_adds(i as nat, 1);
            assert(2 * v + bb == n.hi * pow2((i + 1) as nat) + n.lo as int / pow2(
                (k - 1) as nat,
            ) as int) by (nonlinear_arith)
                requires
                    v == n.hi * pow2(i as nat) + n.lo as int / pow2(k) as int,
                    pow2((i + 1) as nat) == 2 * pow2(i as nat),
                    n.lo as int / pow2((k - 1) as nat) as int == 2 * (n.lo as int / pow2(
                        k,
                    ) as int) + bb,
            ;
            assert(q2 < pow2((i + 1) as nat));
        }
        q = q2;
        rem = rem2;
        loreg = loreg2;
    }
    proof {
        lemma2_to64();
        assert(n.hi * pow2(128) == n.hi * 0x1_0000_0000_0000_0000_0000_0000_0000_0000int)
            by (nonlinear_arith)
            requires
                pow2(128) == 0x1_0000_0000_0000_0000_0000_0000_0000_0000int,
        ;
        assert(n.lo as int / pow2(0) as int == n.lo as int);
    }
    (q, rem)
}

/// `floor(a * b / d)` computed through a 256-bit intermediate product, so the
/// multiplication itself cannot overflow; fails on a zero divisor or on a
/// quotient too large for 128 bits.
pub fn muldiv(a: u128, b: u128, d: u128) -> (r: Result<u128, MathError>)
    ensures
        match r {
            Ok(q) => d != 0 && q == a * b / (d as int),
            Err(MathError::DivByZero) => d == 0,
            Err(MathError::MulOverflow) => d != 0 && a * b / (d as int) >= p128(),
            Err(_) => false,
        },
        d != 0 && a * b / (d as int) < p128() ==> r is Ok,
{
    if d == 0 {
        return Err(MathError::DivByZero);
    }
    let p = mul_wide(a, b);
    if p.hi >= d {
        proof {
            assert(p.val() >= d * 0x1_0000_0000_0000_0000_0000_0000_0000_0000int)
                by (nonlinear_arith)
                requires
                    p.val() == p.hi * 0x1_0000_0000_0000_0000_0000_0000_0000_0000int + p.lo,
                    p.hi >= d,
                    p.lo >= 0,
            ;
            vstd::arithmetic::div_mod::lemma_div_is_ordered(
                d * 0x1_0000_0000_0000_0000_0000_0000_0000_0000int,
                p.val(),
                d as int,
            );
            vstd::arithmetic::div_mod::lemma_div_multiples_vanish(
                0x1_0000_0000_0000_0000_0000_0000_0000_0000int,
                d as int,
            );
        }
        return Err(MathError::MulOverflow);
    }
    let (q, rem) = div_rem_wide(p, d);
    proof {
        lemma_fundamental_div_mod_converse(p.val(), d as int, q as int, rem as int);
    }
    Ok(q)
}

impl U256 {
    /// The product of a 256-bit value and a small factor, as a carry word and
    /// a 256-bit remainder: `carry * 2^256 + r == self * m`.
    pub fn scale(self, m: u64) -> (r: (u128, U256))
        ensures
            r.0 * 0x1_0000_0000_0000_0000_0000_0000_0000_0000_0000_0000_0000_0000_0000_0000_0000_0000int
                + r.1.val() == self.val() * m,
    {
        let lo_part = mul_wide(self.lo, m as u128);
        let hi_part = mul_wide(self.hi, m as u128);
        proof {
            lemma_mul_upper_bound(
                self.hi as int,
                u128::MAX as int,
                m as int,
                (u64::MAX) as int,
            );
            assert(hi_part.hi < 0x1_0000_0000_0000_0000u128) by (nonlinear_arith)
                requires
                    hi_part.hi * 0x1_0000_0000_0000_0000_0000_0000_0000_0000int + hi_part.lo
                        == self.hi * m,
                    self.hi * m <= u128::MAX * 0xffff_ffff_ffff_ffffu64,
                    hi_part.lo >= 0,
            ;
        }
        let (mid, carry) = add_carry(hi_part.lo, lo_part.hi);
        let c = hi_part.hi + carry;
        proof {
            assert(c
                * 0x1_0000_0000_0000_0000_0000_0000_0000_0000_0000_0000_0000_0000_0000_0000_0000_0000int
                + (mid * 0x1_0000_0000_0000_0000_0000_0000_0000_0000int + lo_part.lo) == self.val()
                * m) by (nonlinear_arith)
                requires
                    c == hi_part.hi + carry,
                    mid + carry * 0x1_0000_0000_0000_0000_0000_0000_0000_0000int == hi_part.lo
                        + lo_part.hi,
                    hi_part.hi * 0x1_0000_0000_0000_0000_0000_0000_0000_0000int + hi_part.lo
                        == self.hi * m,
                    lo_part.hi * 0x1_0000_0000_0000_0000_0000_0000_0000_0000int + lo_part.lo
                        == self.lo * m,
                    self.val() == self.hi * 0x1_0000_0000_0000_0000_0000_0000_0000_0000int
                        + self.lo,
            ;
        }
        (c, U256 { hi: mid, lo: lo_part.lo })
    }
}

/// The integer square root: the largest `r` with `r * r <= n`.
pub open spec fn isqrt(n: nat) -> nat
    decreases n,
{
    if n == 0 {
        0
    } else {
        let r = isqrt((n - 1) as nat);
        if (r + 1) * (r + 1) <= n {
            (r + 1) as nat
        } else {
            r
        }
    }
}

pub proof fn lemma_isqrt_bounds(n: nat)
    ensures
        isqrt(n) * isqrt(n) <= n,
        n < (isqrt(n) + 1) * (isqrt(n) + 1),
    decreases n,
{
    if n > 0 {
        lemma_isqrt_bounds((n - 1) as nat);
        let r = isqrt((n - 1) as nat);
        let s = isqrt(n);
        assert(s == if (r + 1) * (r + 1) <= n {
            (r + 1) as nat
        } else {
            r
        });
        assert(s * s <= n && n < (s + 1) * (s + 1)) by (nonlinear_arith)
            requires
                r * r <= n - 1,
                n - 1 < (r + 1) * (r + 1),
                n >= 1,
                s == if (r + 1) * (r + 1) <= n {
                    (r + 1) as nat
                } else {
                    r
                },
        ;
        assert(n < (isqrt(n) + 1) * (isqrt(n) + 1)) by (nonlinear_arith)
            requires
                n < (s + 1) * (s + 1),
                s == isqrt(n),
        ;
    } else {
        assert(isqrt(0) == 0);
        assert(n < (isqrt(n) + 1) * (isqrt(n) + 1)) by (nonlinear_arith)
            requires
                n == 0,
                isqrt(n) == 0,
        ;
    }
}

pub proof fn lemma_isqrt_unique(n: nat, r: nat)
    requires
        r * r <= n,
        n < (r + 1) * (r + 1),
    ensures
        r == isqrt(n),
{
    lemma_isqrt_bounds(n);
    let s = isqrt(n);
    if r < s {
        assert(false) by (nonlinear_arith)
            requires
                r < s,
                s * s <= n,
                n < (r + 1) * (r + 1),
        ;
    }
    if s < r {
        assert(false) by (nonlinear_arith)
            requires
                s < r,
                r * r <= n,
                n < (s + 1) * (s + 1),
        ;
    }
}

/// An upper bound on the argument squared bounds the square root.
pub proof fn lemma_isqrt_le(n: nat, m: nat)
    requires
        n <= m * m,
    ensures
        isqrt(n) <= m,
{
    lemma_isqrt_bounds(n);
    if isqrt(n) > m {
        assert(false) by (nonlinear_arith)
            requires
                isqrt(n) > m,
                isqrt(n) * isqrt(n) <= n,
                n <= m * m,
        ;
    }
}

/// The integer square root of a 256-bit value, by binary search.
pub fn isqrt_u256(v: U256) -> (r: u128)
    ensures
        r == isqrt(v.val() as nat),
{
    let mut lo: u128 = 0;
    let mut hi: u128 = u128::MAX;
    proof {
        assert(v.val() < (u128::MAX + 1) * (u128::MAX + 1));
    }
    while lo < hi
        invariant
            lo <= hi,
            lo * lo <= v.val(),
            v.val() < (hi + 1) * (hi + 1),
        decreases hi - lo,
    {
        let mid = hi - (hi - lo) / 2;
        let sq = mul_wide(mid, mid);
        if sq.le(v) {
            lo = mid;
        } else {
            hi = mid - 1;
        }
    }
    proof {
        lemma_isqrt_unique(v.val() as nat, lo as nat);
    }
    lo
}

} // verus!
