//! Fixed-point real arithmetic.
//!
//! A `Fixed` holds a real number as `raw / SCALE` with `raw: i64` and
//! `SCALE = 2^16`. Every operation has an exact integer semantics, stated
//! by the spec functions below: products and quotients truncate toward
//! zero, and results that leave the representable range saturate.

use vstd::prelude::*;

verus! {

/// Number of raw units per whole unit.
pub const SCALE: i64 = 65536;

/// Clamp a mathematical integer into the `i64` range.
pub open spec fn sat64(x: int) -> int {
    if x > i64::MAX as int {
        i64::MAX as int
    } else if x < i64::MIN as int {
        i64::MIN as int
    } else {
        x
    }
}

/// Absolute value.
pub open spec fn abs_int(x: int) -> int {
    if x >= 0 {
        x
    } else {
        -x
    }
}

/// Division truncating toward zero (the semantics of machine division).
pub open spec fn tdiv(a: int, b: int) -> int {
    if (a >= 0) == (b >= 0) {
        abs_int(a) / abs_int(b)
    } else {
        -(abs_int(a) / abs_int(b))
    }
}

/// Raw result of adding two fixed-point values.
pub open spec fn fx_add(a: int, b: int) -> int {
    sat64(a + b)
}

/// Raw result of subtracting two fixed-point values.
pub open spec fn fx_sub(a: int, b: int) -> int {
    sat64(a - b)
}

/// Raw result of negating a fixed-point value.
pub open spec fn fx_neg(a: int) -> int {
    sat64(-a)
}

/// Raw result of the fixed-point product `(a/S)*(b/S)`, which is
/// `a*b/S` truncated toward zero and saturated.
pub open spec fn fx_mul(a: int, b: int) -> int {
    sat64(tdiv(a * b, SCALE as int))
}

/// Raw result of the fixed-point quotient `(a/S)/(b/S)`, which is
/// `a*S/b` truncated toward zero and saturated. Meaningful only for `b != 0`.
pub open spec fn fx_div(a: int, b: int) -> int {
    sat64(tdiv(a * (SCALE as int), b))
}

/// Raw absolute value of a fixed-point value.
pub open spec fn fx_abs(a: int) -> int {
    sat64(abs_int(a))
}

/// The integer square root: the unique `r` with `r*r <= n < (r+1)*(r+1)`.
pub open spec fn sqrt_floor(n: nat) -> nat
    decreases n,
{
    if n == 0 {
        0
    } else {
        let r = sqrt_floor((n - 1) as nat);
        if (r + 1) * (r + 1) <= n {
            r + 1
        } else {
            r
        }
    }
}

/// Raw result of the fixed-point square root of `a/S`, which is
/// `floor(sqrt(a*S))`. Meaningful only for `a >= 0`.
pub open spec fn fx_sqrt(a: int) -> int {
    sqrt_floor((a * (SCALE as int)) as nat) as int
}

/// `sqrt_floor(n)` is squeezed between the two adjacent squares.
pub proof fn lemma_sqrt_floor_bounds(n: nat)
    ensures
        sqrt_floor(n) * sqrt_floor(n) <= n,
        n < (sqrt_floor(n) + 1) * (sqrt_floor(n) + 1),
    decreases n,
{
    if n == 0 {
        assert(sqrt_floor(0) == 0);
        assert(0 < (0 + 1) * (0 + 1)) by (nonlinear_arith);
    } else {
        lemma_sqrt_floor_bounds((n - 1) as nat);
        let r = sqrt_floor((n - 1) as nat);
        assert(r * r <= n - 1 < (r + 1) * (r + 1));
        if (r + 1) * (r + 1) <= n {
            assert(sqrt_floor(n) == r + 1);
            let s = sqrt_floor(n);
            assert(s * s <= n);
            assert(n < (s + 1) * (s + 1)) by (nonlinear_arith)
                requires
                    n - 1 < (r + 1) * (r + 1),
                    s == r + 1,
                    r >= 0,
            ;
        } else {
            assert(sqrt_floor(n) == r);
            let s = sqrt_floor(n);
            assert(s * s <= n - 1 < n);
            assert(n < (s + 1) * (s + 1));
        }
    }
}

/// The squeeze property determines the integer square root uniquely.
pub proof fn lemma_sqrt_floor_unique(n: nat, r: nat)
    requires
        r * r <= n,
        n < (r + 1) * (r + 1),
    ensures
        r == sqrt_floor(n),
{
    lemma_sqrt_floor_bounds(n);
    let s = sqrt_floor(n);
    if s < r {
        assert(false) by (nonlinear_arith)
            requires
                s < r,
                r * r <= n,
                n < (s + 1) * (s + 1),
                s >= 0,
        ;
    }
    if r < s {
        assert(false) by (nonlinear_arith)
            requires
                r < s,
                s * s <= n,
                n < (r + 1) * (r + 1),
                r >= 0,
        ;
    }
}

/// Truncating division returns an exact multiple's cofactor exactly.
pub proof fn lemma_tdiv_multiple(q: int, b: int)
    requires
        b != 0,
    ensures
        tdiv(q * b, b) == q,
{
    assert(abs_int(q * b) == abs_int(q) * abs_int(b)) by (nonlinear_arith);
    assert(abs_int(b) > 0);
    vstd::arithmetic::div_mod::lemma_div_multiples_vanish(abs_int(q), abs_int(b));
    assert(abs_int(q) * abs_int(b) == abs_int(b) * abs_int(q)) by (nonlinear_arith);
    assert((abs_int(q) * abs_int(b)) / abs_int(b) == abs_int(q));
    if q > 0 {
        assert((q * b >= 0) == (b >= 0)) by (nonlinear_arith)
            requires
                q > 0,
                b != 0,
        ;
    } else if q < 0 {
        assert((q * b >= 0) != (b >= 0)) by (nonlinear_arith)
            requires
                q < 0,
                b != 0,
        ;
    } else {
        assert(q * b == 0) by (nonlinear_arith)
            requires
                q == 0,
        ;
    }
}

/// Truncating division is monotone in the numerator for a positive
/// divisor.
pub proof fn lemma_tdiv_monotone(x: int, y: int, d: int)
    requires
        x <= y,
        d > 0,
    ensures
        tdiv(x, d) <= tdiv(y, d),
{
    if x >= 0 {
        vstd::arithmetic::div_mod::lemma_div_is_ordered(x, y, d);
    } else if y < 0 {
        vstd::arithmetic::div_mod::lemma_div_is_ordered(-y, -x, d);
    } else {
        vstd::arithmetic::div_mod::lemma_div_pos_is_pos(-x, d);
        vstd::arithmetic::div_mod::lemma_div_pos_is_pos(y, d);
    }
}

/// A product that comes to an exact multiple of the scale multiplies
/// exactly.
pub proof fn lemma_fx_mul_exact(a: int, b: int, q: int)
    requires
        a * b == q * (SCALE as int),
        i64::MIN <= q <= i64::MAX,
    ensures
        fx_mul(a, b) == q,
{
    lemma_tdiv_multiple(q, SCALE as int);
}

/// A quotient that divides evenly divides exactly.
pub proof fn lemma_fx_div_exact(a: int, b: int, q: int)
    requires
        b != 0,
        a * (SCALE as int) == q * b,
        i64::MIN <= q <= i64::MAX,
    ensures
        fx_div(a, b) == q,
{
    lemma_tdiv_multiple(q, b);
}

/// The square root of an exact square of raw units.
pub proof fn lemma_fx_sqrt_exact(a: int, q: int)
    requires
        a >= 0,
        q >= 0,
        a * (SCALE as int) == q * q,
    ensures
        fx_sqrt(a) == q,
{
    assert(q * q < (q + 1) * (q + 1)) by (nonlinear_arith)
        requires
            q >= 0,
    ;
    lemma_sqrt_floor_unique((a * (SCALE as int)) as nat, q as nat);
}

/// A fixed-point real number: the value `raw / SCALE`.
#[derive(Debug, Clone, Copy, PartialEq, Eq, Structural)]
pub struct Fixed {
    raw: i64,
}

impl View for Fixed {
    type V = int;

    closed spec fn view(&self) -> int {
        self.raw as int
    }
}

/// Every fixed-point value lies in the `i64` range.
pub broadcast proof fn lemma_fixed_in_range(a: Fixed)
    ensures
        i64::MIN <= #[trigger] a@ <= i64::MAX,
{
}

/// Clamp an `i128` into the `i64` range.
fn clamp_to_i64(x: i128) -> (r: i64)
    ensures
        r as int == sat64(x as int),
{
    if x > i64::MAX as i128 {
        i64::MAX
    } else if x < i64::MIN as i128 {
        i64::MIN
    } else {
        x as i64
    }
}

/// Truncating `i128` division.
fn div_trunc(a: i128, b: i128) -> (r: i128)
    requires
        b != 0,
        a > i128::MIN,
    ensures
        r as int == tdiv(a as int, b as int),
{
    let negate: bool = (a < 0) != (b < 0);
    let ua: u128 = if a < 0 {
        (-a) as u128
    } else {
        a as u128
    };
    let ub: u128 = if b < 0 {
        if b == i128::MIN {
            1u128 << 127
        } else {
            (-b) as u128
        }
    } else {
        b as u128
    };
    proof {
        assert((1u128 << 127) as int == 0x80000000000000000000000000000000) by (bit_vector);
        assert(ua as int == abs_int(a as int));
        assert(ub as int == abs_int(b as int));
        vstd::arithmetic::div_mod::lemma_div_nonincreasing(ua as int, ub as int);
        vstd::arithmetic::div_mod::lemma_div_pos_is_pos(ua as int, ub as int);
    }
    let q: u128 = ua / ub;
    if negate {
        -(q as i128)
    } else {
        q as i128
    }
}

/// Integer square root of a `u128` below `2^80`.
fn isqrt(n: u128) -> (r: u64)
    requires
        n < (1u128 << 80) as nat,
    ensures
        r == sqrt_floor(n as nat),
{
    let mut lo: u128 = 0;
    let mut hi: u128 = 1u128 << 40;
    proof {
        assert((1u128 << 40) as int == 0x10000000000) by (bit_vector);
        assert((1u128 << 80) as int == 0x100000000000000000000) by (bit_vector);
        assert(0x10000000000int * 0x10000000000int > n);
    }
    while hi - lo > 1
        invariant
            0 <= lo < hi <= 0x10000000000,
            lo * lo <= n,
            n < hi * hi,
        decreases hi - lo,
    {
        let mid: u128 = lo + (hi - lo) / 2;
        proof {
            assert(mid * mid <= 0x10000000000int * 0x10000000000int) by (nonlinear_arith)
                requires
                    0 <= mid <= 0x10000000000,
            ;
        }
        if mid * mid <= n {
            lo = mid;
        } else {
            hi = mid;
        }
    }
    proof {
        lemma_sqrt_floor_unique(n as nat, lo as nat);
    }
    lo as u64
}

impl Fixed {
    /// The fixed-point value `raw / SCALE`.
    pub fn from_raw(raw: i64) -> (r: Fixed)
        ensures
            r@ == raw as int,
    {
        Fixed { raw }
    }

    /// The underlying raw units.
    pub fn raw(self) -> (r: i64)
        ensures
            r as int == self@,
    {
        self.raw
    }

    /// The fixed-point value closest to the integer `n` (exact unless it saturates).
    pub fn from_int(n: i64) -> (r: Fixed)
        ensures
            r@ == sat64(n * (SCALE as int)),
    {
        proof {
            assert(i128::MIN < (n as int) * (SCALE as int) <= i128::MAX) by (nonlinear_arith)
                requires
                    -0x8000000000000000 <= n as int <= 0x7fffffffffffffff,
            ;
        }
        Fixed { raw: clamp_to_i64((n as i128) * (SCALE as i128)) }
    }

    /// The value zero.
    pub fn zero() -> (r: Fixed)
        ensures
            r@ == 0,
    {
        Fixed { raw: 0 }
    }

    pub fn add(self, other: Fixed) -> (r: Fixed)
        ensures
            r@ == fx_add(self@, other@),
    {
        Fixed { raw: clamp_to_i64((self.raw as i128) + (other.raw as i128)) }
    }

    pub fn sub(self, other: Fixed) -> (r: Fixed)
        ensures
            r@ == fx_sub(self@, other@),
    {
        Fixed { raw: clamp_to_i64((self.raw as i128) - (other.raw as i128)) }
    }

    pub fn neg(self) -> (r: Fixed)
        ensures
            r@ == fx_neg(self@),
    {
        Fixed { raw: clamp_to_i64(-(self.raw as i128)) }
    }

    pub fn mul(self, other: Fixed) -> (r: Fixed)
        ensures
            r@ == fx_mul(self@, other@),
    {
        proof {
            assert(i128::MIN < (self.raw as int) * (other.raw as int) <= i128::MAX)
                by (nonlinear_arith)
                requires
                    -0x8000000000000000 <= self.raw as int <= 0x7fffffffffffffff,
                    -0x8000000000000000 <= other.raw as int <= 0x7fffffffffffffff,
            ;
        }
        let p: i128 = (self.raw as i128) * (other.raw as i128);
        Fixed { raw: clamp_to_i64(div_trunc(p, SCALE as i128)) }
    }

    pub fn div(self, other: Fixed) -> (r: Fixed)
        requires
            other@ != 0,
        ensures
            r@ == fx_div(self@, other@),
    {
        proof {
            assert(i128::MIN < (self.raw as int) * (SCALE as int) <= i128::MAX)
                by (nonlinear_arith)
                requires
                    -0x8000000000000000 <= self.raw as int <= 0x7fffffffffffffff,
            ;
        }
        let p: i128 = (self.raw as i128) * (SCALE as i128);
        Fixed { raw: clamp_to_i64(div_trunc(p, other.raw as i128)) }
    }

    pub fn abs(self) -> (r: Fixed)
        ensures
            r@ == fx_abs(self@),
    {
        if self.raw < 0 {
            self.neg()
        } else {
            self
        }
    }

    /// The fixed-point square root `floor(sqrt(raw * SCALE)) / SCALE`.
    pub fn sqrt(self) -> (r: Fixed)
        requires
            self@ >= 0,
        ensures
            r@ == fx_sqrt(self@),
    {
        let n: u128 = (self.raw as u128) * (SCALE as u128);
        proof {
            assert((1u128 << 80) as int == 0x100000000000000000000) by (bit_vector);
        }
        let s: u64 = isqrt(n);
        proof {
            lemma_sqrt_floor_bounds(n as nat);
            assert(sqrt_floor(n as nat) * sqrt_floor(n as nat) <= n < 0x100000000000000000000);
            assert(sqrt_floor(n as nat) < 0x10000000000) by (nonlinear_arith)
                requires
                    sqrt_floor(n as nat) * sqrt_floor(n as nat) < 0x100000000000000000000,
            ;
        }
        Fixed { raw: s as i64 }
    }

    pub fn lt(self, other: Fixed) -> (r: bool)
        ensures
            r == (self@ < other@),
    {
        self.raw < other.raw
    }

    pub fn le(self, other: Fixed) -> (r: bool)
        ensures
            r == (self@ <= other@),
    {
        self.raw <= other.raw
    }

    pub fn gt(self, other: Fixed) -> (r: bool)
        ensures
            r == (self@ > other@),
    {
        self.raw > other.raw
    }

    pub fn ge(self, other: Fixed) -> (r: bool)
        ensures
            r == (self@ >= other@),
    {
        self.raw >= other.raw
    }

    pub fn is_zero(self) -> (r: bool)
        ensures
            r == (self@ == 0),
    {
        self.raw == 0
    }
}

} // verus!
