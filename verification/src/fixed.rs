//! Fixed-point scalars.
//!
//! A real quantity is stored as a signed count of hundred-thousandths in an
//! `i64`. Products and quotients are truncated toward zero and every operation
//! saturates at the `i64` range, so arithmetic is total: a diverging
//! simulation clamps instead of aborting.

use vstd::prelude::*;

verus! {

/// Raw units in one whole unit: five decimal digits of fraction.
pub const SCALE: i64 = 100_000;

/// A fixed-point scalar: `raw` hundred-thousandths of a unit.
#[derive(Clone, Copy, PartialEq, Eq, Structural, Debug)]
pub struct Fx {
    pub raw: i64,
}

/// Clamp an unbounded integer into the `i64` range.
pub open spec fn sat64(x: int) -> int {
    if x > i64::MAX as int {
        i64::MAX as int
    } else if x < i64::MIN as int {
        i64::MIN as int
    } else {
        x
    }
}

/// Magnitude of an integer.
pub open spec fn mag(x: int) -> int {
    if x < 0 {
        -x
    } else {
        x
    }
}

/// `1` when `a` and `b` have the same sign, `-1` otherwise.
pub open spec fn sgn2(a: int, b: int) -> int {
    if (a < 0) == (b < 0) {
        1
    } else {
        -1
    }
}

/// Raw value of a fixed-point product: truncated toward zero, saturated.
pub open spec fn mul_units(a: int, b: int) -> int {
    sat64(sgn2(a, b) * ((mag(a) * mag(b)) / (SCALE as int)))
}

/// Raw value of a fixed-point quotient: truncated toward zero, saturated.
pub open spec fn div_units(a: int, b: int) -> int
    recommends
        b != 0,
{
    sat64(sgn2(a, b) * ((mag(a) * (SCALE as int)) / mag(b)))
}

/// One past the largest `u128` value.
pub open spec fn u128_bound() -> int {
    (u128::MAX as int) + 1
}

/// Quotient truncated toward zero.
pub open spec fn tdiv(a: int, b: int) -> int
    recommends
        b != 0,
{
    sgn2(a, b) * (mag(a) / mag(b))
}

/// `r` is the integer square root of `n`.
pub open spec fn is_sqrt(n: int, r: int) -> bool {
    0 <= r && r * r <= n && n < (r + 1) * (r + 1)
}

/// The integer square root (floor) of a non-negative integer.
pub open spec fn isqrt(n: int) -> int {
    choose|r: int| is_sqrt(n, r)
}

/// Every non-negative integer has an integer square root.
pub proof fn lemma_isqrt_exists(n: int)
    requires
        0 <= n,
    ensures
        is_sqrt(n, isqrt(n)),
    decreases n,
{
    if n == 0 {
        assert(is_sqrt(0, 0));
    } else {
        lemma_isqrt_exists(n - 1);
        let r = isqrt(n - 1);
        if (r + 1) * (r + 1) <= n {
            assert(n - 1 < (r + 1) * (r + 1));
            assert(n < (r + 2) * (r + 2)) by {
                assert((r + 1) * (r + 1) + 1 <= (r + 2) * (r + 2)) by (nonlinear_arith)
                    requires
                        r >= 0,
                ;
            }
            assert(is_sqrt(n, r + 1));
        } else {
            assert(is_sqrt(n, r));
        }
    }
    assert(exists|r: int| is_sqrt(n, r));
}

/// The integer square root is unique.
pub proof fn lemma_isqrt_is(n: int, r: int)
    requires
        is_sqrt(n, r),
    ensures
        isqrt(n) == r,
{
    lemma_isqrt_exists(n);
    let q = isqrt(n);
    if q < r {
        assert((q + 1) * (q + 1) <= r * r) by (nonlinear_arith)
            requires
                0 <= q,
                q + 1 <= r,
        ;
    }
    if r < q {
        assert((r + 1) * (r + 1) <= q * q) by (nonlinear_arith)
            requires
                0 <= r,
                r + 1 <= q,
        ;
    }
}

/// An integer square root is no larger than any `b` whose square reaches `n`.
pub proof fn lemma_isqrt_bound(n: int, b: int)
    requires
        0 <= n,
        0 <= b,
        n <= b * b,
    ensures
        isqrt(n) <= b,
{
    lemma_isqrt_exists(n);
    let r = isqrt(n);
    if r > b {
        assert(b * b < r * r) by (nonlinear_arith)
            requires
                0 <= b,
                b < r,
        ;
    }
}

/// Integer square root of a `u128`, by bisection on the answer.
pub fn isqrt_u128(n: u128) -> (r: u128)
    ensures
        is_sqrt(n as int, r as int),
        r == isqrt(n as int),
{
    let mut lo: u128 = 0;
    let mut hi: u128 = 0x1_0000_0000_0000_0000u128;
    while hi - lo > 1
        invariant
            lo < hi,
            hi <= 0x1_0000_0000_0000_0000u128,
            (lo as int) * (lo as int) <= n as int,
            (n as int) < (hi as int) * (hi as int),
        decreases hi - lo,
    {
        let mid: u128 = lo + (hi - lo) / 2;
        assert(lo < mid < hi);
        assert((mid as int) * (mid as int) < u128_bound()) by (nonlinear_arith)
            requires
                0 <= (mid as int) < (0x1_0000_0000_0000_0000u128) as int,
                ((0x1_0000_0000_0000_0000u128) as int) * ((0x1_0000_0000_0000_0000u128) as int) == u128_bound(),
        ;
        if mid * mid <= n {
            lo = mid;
        } else {
            hi = mid;
        }
    }
    proof {
        assert((n as int) < ((0x1_0000_0000_0000_0000u128) as int) * ((0x1_0000_0000_0000_0000u128) as int)) by (nonlinear_arith)
            requires
                (n as int) < u128_bound(),
                ((0x1_0000_0000_0000_0000u128) as int) * ((0x1_0000_0000_0000_0000u128) as int) == u128_bound(),
        ;
        lemma_isqrt_is(n as int, lo as int);
    }
    lo
}

/// Clamp a wide intermediate into an `i64`.
fn clamp_i128(s: i128) -> (r: i64)
    ensures
        r as int == sat64(s as int),
{
    if s > i64::MAX as i128 {
        i64::MAX
    } else if s < i64::MIN as i128 {
        i64::MIN
    } else {
        s as i64
    }
}

/// Magnitude of an `i64`, widened so `i64::MIN` is representable.
fn mag_u128(x: i64) -> (r: u128)
    ensures
        r as int == mag(x as int),
{
    if x < 0 {
        (-(x as i128)) as u128
    } else {
        x as u128
    }
}

/// Clamp a non-negative magnitude with a sign back into an `i64`.
fn apply_sign(neg: bool, q: u128) -> (r: i64)
    ensures
        r as int == sat64(if neg {
            -(q as int)
        } else {
            q as int
        }),
{
    if neg {
        if q > (0x8000_0000_0000_0000u128) {
            i64::MIN
        } else {
            assert(-(q as int) >= i64::MIN as int);
            (-(q as i128)) as i64
        }
    } else {
        if q > i64::MAX as u128 {
            i64::MAX
        } else {
            q as i64
        }
    }
}

/// Exact product of two narrow values in a wide intermediate.
pub fn mul_wide(a: i64, b: i64) -> (r: i128)
    requires
        mag(a as int) <= 0x1_0000_0000,
        mag(b as int) <= 0x1_0000_0000,
    ensures
        r as int == (a as int) * (b as int),
        mag(r as int) <= 0x1_0000_0000_0000_0000,
{
    proof {
        assert(mag((a as int) * (b as int)) <= 0x1_0000_0000_0000_0000int) by (nonlinear_arith)
            requires
                mag(a as int) <= 0x1_0000_0000int,
                mag(b as int) <= 0x1_0000_0000int,
        ;
    }
    a as i128 * b as i128
}

/// Exact product of two `i64` values in a wide intermediate.
pub fn mul_full(a: i64, b: i64) -> (r: i128)
    ensures
        r as int == (a as int) * (b as int),
{
    proof {
        assert(mag((a as int) * (b as int)) <= (0x8000_0000_0000_0000int) * (
        0x8000_0000_0000_0000int)) by (nonlinear_arith)
            requires
                mag(a as int) <= 0x8000_0000_0000_0000int,
                mag(b as int) <= 0x8000_0000_0000_0000int,
        ;
    }
    a as i128 * b as i128
}

/// An integer count of fixed-point steps: `k` times the raw step, saturated.
pub fn scale_int(k: i64, s: Fx) -> (r: Fx)
    ensures
        r.raw as int == sat64((k as int) * (s.raw as int)),
{
    Fx { raw: clamp_i128(mul_full(k, s.raw)) }
}

/// Truncated quotient of two wide intermediates, clamped into an `i64`.
pub fn tdiv_i128(a: i128, b: i128) -> (r: i64)
    requires
        b != 0,
        a != i128::MIN,
        b != i128::MIN,
    ensures
        r as int == sat64(tdiv(a as int, b as int)),
{
    let neg = (a < 0) != (b < 0);
    let ma: u128 = if a < 0 {
        (-a) as u128
    } else {
        a as u128
    };
    let mb: u128 = if b < 0 {
        (-b) as u128
    } else {
        b as u128
    };
    let q: u128 = ma / mb;
    let r = apply_sign(neg, q);
    proof {
        lemma_sgn_mag(a as int, b as int, q as int);
    }
    r
}

impl Fx {
    /// The scalar zero.
    pub fn zero() -> (r: Fx)
        ensures
            r.raw == 0,
    {
        Fx { raw: 0 }
    }

    /// Saturating sum.
    pub fn add(self, o: Fx) -> (r: Fx)
        ensures
            r.raw as int == sat64(self.raw + o.raw),
    {
        Fx { raw: clamp_i128(self.raw as i128 + o.raw as i128) }
    }

    /// Saturating difference.
    pub fn sub(self, o: Fx) -> (r: Fx)
        ensures
            r.raw as int == sat64(self.raw - o.raw),
    {
        Fx { raw: clamp_i128(self.raw as i128 - o.raw as i128) }
    }

    /// Saturating negation.
    pub fn neg(self) -> (r: Fx)
        ensures
            r.raw as int == sat64(-(self.raw as int)),
    {
        Fx { raw: clamp_i128(-(self.raw as i128)) }
    }

    /// Saturating truncated product.
    pub fn mul(self, o: Fx) -> (r: Fx)
        ensures
            r.raw as int == mul_units(self.raw as int, o.raw as int),
    {
        let neg = (self.raw < 0) != (o.raw < 0);
        let a = mag_u128(self.raw);
        let b = mag_u128(o.raw);
        assert((a as int) * (b as int) <= ((0x8000_0000_0000_0000u128) as int) * ((0x8000_0000_0000_0000u128) as int))
            by (nonlinear_arith)
            requires
                0 <= a as int <= (0x8000_0000_0000_0000u128) as int,
                0 <= b as int <= (0x8000_0000_0000_0000u128) as int,
        ;
        let q: u128 = (a * b) / (SCALE as u128);
        let r = apply_sign(neg, q);
        proof {
            lemma_sgn_mag(self.raw as int, o.raw as int, q as int);
        }
        Fx { raw: r }
    }

    /// Saturating truncated quotient.
    pub fn div(self, o: Fx) -> (r: Fx)
        requires
            o.raw != 0,
        ensures
            r.raw as int == div_units(self.raw as int, o.raw as int),
    {
        let neg = (self.raw < 0) != (o.raw < 0);
        let a = mag_u128(self.raw);
        let b = mag_u128(o.raw);
        assert((a as int) * (SCALE as int) <= ((0x8000_0000_0000_0000u128) as int) * (SCALE as int))
            by (nonlinear_arith)
            requires
                0 <= a as int <= (0x8000_0000_0000_0000u128) as int,
        ;
        let q: u128 = (a * (SCALE as u128)) / b;
        let r = apply_sign(neg, q);
        proof {
            lemma_sgn_mag(self.raw as int, o.raw as int, q as int);
        }
        Fx { raw: r }
    }

    /// Magnitude.
    pub fn abs(self) -> (r: Fx)
        ensures
            r.raw as int == sat64(mag(self.raw as int)),
    {
        if self.raw < 0 {
            self.neg()
        } else {
            self
        }
    }
}

/// Folding a sign into a magnitude matches the signed spec forms.
proof fn lemma_sgn_mag(a: int, b: int, q: int)
    requires
        0 <= q,
    ensures
        sat64(if (a < 0) != (b < 0) {
            -q
        } else {
            q
        }) == sat64(sgn2(a, b) * q),
{
}

} // verus!
