//! Fixed-point numbers: a value `v` stands for `v / FX_ONE` (micro-units).
use vstd::prelude::*;
use vstd::math::abs;

verus! {

/// One unit in fixed point: one million micro-units.
pub const FX_ONE: i64 = 1_000_000;

/// Division of `a` by a positive `d`, rounded toward zero (as Rust's `/`).
pub open spec fn tdiv(a: int, d: int) -> int {
    if a >= 0 {
        a / d
    } else {
        -((-a) / d)
    }
}

/// A product of two fixed-point values brought back to fixed point.
pub open spec fn fx(a: int) -> int {
    tdiv(a, FX_ONE as int)
}

/// `a` is representable as an `i64`.
pub open spec fn fits_i64(a: int) -> bool {
    i64::MIN <= a <= i64::MAX
}

/// `a * b / d` rounded toward zero, computed without intermediate overflow.
pub fn mul_div(a: i64, b: i64, d: i64) -> (r: i64)
    requires
        d > 0,
        fits_i64(tdiv(a * b, d as int)),
    ensures
        r == tdiv(a * b, d as int),
{
    assert(-0x8000_0000_0000_0000_0000_0000_0000_0000 < (a as int) * (b as int) < 0x7fff_ffff_ffff_ffff_ffff_ffff_ffff_ffff) by (nonlinear_arith)
        requires
            i64::MIN <= a <= i64::MAX,
            i64::MIN <= b <= i64::MAX,
    ;
    let p: i128 = (a as i128) * (b as i128);
    let q: i128 = p / (d as i128);
    q as i64
}


/// Facts about truncating division by a positive divisor: it keeps the sign,
/// never grows the magnitude, and loses less than one divisor.
pub proof fn lemma_tdiv_bounds(a: int, d: int)
    requires
        d > 0,
    ensures
        a >= 0 ==> 0 <= tdiv(a, d) && tdiv(a, d) * d <= a && a < tdiv(a, d) * d + d,
        a < 0 ==> tdiv(a, d) <= 0 && a <= tdiv(a, d) * d && tdiv(a, d) * d < a + d,
        tdiv(-a, d) == -tdiv(a, d),
{
    if a >= 0 {
        let q = a / d;
        vstd::arithmetic::div_mod::lemma_fundamental_div_mod(a, d);
        vstd::arithmetic::div_mod::lemma_div_pos_is_pos(a, d);
        vstd::arithmetic::div_mod::lemma_mod_bound(a, d);
        assert(q * d == d * q) by (nonlinear_arith);
    } else {
        let q = (-a) / d;
        vstd::arithmetic::div_mod::lemma_fundamental_div_mod(-a, d);
        vstd::arithmetic::div_mod::lemma_div_pos_is_pos(-a, d);
        vstd::arithmetic::div_mod::lemma_mod_bound(-a, d);
        assert(q * d == d * q) by (nonlinear_arith);
        assert((-q) * d == -(q * d)) by (nonlinear_arith);
    }
    if a > 0 {
        assert(-a < 0);
        assert(--a == a);
    }
}

/// The magnitude of a truncated quotient times the divisor is at most the
/// magnitude of the dividend.
pub proof fn lemma_tdiv_abs(a: int, d: int)
    requires
        d > 0,
    ensures
        abs(tdiv(a, d)) * d <= abs(a),
        tdiv(a, d) * tdiv(a, d) * (d * d) <= a * a,
{
    lemma_tdiv_bounds(a, d);
    let q = tdiv(a, d);
    let m = abs(q);
    let n = abs(a);
    if a >= 0 {
        assert(m * d == q * d);
    } else {
        assert(m * d == -(q * d)) by (nonlinear_arith)
            requires
                m == -q,
        ;
    }
    assert(m * d <= n);
    assert(m * d >= 0) by (nonlinear_arith)
        requires
            d > 0,
            m >= 0,
    ;
    assert((m * d) * (m * d) <= n * n) by (nonlinear_arith)
        requires
            0 <= m * d <= n,
    ;
    assert(q * q * (d * d) == (m * d) * (m * d)) by (nonlinear_arith)
        requires
            m == q || m == -q,
    ;
    assert(a * a == n * n) by (nonlinear_arith)
        requires
            n == a || n == -a,
    ;
}

/// A quotient by a positive divisor is no larger in magnitude than the dividend.
pub proof fn lemma_tdiv_le(a: int, d: int)
    requires
        d >= 1,
    ensures
        abs(tdiv(a, d)) <= abs(a),
{
    lemma_tdiv_abs(a, d);
    let q = abs(tdiv(a, d));
    assert(q <= q * d) by (nonlinear_arith)
        requires
            q >= 0,
            d >= 1,
    ;
}

/// A point or vector of the plane in fixed point.
#[derive(Clone, Copy, Debug, PartialEq, Eq, Structural)]
pub struct Vector2 {
    pub x: i64,
    pub y: i64,
}

impl Vector2 {
    pub fn new(x: i64, y: i64) -> (r: Vector2)
        ensures
            r.x == x,
            r.y == y,
    {
        Vector2 { x, y }
    }

    /// The zero vector.
    pub fn zero() -> (r: Vector2)
        ensures
            r.x == 0,
            r.y == 0,
    {
        Vector2 { x: 0, y: 0 }
    }

    /// Squared length, in squared micro-units.
    pub open spec fn norm_sq(self) -> int {
        self.x * self.x + self.y * self.y
    }
}

pub open spec fn clamp_spec(v: int, lo: int, hi: int) -> int {
    if v < lo {
        lo
    } else if v > hi {
        hi
    } else {
        v
    }
}

/// `v` limited to `[lo, hi]`.
pub fn clamp(v: i64, lo: i64, hi: i64) -> (r: i64)
    requires
        lo <= hi,
    ensures
        r == clamp_spec(v as int, lo as int, hi as int),
{
    if v < lo {
        lo
    } else if v > hi {
        hi
    } else {
        v
    }
}

/// The smallest `r` with `n <= r * r`.
pub open spec fn is_ceil_sqrt(n: int, r: int) -> bool {
    0 <= r && n <= r * r && (r == 0 || (r - 1) * (r - 1) < n)
}

/// Square root rounded up, by bisection.
pub fn ceil_sqrt(n: u128) -> (r: u128)
    requires
        n <= 0x4000_0000_0000_0000_0000_0000_0000_0000,
    ensures
        is_ceil_sqrt(n as int, r as int),
{
    if n == 0 {
        return 0;
    }
    // invariant: (lo - 1)^2 < n <= hi^2
    let mut lo: u128 = 1;
    let mut hi: u128 = 0x8000_0000_0000_0000;
    assert(n <= hi * hi) by (nonlinear_arith)
        requires
            n <= 0x4000_0000_0000_0000_0000_0000_0000_0000,
            hi == 0x8000_0000_0000_0000,
    ;
    while lo < hi
        invariant
            1 <= lo <= hi <= 0x8000_0000_0000_0000,
            (lo - 1) * (lo - 1) < n,
            n <= hi * hi,
        decreases hi - lo,
    {
        let mid: u128 = lo + (hi - lo) / 2;
        assert(mid * mid <= 0x4000_0000_0000_0000_0000_0000_0000_0000) by (nonlinear_arith)
            requires
                0 <= mid <= 0x8000_0000_0000_0000,
        ;
        if mid * mid >= n {
            hi = mid;
        } else {
            lo = mid + 1;
        }
    }
    lo
}

} // verus!
