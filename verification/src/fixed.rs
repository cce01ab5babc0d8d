//! Fixed-point scalars and the exact integer arithmetic the renderer is
//! built on: truncating division (the way a float-to-int cast truncates)
//! and the integer square root used by the lighting model.
//!
//! A scalar is an `i64` holding `SCALE` times its mathematical value, so
//! `1.5` is stored as `1_500_000`.

use vstd::prelude::*;

verus! {

/// Number of fixed-point units per whole unit.
pub const SCALE: i64 = 1_000_000;

/// Largest magnitude (in fixed-point units) a mesh coordinate may have,
/// i.e. coordinates live in `[-1000.0, 1000.0]`.  The bound keeps every
/// intermediate product of the pipeline inside `i128`.
pub const MAX_COORD: i64 = 1_000_000_000;

/// Absolute value of a mathematical integer.
pub open spec fn iabs(a: int) -> int {
    if a < 0 {
        -a
    } else {
        a
    }
}

/// Quotient of `a` by `b` truncated toward zero, the rounding a
/// float-to-integer cast performs.  (The spec-level `/` is Euclidean,
/// which differs on negative dividends.)
pub open spec fn tdiv(a: int, b: int) -> int {
    let q = iabs(a) / iabs(b);
    if (a < 0) == (b < 0) {
        q
    } else {
        -q
    }
}

/// Truncating division on `i128`, as a float cast would round.
pub fn div_trunc(a: i128, b: i128) -> (r: i128)
    requires
        b != 0,
        a != i128::MIN,
        b != i128::MIN,
    ensures
        r == tdiv(a as int, b as int),
{
    let neg: bool = (a < 0) != (b < 0);
    let ua: u128 = if a < 0 {
        (-a) as u128
    } else {
        a as u128
    };
    let ub: u128 = if b < 0 {
        (-b) as u128
    } else {
        b as u128
    };
    let q: u128 = ua / ub;
    assert(ua as int == iabs(a as int) && ub as int == iabs(b as int));
    assert(q <= ua);
    if neg {
        -(q as i128)
    } else {
        q as i128
    }
}

/// `r` is the floor of the real square root of `x`.
pub open spec fn is_sqrt_floor(r: int, x: int) -> bool {
    &&& 0 <= r
    &&& r * r <= x
    &&& x < (r + 1) * (r + 1)
}

/// The floor of the real square root of `x` (meaningful for `x >= 0`).
pub open spec fn sqrt_floor(x: int) -> int {
    choose|r: int| is_sqrt_floor(r, x)
}

/// Some integer square root exists for every nonnegative `x`.
proof fn lemma_sqrt_exists(x: int)
    requires
        0 <= x,
    ensures
        is_sqrt_floor(sqrt_floor(x), x),
    decreases x,
{
    if x == 0 {
        assert(is_sqrt_floor(0, 0));
    } else {
        lemma_sqrt_exists(x - 1);
        let p = sqrt_floor(x - 1);
        if (p + 1) * (p + 1) <= x {
            assert(x - 1 < (p + 1) * (p + 1));
            assert(x == (p + 1) * (p + 1));
            assert((p + 2) * (p + 2) > x) by (nonlinear_arith)
                requires
                    x == (p + 1) * (p + 1),
                    p >= 0,
            ;
            assert(is_sqrt_floor(p + 1, x));
        } else {
            assert(is_sqrt_floor(p, x));
        }
    }
}

/// The integer square root is unique.
proof fn lemma_sqrt_unique(r1: int, r2: int, x: int)
    requires
        is_sqrt_floor(r1, x),
        is_sqrt_floor(r2, x),
    ensures
        r1 == r2,
{
    if r1 < r2 {
        assert(r2 * r2 <= x && x < (r1 + 1) * (r1 + 1) && r1 + 1 <= r2);
        assert(false) by (nonlinear_arith)
            requires
                0 <= r1,
                0 <= r2,
                r1 + 1 <= r2,
                r2 * r2 <= x,
                x < (r1 + 1) * (r1 + 1),
        ;
    }
    if r2 < r1 {
        assert(false) by (nonlinear_arith)
            requires
                0 <= r1,
                0 <= r2,
                r2 + 1 <= r1,
                r1 * r1 <= x,
                x < (r2 + 1) * (r2 + 1),
        ;
    }
}

/// Floor of the square root, by binary search.
pub fn isqrt(x: u128) -> (r: u128)
    ensures
        r as int == sqrt_floor(x as int),
        is_sqrt_floor(r as int, x as int),
{
    let mut lo: u128 = 0;
    let mut hi: u128 = 0x1_0000_0000_0000_0000;
    proof {
        assert((0x1_0000_0000_0000_0000 as int) * (0x1_0000_0000_0000_0000 as int)
            > u128::MAX as int) by (nonlinear_arith);
    }
    while lo + 1 < hi
        invariant
            lo < hi,
            hi <= 0x1_0000_0000_0000_0000,
            (lo as int) * (lo as int) <= x as int,
            (x as int) < (hi as int) * (hi as int),
        decreases hi - lo,
    {
        let mid: u128 = lo + (hi - lo) / 2;
        assert(lo < mid < hi);
        assert(mid * mid <= u128::MAX) by (nonlinear_arith)
            requires
                mid < 0x1_0000_0000_0000_0000,
        ;
        if mid * mid <= x {
            lo = mid;
        } else {
            hi = mid;
        }
    }
    proof {
        assert(is_sqrt_floor(lo as int, x as int));
        lemma_sqrt_exists(x as int);
        lemma_sqrt_unique(lo as int, sqrt_floor(x as int), x as int);
    }
    lo
}

/// The magnitude of a product is bounded by the product of magnitude
/// bounds of its factors.
pub proof fn lemma_mul_abs_bound(a: int, b: int, m: int, n: int)
    requires
        iabs(a) <= m,
        iabs(b) <= n,
    ensures
        iabs(a * b) <= m * n,
{
    assert(-m <= a && a <= m && -n <= b && b <= n);
    assert(-(m * n) <= a * b && a * b <= m * n) by (nonlinear_arith)
        requires
            -m <= a && a <= m,
            -n <= b && b <= n,
    ;
}

/// A truncated quotient is no larger in magnitude than any bound `k` with
/// `|a| <= k * |b|`.
pub proof fn lemma_tdiv_bound(a: int, b: int, k: int)
    requires
        b != 0,
        0 <= k,
        iabs(a) <= k * iabs(b),
    ensures
        iabs(tdiv(a, b)) <= k,
{
    let ua = iabs(a);
    let ub = iabs(b);
    vstd::arithmetic::div_mod::lemma_fundamental_div_mod(ua, ub);
    let q = ua / ub;
    let r = ua % ub;
    assert(ua == ub * q + r);
    if q > k {
        assert(ub * q >= ub * (k + 1)) by (nonlinear_arith)
            requires
                q >= k + 1,
                ub >= 1,
        ;
        assert(ub * (k + 1) > k * ub) by (nonlinear_arith)
            requires
                ub >= 1,
                k >= 0,
        ;
        assert(false);
    }
}

} // verus!
