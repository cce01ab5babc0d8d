//! Exact screen-space geometry: the barycentric-coordinate construction,
//! the point-in-triangle test built on it, and the cross products the
//! lighting model needs.
//!
//! Barycentric weights of a query point with respect to a triangle are
//! rationals; they are kept as three integer numerators over one common
//! denominator, so every downstream computation stays exact.

use vstd::prelude::*;
use crate::fixed::{iabs, tdiv, div_trunc, lemma_mul_abs_bound, lemma_tdiv_bound, MAX_COORD};

verus! {

/// Largest magnitude a screen coordinate may take after projection;
/// projected coordinates are saturated to this range so that the
/// barycentric products below stay inside `i64`.
pub const SCREEN_LIMIT: i64 = 536_870_912;

/// `2 * (2 * SCREEN_LIMIT) * (2 * SCREEN_LIMIT)`: bound on one
/// cross-product component of screen-space differences.
pub const BARY_COMPONENT_BOUND: i64 = 2_305_843_009_213_693_952;

/// A three-component fixed-point vector (a model-space position,
/// texture coordinate or direction).
#[derive(Clone, Copy, Debug, PartialEq, Eq, Structural)]
pub struct Vec3 {
    pub x: i64,
    pub y: i64,
    pub z: i64,
}

impl Vec3 {
    /// All components within the coordinate range the pipeline supports.
    pub open spec fn in_range(self) -> bool {
        &&& iabs(self.x as int) <= MAX_COORD
        &&& iabs(self.y as int) <= MAX_COORD
        &&& iabs(self.z as int) <= MAX_COORD
    }
}

/// First component of the barycentric cross product `u`, for triangle
/// corners `a`, `b`, `c` and query point `p`.
pub open spec fn bary_ux(ax: int, ay: int, bx: int, by: int, cx: int, cy: int, px: int, py: int) -> int {
    (px - ax) * (by - ay) - (py - ay) * (bx - ax)
}

/// Second component of the barycentric cross product `u`.
pub open spec fn bary_uy(ax: int, ay: int, bx: int, by: int, cx: int, cy: int, px: int, py: int) -> int {
    (cx - ax) * (py - ay) - (cy - ay) * (px - ax)
}

/// Third component of the barycentric cross product `u`: twice the signed
/// area of the triangle.  The triangle is degenerate exactly when this is
/// zero.
pub open spec fn bary_uz(ax: int, ay: int, bx: int, by: int, cx: int, cy: int, px: int, py: int) -> int {
    (cx - ax) * (by - ay) - (cy - ay) * (bx - ax)
}

/// The barycentric weights of `p` with respect to triangle `a b c`, as
/// `(numerator for a, numerator for b, numerator for c, denominator)`.
/// A degenerate triangle yields the sentinel `(0, 0, -1, 1)`, whose
/// negative component marks every point as outside.
pub open spec fn bary_nums(ax: int, ay: int, bx: int, by: int, cx: int, cy: int, px: int, py: int) -> (int, int, int, int) {
    let ux = bary_ux(ax, ay, bx, by, cx, cy, px, py);
    let uy = bary_uy(ax, ay, bx, by, cx, cy, px, py);
    let uz = bary_uz(ax, ay, bx, by, cx, cy, px, py);
    if uz == 0 {
        (0, 0, -1, 1)
    } else {
        (uz - ux - uy, uy, ux, uz)
    }
}

/// `p` lies inside triangle `a b c` or on its boundary: all three
/// barycentric weights are nonnegative (a weight `n / d` is nonnegative
/// exactly when `n * d >= 0`).
pub open spec fn in_tri(ax: int, ay: int, bx: int, by: int, cx: int, cy: int, px: int, py: int) -> bool {
    let (an, bn, cn, d) = bary_nums(ax, ay, bx, by, cx, cy, px, py);
    an * d >= 0 && bn * d >= 0 && cn * d >= 0
}

/// Barycentric weights of one query point: three numerators over a common
/// denominator.  `den` is nonzero; a degenerate triangle is represented by
/// the sentinel weights `(0, 0, -1)` over denominator `1`.
#[derive(Clone, Copy, Debug, PartialEq, Eq, Structural)]
pub struct Barycentric {
    /// Numerator of the weight of the first corner.
    pub a_num: i64,
    /// Numerator of the weight of the second corner.
    pub b_num: i64,
    /// Numerator of the weight of the third corner.
    pub c_num: i64,
    /// Common denominator of the three weights.
    pub den: i64,
}

impl Barycentric {
    /// The fields are exactly the weights of `point` with respect to
    /// the triangle `v1 v2 v3`.
    pub open spec fn is_for(self, v1: (i64, i64), v2: (i64, i64), v3: (i64, i64), point: (i64, i64)) -> bool {
        bary_nums(
            v1.0 as int, v1.1 as int,
            v2.0 as int, v2.1 as int,
            v3.0 as int, v3.1 as int,
            point.0 as int, point.1 as int,
        ) == (self.a_num as int, self.b_num as int, self.c_num as int, self.den as int)
    }

    /// Magnitude bounds that hold for weights of screen-range points,
    /// loose enough for every interpolation the rasterizer performs.
    pub open spec fn bounded(self) -> bool {
        &&& iabs(self.a_num as int) <= 3 * BARY_COMPONENT_BOUND
        &&& iabs(self.b_num as int) <= BARY_COMPONENT_BOUND
        &&& iabs(self.c_num as int) <= BARY_COMPONENT_BOUND
        &&& iabs(self.den as int) <= BARY_COMPONENT_BOUND
        &&& self.den != 0
    }
}

/// A point within the screen-coordinate range.
pub open spec fn pt_in_screen_range(p: (i64, i64)) -> bool {
    &&& iabs(p.0 as int) <= SCREEN_LIMIT
    &&& iabs(p.1 as int) <= SCREEN_LIMIT
}

/// Computes the barycentric weights of `point` with respect to the
/// triangle `v1 v2 v3`, as exact rationals.
pub fn cartesian_to_barycentric(v1: (i64, i64), v2: (i64, i64), v3: (i64, i64), point: (i64, i64)) -> (r: Barycentric)
    requires
        pt_in_screen_range(v1),
        pt_in_screen_range(v2),
        pt_in_screen_range(v3),
        pt_in_screen_range(point),
    ensures
        r.is_for(v1, v2, v3, point),
        r.bounded(),
{
    let (ax, ay) = v1;
    let (bx, by) = v2;
    let (cx, cy) = v3;
    let (px, py) = point;
    proof {
        lemma_mul_abs_bound((px - ax) as int, (by - ay) as int, 2 * SCREEN_LIMIT as int, 2 * SCREEN_LIMIT as int);
        lemma_mul_abs_bound((py - ay) as int, (bx - ax) as int, 2 * SCREEN_LIMIT as int, 2 * SCREEN_LIMIT as int);
        lemma_mul_abs_bound((cx - ax) as int, (py - ay) as int, 2 * SCREEN_LIMIT as int, 2 * SCREEN_LIMIT as int);
        lemma_mul_abs_bound((cy - ay) as int, (px - ax) as int, 2 * SCREEN_LIMIT as int, 2 * SCREEN_LIMIT as int);
        lemma_mul_abs_bound((cx - ax) as int, (by - ay) as int, 2 * SCREEN_LIMIT as int, 2 * SCREEN_LIMIT as int);
        lemma_mul_abs_bound((cy - ay) as int, (bx - ax) as int, 2 * SCREEN_LIMIT as int, 2 * SCREEN_LIMIT as int);
        assert(2 * (2 * SCREEN_LIMIT as int * (2 * SCREEN_LIMIT as int)) == BARY_COMPONENT_BOUND as int)
            by (nonlinear_arith);
    }
    let ux: i64 = (px - ax) * (by - ay) - (py - ay) * (bx - ax);
    let uy: i64 = (cx - ax) * (py - ay) - (cy - ay) * (px - ax);
    let uz: i64 = (cx - ax) * (by - ay) - (cy - ay) * (bx - ax);
    if uz == 0 {
        Barycentric { a_num: 0, b_num: 0, c_num: -1, den: 1 }
    } else {
        Barycentric { a_num: uz - ux - uy, b_num: uy, c_num: ux, den: uz }
    }
}

/// A point is inside the triangle (or on its boundary) when none of its
/// barycentric weights is negative; a degenerate triangle contains no
/// point at all.
pub fn is_point_in_triangle(v1: (i64, i64), v2: (i64, i64), v3: (i64, i64), point: (i64, i64)) -> (r: bool)
    requires
        pt_in_screen_range(v1),
        pt_in_screen_range(v2),
        pt_in_screen_range(v3),
        pt_in_screen_range(point),
    ensures
        r == in_tri(
            v1.0 as int, v1.1 as int,
            v2.0 as int, v2.1 as int,
            v3.0 as int, v3.1 as int,
            point.0 as int, point.1 as int,
        ),
{
    let bary = cartesian_to_barycentric(v1, v2, v3, point);
    let d: i128 = bary.den as i128;
    proof {
        lemma_mul_abs_bound(bary.a_num as int, bary.den as int, 3 * BARY_COMPONENT_BOUND as int, BARY_COMPONENT_BOUND as int);
        lemma_mul_abs_bound(bary.b_num as int, bary.den as int, BARY_COMPONENT_BOUND as int, BARY_COMPONENT_BOUND as int);
        lemma_mul_abs_bound(bary.c_num as int, bary.den as int, BARY_COMPONENT_BOUND as int, BARY_COMPONENT_BOUND as int);
    }
    (bary.a_num as i128) * d >= 0 && (bary.b_num as i128) * d >= 0 && (bary.c_num as i128) * d >= 0
}

/// Interpolates a fixed-point attribute over a triangle: the weighted sum
/// of the three corner values, truncated toward zero.  Requires weights
/// that are nonnegative and sum to one (as the rasterizer has for points
/// inside the triangle), so the result stays within the corner range.
pub fn interpolate(bary: &Barycentric, f1: i64, f2: i64, f3: i64) -> (r: i64)
    requires
        bary.bounded(),
        bary.a_num * bary.den >= 0,
        bary.b_num * bary.den >= 0,
        bary.c_num * bary.den >= 0,
        bary.a_num + bary.b_num + bary.c_num == bary.den,
        iabs(f1 as int) <= MAX_COORD,
        iabs(f2 as int) <= MAX_COORD,
        iabs(f3 as int) <= MAX_COORD,
    ensures
        r == tdiv(bary.a_num * f1 + bary.b_num * f2 + bary.c_num * f3, bary.den as int),
        iabs(r as int) <= MAX_COORD,
{
    let an: i128 = bary.a_num as i128;
    let bn: i128 = bary.b_num as i128;
    let cn: i128 = bary.c_num as i128;
    proof {
        lemma_mul_abs_bound(bary.a_num as int, f1 as int, 3 * BARY_COMPONENT_BOUND as int, MAX_COORD as int);
        lemma_mul_abs_bound(bary.b_num as int, f2 as int, BARY_COMPONENT_BOUND as int, MAX_COORD as int);
        lemma_mul_abs_bound(bary.c_num as int, f3 as int, BARY_COMPONENT_BOUND as int, MAX_COORD as int);
    }
    let sum: i128 = an * (f1 as i128) + bn * (f2 as i128) + cn * (f3 as i128);
    proof {
        lemma_weight_numerators_within_den(bary.a_num as int, bary.b_num as int, bary.c_num as int, bary.den as int);
        lemma_mul_abs_bound(bary.a_num as int, f1 as int, iabs(bary.den as int), MAX_COORD as int);
        lemma_mul_abs_bound(bary.b_num as int, f2 as int, iabs(bary.den as int), MAX_COORD as int);
        lemma_mul_abs_bound(bary.c_num as int, f3 as int, iabs(bary.den as int), MAX_COORD as int);
        assert(iabs(sum as int) <= 3 * (iabs(bary.den as int) * MAX_COORD as int));
        assert(3 * (iabs(bary.den as int) * MAX_COORD as int) == 3 * (MAX_COORD as int) * iabs(bary.den as int))
            by (nonlinear_arith);
        lemma_tdiv_bound(sum as int, bary.den as int, 3 * MAX_COORD as int);
    }
    let q: i128 = div_trunc(sum, bary.den as i128);
    proof {
        lemma_interpolation_within_range(
            bary.a_num as int, bary.b_num as int, bary.c_num as int, bary.den as int,
            f1 as int, f2 as int, f3 as int,
        );
    }
    q as i64
}

/// Weights that are nonnegative and sum to one have each numerator no
/// larger in magnitude than the denominator.
proof fn lemma_weight_numerators_within_den(an: int, bn: int, cn: int, d: int)
    requires
        d != 0,
        an * d >= 0,
        bn * d >= 0,
        cn * d >= 0,
        an + bn + cn == d,
    ensures
        iabs(an) <= iabs(d),
        iabs(bn) <= iabs(d),
        iabs(cn) <= iabs(d),
        iabs(an) + iabs(bn) + iabs(cn) == iabs(d),
{
    if d > 0 {
        assert(an >= 0 && bn >= 0 && cn >= 0) by (nonlinear_arith)
            requires
                d > 0,
                an * d >= 0,
                bn * d >= 0,
                cn * d >= 0,
        ;
    } else {
        assert(an <= 0 && bn <= 0 && cn <= 0) by (nonlinear_arith)
            requires
                d < 0,
                an * d >= 0,
                bn * d >= 0,
                cn * d >= 0,
        ;
    }
}

/// A weighted average with weights in `[0, 1]` stays between the extreme
/// corner values, hence within the coordinate range.
proof fn lemma_interpolation_within_range(an: int, bn: int, cn: int, d: int, f1: int, f2: int, f3: int)
    requires
        d != 0,
        an * d >= 0,
        bn * d >= 0,
        cn * d >= 0,
        an + bn + cn == d,
        iabs(f1) <= MAX_COORD,
        iabs(f2) <= MAX_COORD,
        iabs(f3) <= MAX_COORD,
    ensures
        iabs(tdiv(an * f1 + bn * f2 + cn * f3, d)) <= MAX_COORD,
{
    lemma_weight_numerators_within_den(an, bn, cn, d);
    lemma_mul_abs_bound(an, f1, iabs(an), MAX_COORD as int);
    lemma_mul_abs_bound(bn, f2, iabs(bn), MAX_COORD as int);
    lemma_mul_abs_bound(cn, f3, iabs(cn), MAX_COORD as int);
    assert(iabs(an) + iabs(bn) + iabs(cn) == iabs(d));
    assert(iabs(an) * MAX_COORD as int + iabs(bn) * MAX_COORD as int + iabs(cn) * MAX_COORD as int
        == iabs(d) * MAX_COORD as int) by (nonlinear_arith)
        requires
            iabs(an) + iabs(bn) + iabs(cn) == iabs(d),
    ;
    assert(iabs(an * f1 + bn * f2 + cn * f3) <= iabs(d) * MAX_COORD as int);
    assert(iabs(d) * MAX_COORD as int == MAX_COORD as int * iabs(d)) by (nonlinear_arith);
    lemma_tdiv_bound(an * f1 + bn * f2 + cn * f3, d, MAX_COORD as int);
}

/// The barycentric weights of any point with respect to a non-degenerate
/// triangle sum to exactly one: their numerators sum to the common
/// denominator.
pub proof fn lemma_weights_sum_to_one(ax: int, ay: int, bx: int, by: int, cx: int, cy: int, px: int, py: int)
    requires
        bary_uz(ax, ay, bx, by, cx, cy, px, py) != 0,
    ensures
        ({
            let (an, bn, cn, d) = bary_nums(ax, ay, bx, by, cx, cy, px, py);
            an + bn + cn == d
        }),
{
}

/// The point-in-triangle test agrees with the affine-combination meaning
/// of containment: for a non-degenerate triangle, all barycentric weights
/// are nonnegative exactly when the point is a convex combination of the
/// three corners (scaled by a positive integer `k` to stay within the
/// integers).
pub proof fn lemma_inside_iff_affine_combination(ax: int, ay: int, bx: int, by: int, cx: int, cy: int, px: int, py: int)
    requires
        bary_uz(ax, ay, bx, by, cx, cy, px, py) != 0,
    ensures
        in_tri(ax, ay, bx, by, cx, cy, px, py) <==> exists|w: (int, int, int, int)|
            {
                &&& #[trigger] affine_witness(w, ax, ay, bx, by, cx, cy, px, py)
            },
{
    let ux = bary_ux(ax, ay, bx, by, cx, cy, px, py);
    let uy = bary_uy(ax, ay, bx, by, cx, cy, px, py);
    let uz = bary_uz(ax, ay, bx, by, cx, cy, px, py);
    let an = uz - ux - uy;
    lemma_bary_identity(ax, ay, bx, by, cx, cy, px, py);
    if in_tri(ax, ay, bx, by, cx, cy, px, py) {
        if uz > 0 {
            let w = (an, uy, ux, uz);
            assert(affine_witness(w, ax, ay, bx, by, cx, cy, px, py)) by {
                assert(an >= 0 && uy >= 0 && ux >= 0) by (nonlinear_arith)
                    requires
                        uz > 0,
                        an * uz >= 0,
                        uy * uz >= 0,
                        ux * uz >= 0,
                ;
            }
        } else {
            let w = ((-an), (-uy), (-ux), (-uz));
            assert(affine_witness(w, ax, ay, bx, by, cx, cy, px, py)) by {
                assert(an <= 0 && uy <= 0 && ux <= 0) by (nonlinear_arith)
                    requires
                        uz < 0,
                        an * uz >= 0,
                        uy * uz >= 0,
                        ux * uz >= 0,
                ;
                assert((-uz) * px == -(uz * px)) by (nonlinear_arith);
                assert((-uz) * py == -(uz * py)) by (nonlinear_arith);
                assert((-an) * ax == -(an * ax)) by (nonlinear_arith);
                assert((-uy) * bx == -(uy * bx)) by (nonlinear_arith);
                assert((-ux) * cx == -(ux * cx)) by (nonlinear_arith);
                assert((-an) * ay == -(an * ay)) by (nonlinear_arith);
                assert((-uy) * by == -(uy * by)) by (nonlinear_arith);
                assert((-ux) * cy == -(ux * cy)) by (nonlinear_arith);
            }
        }
    }
    if exists|w: (int, int, int, int)| #[trigger] affine_witness(w, ax, ay, bx, by, cx, cy, px, py) {
        let w = choose|w: (int, int, int, int)| #[trigger] affine_witness(w, ax, ay, bx, by, cx, cy, px, py);
        lemma_affine_witness_inside(w, ax, ay, bx, by, cx, cy, px, py);
    }
}

/// `w = (wa, wb, wc, k)` exhibits `p` as a convex combination of the
/// corners: nonnegative weights summing to `k > 0` with
/// `k * p == wa * a + wb * b + wc * c` componentwise.
pub open spec fn affine_witness(w: (int, int, int, int), ax: int, ay: int, bx: int, by: int, cx: int, cy: int, px: int, py: int) -> bool {
    let (wa, wb, wc, k) = w;
    &&& 0 < k
    &&& 0 <= wa
    &&& 0 <= wb
    &&& 0 <= wc
    &&& wa + wb + wc == k
    &&& k * px == wa * ax + wb * bx + wc * cx
    &&& k * py == wa * ay + wb * by + wc * cy
}

/// The defining identity of the barycentric numerators: scaled by the
/// denominator, the query point is the combination of the corners with
/// those numerators as weights.
proof fn lemma_bary_identity(ax: int, ay: int, bx: int, by: int, cx: int, cy: int, px: int, py: int)
    ensures
        ({
            let ux = bary_ux(ax, ay, bx, by, cx, cy, px, py);
            let uy = bary_uy(ax, ay, bx, by, cx, cy, px, py);
            let uz = bary_uz(ax, ay, bx, by, cx, cy, px, py);
            &&& uz * px == (uz - ux - uy) * ax + uy * bx + ux * cx
            &&& uz * py == (uz - ux - uy) * ay + uy * by + ux * cy
        }),
{
    let b1 = bx - ax;
    let b2 = by - ay;
    let c1 = cx - ax;
    let c2 = cy - ay;
    let p1 = px - ax;
    let p2 = py - ay;
    let ux = bary_ux(ax, ay, bx, by, cx, cy, px, py);
    let uy = bary_uy(ax, ay, bx, by, cx, cy, px, py);
    let uz = bary_uz(ax, ay, bx, by, cx, cy, px, py);
    assert(ux == p1 * b2 - p2 * b1);
    assert(uy == c1 * p2 - c2 * p1);
    assert(uz == c1 * b2 - c2 * b1);
    assert((c1 * p2 - c2 * p1) * b1 + (p1 * b2 - p2 * b1) * c1 == p1 * (c1 * b2 - c2 * b1))
        by (nonlinear_arith);
    assert((c1 * p2 - c2 * p1) * b2 + (p1 * b2 - p2 * b1) * c2 == p2 * (c1 * b2 - c2 * b1))
        by (nonlinear_arith);
    assert(uy * b1 + ux * c1 == p1 * uz);
    assert(uy * b2 + ux * c2 == p2 * uz);
    assert((uz - ux - uy) * ax == uz * ax - ux * ax - uy * ax) by (nonlinear_arith);
    assert(uy * bx == uy * b1 + uy * ax) by (nonlinear_arith)
        requires
            bx == b1 + ax,
    ;
    assert(ux * cx == ux * c1 + ux * ax) by (nonlinear_arith)
        requires
            cx == c1 + ax,
    ;
    assert(uz * px == uz * p1 + uz * ax) by (nonlinear_arith)
        requires
            px == p1 + ax,
    ;
    assert(p1 * uz == uz * p1) by (nonlinear_arith);
    assert(uz * px == (uz - ux - uy) * ax + uy * bx + ux * cx);
    assert((uz - ux - uy) * ay == uz * ay - ux * ay - uy * ay) by (nonlinear_arith);
    assert(uy * by == uy * b2 + uy * ay) by (nonlinear_arith)
        requires
            by == b2 + ay,
    ;
    assert(ux * cy == ux * c2 + ux * ay) by (nonlinear_arith)
        requires
            cy == c2 + ay,
    ;
    assert(uz * py == uz * p2 + uz * ay) by (nonlinear_arith)
        requires
            py == p2 + ay,
    ;
    assert(p2 * uz == uz * p2) by (nonlinear_arith);
    assert(uz * py == (uz - ux - uy) * ay + uy * by + ux * cy);
}

/// Any convex-combination witness forces every barycentric weight to be
/// nonnegative: barycentric coordinates of a non-degenerate triangle are
/// unique up to scaling.
proof fn lemma_affine_witness_inside(w: (int, int, int, int), ax: int, ay: int, bx: int, by: int, cx: int, cy: int, px: int, py: int)
    requires
        bary_uz(ax, ay, bx, by, cx, cy, px, py) != 0,
        affine_witness(w, ax, ay, bx, by, cx, cy, px, py),
    ensures
        in_tri(ax, ay, bx, by, cx, cy, px, py),
{
    let (wa, wb, wc, k) = w;
    let b1 = bx - ax;
    let b2 = by - ay;
    let c1 = cx - ax;
    let c2 = cy - ay;
    let p1 = px - ax;
    let p2 = py - ay;
    let ux = bary_ux(ax, ay, bx, by, cx, cy, px, py);
    let uy = bary_uy(ax, ay, bx, by, cx, cy, px, py);
    let uz = bary_uz(ax, ay, bx, by, cx, cy, px, py);
    assert(ux == p1 * b2 - p2 * b1);
    assert(uy == c1 * p2 - c2 * p1);
    assert(uz == c1 * b2 - c2 * b1);
    assert(k * p1 == k * px - k * ax) by (nonlinear_arith)
        requires
            p1 == px - ax,
    ;
    assert(k * ax == wa * ax + wb * ax + wc * ax) by (nonlinear_arith)
        requires
            wa + wb + wc == k,
    ;
    assert(wb * bx == wb * b1 + wb * ax) by (nonlinear_arith)
        requires
            bx == b1 + ax,
    ;
    assert(wc * cx == wc * c1 + wc * ax) by (nonlinear_arith)
        requires
            cx == c1 + ax,
    ;
    assert(k * p1 == wb * b1 + wc * c1);
    assert(k * p2 == k * py - k * ay) by (nonlinear_arith)
        requires
            p2 == py - ay,
    ;
    assert(k * ay == wa * ay + wb * ay + wc * ay) by (nonlinear_arith)
        requires
            wa + wb + wc == k,
    ;
    assert(wb * by == wb * b2 + wb * ay) by (nonlinear_arith)
        requires
            by == b2 + ay,
    ;
    assert(wc * cy == wc * c2 + wc * ay) by (nonlinear_arith)
        requires
            cy == c2 + ay,
    ;
    assert(k * p2 == wb * b2 + wc * c2);
    assert(k * ux == (k * p1) * b2 - (k * p2) * b1) by (nonlinear_arith)
        requires
            ux == p1 * b2 - p2 * b1,
    ;
    assert((wb * b1 + wc * c1) * b2 - (wb * b2 + wc * c2) * b1 == wc * (c1 * b2 - c2 * b1))
        by (nonlinear_arith);
    assert(k * ux == wc * uz);
    assert(k * uy == c1 * (k * p2) - c2 * (k * p1)) by (nonlinear_arith)
        requires
            uy == c1 * p2 - c2 * p1,
    ;
    assert(c1 * (wb * b2 + wc * c2) - c2 * (wb * b1 + wc * c1) == wb * (c1 * b2 - c2 * b1))
        by (nonlinear_arith);
    assert(k * uy == wb * uz);
    assert(ux * uz >= 0 && uy * uz >= 0) by (nonlinear_arith)
        requires
            k > 0,
            wb >= 0,
            wc >= 0,
            k * ux == wc * uz,
            k * uy == wb * uz,
    ;
    assert((uz - ux - uy) * uz >= 0) by (nonlinear_arith)
        requires
            k > 0,
            wa >= 0,
            wa + wb + wc == k,
            k * ux == wc * uz,
            k * uy == wb * uz,
    ;
}

/// First component of the cross product of the edge vectors
/// `(vc - va)` and `(vb - va)` of a model-space face.
pub open spec fn edge_cross_x(va: Vec3, vb: Vec3, vc: Vec3) -> int {
    (vc.y - va.y) * (vb.z - va.z) - (vc.z - va.z) * (vb.y - va.y)
}

/// Second component of the face edge cross product.
pub open spec fn edge_cross_y(va: Vec3, vb: Vec3, vc: Vec3) -> int {
    (vc.z - va.z) * (vb.x - va.x) - (vc.x - va.x) * (vb.z - va.z)
}

/// Third component of the face edge cross product.
pub open spec fn edge_cross_z(va: Vec3, vb: Vec3, vc: Vec3) -> int {
    (vc.x - va.x) * (vb.y - va.y) - (vc.y - va.y) * (vb.x - va.x)
}

/// Cross product of the edge vectors `(vc - va)` and `(vb - va)`: the
/// (deliberately backward-facing) normal direction of the face, whose
/// orientation the lighting model depends on.
pub fn face_edge_cross(va: Vec3, vb: Vec3, vc: Vec3) -> (r: (i128, i128, i128))
    requires
        va.in_range(),
        vb.in_range(),
        vc.in_range(),
    ensures
        r.0 == edge_cross_x(va, vb, vc),
        r.1 == edge_cross_y(va, vb, vc),
        r.2 == edge_cross_z(va, vb, vc),
        iabs(r.0 as int) <= 8_000_000_000_000_000_000,
        iabs(r.1 as int) <= 8_000_000_000_000_000_000,
        iabs(r.2 as int) <= 8_000_000_000_000_000_000,
{
    let e1x: i128 = (vc.x as i128) - (va.x as i128);
    let e1y: i128 = (vc.y as i128) - (va.y as i128);
    let e1z: i128 = (vc.z as i128) - (va.z as i128);
    let e2x: i128 = (vb.x as i128) - (va.x as i128);
    let e2y: i128 = (vb.y as i128) - (va.y as i128);
    let e2z: i128 = (vb.z as i128) - (va.z as i128);
    proof {
        lemma_mul_abs_bound(e1y as int, e2z as int, 2 * MAX_COORD as int, 2 * MAX_COORD as int);
        lemma_mul_abs_bound(e1z as int, e2y as int, 2 * MAX_COORD as int, 2 * MAX_COORD as int);
        lemma_mul_abs_bound(e1z as int, e2x as int, 2 * MAX_COORD as int, 2 * MAX_COORD as int);
        lemma_mul_abs_bound(e1x as int, e2z as int, 2 * MAX_COORD as int, 2 * MAX_COORD as int);
        lemma_mul_abs_bound(e1x as int, e2y as int, 2 * MAX_COORD as int, 2 * MAX_COORD as int);
        lemma_mul_abs_bound(e1y as int, e2x as int, 2 * MAX_COORD as int, 2 * MAX_COORD as int);
    }
    let rx: i128 = e1y * e2z - e1z * e2y;
    let ry: i128 = e1z * e2x - e1x * e2z;
    let rz: i128 = e1x * e2y - e1y * e2x;
    (rx, ry, rz)
}

} // verus!
