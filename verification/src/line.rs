//! The integer line rasterizer: walks the longer axis one pixel at a
//! time, carrying an accumulated error term that decides when to step
//! along the shorter axis.
//!
//! The exact pixel set of a segment is `line_hits`; the drawing routine
//! paints precisely that set, and the set does not depend on the order in
//! which the two endpoints are given.

use vstd::prelude::*;
use crate::buffer::{Image, Rgb};
use crate::fixed::iabs;

verus! {

/// Direction of the short-axis step: up for a rising segment, down
/// otherwise.
pub open spec fn sgn_step(d: int) -> int {
    if d > 0 {
        1
    } else {
        -1
    }
}

/// State of the error accumulator after `k` steps along the long axis:
/// `(short-axis steps taken, error term)`.  Each long-axis step adds
/// `2 * ady` to the error; when the error exceeds `dx` a short-axis step
/// is taken and the error drops by `2 * dx`.
pub open spec fn bres_steps(dx: int, ady: int, k: nat) -> (int, int)
    decreases k,
{
    if k == 0 {
        (0, 0)
    } else {
        let prev = bres_steps(dx, ady, (k - 1) as nat);
        let e2 = prev.1 + 2 * ady;
        if e2 > dx {
            (prev.0 + 1, e2 - 2 * dx)
        } else {
            (prev.0, e2)
        }
    }
}

/// Short-axis coordinate of the pixel painted at the `k`-th long-axis
/// step of a segment from `y1` toward `y2` over long-axis span `dx`.
pub open spec fn walk_y(y1: int, y2: int, dx: int, k: nat) -> int {
    y1 + sgn_step(y2 - y1) * bres_steps(dx, iabs(y2 - y1), k).0
}

/// Pixel `(qx, qy)` is painted by the first-octant walk from `(x1, y1)`
/// to `(x2, y2)` (which requires `x1 <= x2` and a slope of at most one).
pub open spec fn octant_hits(x1: int, y1: int, x2: int, y2: int, qx: int, qy: int) -> bool {
    x1 <= qx <= x2 && qy == walk_y(y1, y2, x2 - x1, (qx - x1) as nat)
}

/// Pixel `(qx, qy)` lies on the rasterized segment from `start` to `end`:
/// steep segments walk the y axis (painting with the roles of the axes
/// swapped back), and the walk always runs from the endpoint with the
/// smaller long-axis coordinate.
pub open spec fn line_hits(start: (i64, i64), end: (i64, i64), qx: int, qy: int) -> bool {
    let x1 = start.0 as int;
    let y1 = start.1 as int;
    let x2 = end.0 as int;
    let y2 = end.1 as int;
    if iabs(x1 - x2) < iabs(y1 - y2) {
        if y1 > y2 {
            octant_hits(y2, x2, y1, x1, qy, qx)
        } else {
            octant_hits(y1, x1, y2, x2, qy, qx)
        }
    } else {
        if x1 > x2 {
            octant_hits(x2, y2, x1, y1, qx, qy)
        } else {
            octant_hits(x1, y1, x2, y2, qx, qy)
        }
    }
}

/// The error accumulator stays within `[-dx, dx]`, takes a nonnegative
/// number of short-axis steps, and satisfies the defining relation
/// between steps, error and distance walked.
pub proof fn lemma_bres_invariant(dx: int, ady: int, k: nat)
    requires
        0 <= ady <= dx,
    ensures
        0 <= bres_steps(dx, ady, k).0,
        bres_steps(dx, ady, k).1 == 2 * ady * k - 2 * dx * bres_steps(dx, ady, k).0,
        -dx <= bres_steps(dx, ady, k).1 <= dx,
        k > 0 ==> bres_steps(dx, ady, (k - 1) as nat).0 <= bres_steps(dx, ady, k).0
            <= bres_steps(dx, ady, (k - 1) as nat).0 + 1,
    decreases k,
{
    if k == 0 {
    } else {
        lemma_bres_invariant(dx, ady, (k - 1) as nat);
        let prev = bres_steps(dx, ady, (k - 1) as nat);
        assert(2 * ady * k == 2 * ady * ((k - 1) as nat) + 2 * ady) by (nonlinear_arith)
            requires
                k >= 1,
        ;
        if prev.1 + 2 * ady > dx {
            assert(2 * dx * (prev.0 + 1) == 2 * dx * prev.0 + 2 * dx) by (nonlinear_arith);
        }
    }
}

/// Over a walk of length at most `dx`, at most `ady` short-axis steps are
/// taken, so the walk never leaves the band between the two endpoints.
pub proof fn lemma_bres_step_bound(dx: int, ady: int, k: nat)
    requires
        0 <= ady <= dx,
        k <= dx,
    ensures
        0 <= bres_steps(dx, ady, k).0 <= ady,
{
    lemma_bres_invariant(dx, ady, k);
    let st = bres_steps(dx, ady, k).0;
    let e = bres_steps(dx, ady, k).1;
    if dx == 0 {
        assert(k == 0);
    } else {
        assert(2 * dx * st == 2 * ady * k - e);
        assert(2 * ady * k <= 2 * ady * dx) by (nonlinear_arith)
            requires
                0 <= ady,
                k <= dx,
        ;
        if st > ady {
            assert(2 * dx * st >= 2 * dx * (ady + 1)) by (nonlinear_arith)
                requires
                    dx > 0,
                    st >= ady + 1,
            ;
            assert(2 * dx * (ady + 1) == 2 * ady * dx + 2 * dx) by (nonlinear_arith);
            assert(false);
        }
    }
}

/// The rasterized pixel set of a segment does not depend on which
/// endpoint is given first.
pub proof fn lemma_line_order_independent(start: (i64, i64), end: (i64, i64), qx: int, qy: int)
    ensures
        line_hits(start, end, qx, qy) == line_hits(end, start, qx, qy),
{
    let x1 = start.0 as int;
    let y1 = start.1 as int;
    let x2 = end.0 as int;
    let y2 = end.1 as int;
    assert(iabs(x1 - x2) == iabs(x2 - x1));
    assert(iabs(y1 - y2) == iabs(y2 - y1));
    if iabs(x1 - x2) < iabs(y1 - y2) {
        assert(y1 != y2);
    } else {
        if x1 == x2 {
            assert(iabs(y1 - y2) <= 0);
            assert(y1 == y2);
        }
    }
}

/// On an exactly diagonal walk every long-axis step takes a short-axis
/// step, and the error term never accumulates.
proof fn lemma_bres_diagonal(dx: int, k: nat)
    requires
        1 <= dx,
    ensures
        bres_steps(dx, dx, k) == (k as int, 0int),
    decreases k,
{
    if k > 0 {
        lemma_bres_diagonal(dx, (k - 1) as nat);
    }
}

/// A first-octant walk with slope exactly one is the straight diagonal.
proof fn lemma_octant_diagonal(x1: int, y1: int, x2: int, y2: int, qx: int, qy: int)
    requires
        x1 <= x2,
        iabs(y2 - y1) == x2 - x1,
    ensures
        octant_hits(x1, y1, x2, y2, qx, qy) == (x1 <= qx <= x2 && qy == y1 + sgn_step(y2 - y1)
            * (qx - x1)),
{
    if x1 <= qx <= x2 {
        let k = (qx - x1) as nat;
        if x2 - x1 >= 1 {
            lemma_bres_diagonal(x2 - x1, k);
        } else {
            assert(k == 0);
        }
    }
}

/// The rasterized pixel set is symmetric under reflection across the
/// main diagonal: swapping the two coordinates of both endpoints hits
/// exactly the transposed pixels.
pub proof fn lemma_line_reflect_diagonal(start: (i64, i64), end: (i64, i64), qx: int, qy: int)
    ensures
        line_hits(start, end, qx, qy) == line_hits(
            (start.1, start.0),
            (end.1, end.0),
            qy,
            qx,
        ),
{
    let x1 = start.0 as int;
    let y1 = start.1 as int;
    let x2 = end.0 as int;
    let y2 = end.1 as int;
    if iabs(x1 - x2) == iabs(y1 - y2) {
        if x1 == x2 {
            assert(y1 == y2);
            lemma_octant_diagonal(x1, y1, x2, y2, qx, qy);
            lemma_octant_diagonal(y1, x1, y2, x2, qy, qx);
            assert(sgn_step(0) * (qx - x1) == -(qx - x1)) by (nonlinear_arith);
            assert(sgn_step(0) * (qy - y1) == -(qy - y1)) by (nonlinear_arith);
        } else if x1 < x2 {
            assert(iabs(y2 - y1) == x2 - x1);
            lemma_octant_diagonal(x1, y1, x2, y2, qx, qy);
            if y1 < y2 {
                lemma_octant_diagonal(y1, x1, y2, x2, qy, qx);
                assert(sgn_step(y2 - y1) == 1 && sgn_step(x2 - x1) == 1);
                assert(1 * (qx - x1) == qx - x1) by (nonlinear_arith);
                assert(1 * (qy - y1) == qy - y1) by (nonlinear_arith);
            } else {
                assert(y1 - y2 == x2 - x1);
                lemma_octant_diagonal(y2, x2, y1, x1, qy, qx);
                assert(sgn_step(y2 - y1) == -1 && sgn_step(x1 - x2) == -1);
                assert((-1) * (qx - x1) == -(qx - x1)) by (nonlinear_arith);
                assert((-1) * (qy - y2) == -(qy - y2)) by (nonlinear_arith);
            }
        } else {
            assert(iabs(y1 - y2) == x1 - x2);
            lemma_octant_diagonal(x2, y2, x1, y1, qx, qy);
            if y1 < y2 {
                assert(y2 - y1 == x1 - x2);
                lemma_octant_diagonal(y1, x1, y2, x2, qy, qx);
                assert(sgn_step(y1 - y2) == -1 && sgn_step(x2 - x1) == -1);
                assert((-1) * (qx - x2) == -(qx - x2)) by (nonlinear_arith);
                assert((-1) * (qy - y1) == -(qy - y1)) by (nonlinear_arith);
            } else {
                assert(y1 - y2 == x1 - x2);
                lemma_octant_diagonal(y2, x2, y1, x1, qy, qx);
                assert(sgn_step(y1 - y2) == 1 && sgn_step(x1 - x2) == 1);
                assert(1 * (qx - x2) == qx - x2) by (nonlinear_arith);
                assert(1 * (qy - y2) == qy - y2) by (nonlinear_arith);
            }
        }
    }
}

/// Draws the segment from `start` to `end` in `color`: afterwards the
/// pixels of `line_hits` hold `color` and every other pixel is unchanged.
pub fn line(start: (i64, i64), end: (i64, i64), image: &mut Image, color: Rgb)
    requires
        old(image).wf(),
        old(image).in_bounds(start.0 as int, start.1 as int),
        old(image).in_bounds(end.0 as int, end.1 as int),
    ensures
        final(image).wf(),
        final(image).spec_width() == old(image).spec_width(),
        final(image).spec_height() == old(image).spec_height(),
        forall|qx: int, qy: int|
            final(image).in_bounds(qx, qy)
                ==> #[trigger] final(image).pix(qx, qy) == if line_hits(start, end, qx, qy) {
                    color
                } else {
                    old(image).pix(qx, qy)
                },
{
    let (sx, sy) = start;
    let (ex, ey) = end;
    let adx: i64 = if sx >= ex {
        sx - ex
    } else {
        ex - sx
    };
    let ady0: i64 = if sy >= ey {
        sy - ey
    } else {
        ey - sy
    };
    let steep: bool = adx < ady0;
    let (x1i, y1i, x2i, y2i) = if steep {
        (sy, sx, ey, ex)
    } else {
        (sx, sy, ex, ey)
    };
    let (x1, y1, x2, y2) = if x1i > x2i {
        (x2i, y2i, x1i, y1i)
    } else {
        (x1i, y1i, x2i, y2i)
    };
    let dx: i64 = x2 - x1;
    let dy: i64 = y2 - y1;
    let ady: i64 = if dy >= 0 {
        dy
    } else {
        -dy
    };
    proof {
        assert(adx as int == iabs(sx as int - ex as int));
        assert(ady0 as int == iabs(sy as int - ey as int));
        assert(ady as int == iabs(y2 as int - y1 as int));
        assert(0 <= ady <= dx);
    }
    let ghost lo_bound: int = if y1 <= y2 { y1 as int } else { y2 as int };
    let ghost hi_bound: int = if y1 <= y2 { y2 as int } else { y1 as int };
    proof {
        assert(bres_steps(dx as int, ady as int, 0) == (0int, 0int));
        assert(sgn_step(y2 as int - y1 as int) * 0 == 0) by (nonlinear_arith);
        assert(walk_y(y1 as int, y2 as int, dx as int, 0) == y1 as int);
    }
    let derror: i64 = ady * 2;
    let mut error: i64 = 0;
    let mut y: i64 = y1;
    let mut x: i64 = x1;
    while x <= x2
        invariant
            image.wf(),
            image.spec_width() == old(image).spec_width(),
            image.spec_height() == old(image).spec_height(),
            x1 <= x <= x2 + 1,
            dx == x2 - x1,
            0 <= ady <= dx,
            ady as int == iabs(y2 as int - y1 as int),
            derror == 2 * ady,
            lo_bound == (if y1 <= y2 { y1 as int } else { y2 as int }),
            hi_bound == (if y1 <= y2 { y2 as int } else { y1 as int }),
            y as int == walk_y(y1 as int, y2 as int, dx as int, (x - x1) as nat),
            error as int == bres_steps(dx as int, ady as int, (x - x1) as nat).1,
            steep ==> 0 <= x1 && x2 < image.spec_height() && 0 <= lo_bound && hi_bound
                < image.spec_width(),
            !steep ==> 0 <= x1 && x2 < image.spec_width() && 0 <= lo_bound && hi_bound
                < image.spec_height(),
            forall|qx: int, qy: int|
                image.in_bounds(qx, qy)
                    ==> #[trigger] image.pix(qx, qy) == if ({
                        if steep {
                            x1 <= qy < x && qx == walk_y(y1 as int, y2 as int, dx as int, (qy - x1) as nat)
                        } else {
                            x1 <= qx < x && qy == walk_y(y1 as int, y2 as int, dx as int, (qx - x1) as nat)
                        }
                    }) {
                        color
                    } else {
                        old(image).pix(qx, qy)
                    },
        decreases x2 + 1 - x,
    {
        let ghost k: nat = (x - x1) as nat;
        proof {
            lemma_bres_invariant(dx as int, ady as int, k);
            lemma_bres_step_bound(dx as int, ady as int, k);
            let st = bres_steps(dx as int, ady as int, k).0;
            assert(0 <= st <= ady);
            if y2 > y1 {
                assert(sgn_step(y2 as int - y1 as int) == 1);
                assert(1 * st == st) by (nonlinear_arith);
                assert(y as int == y1 + st);
            } else {
                assert(sgn_step(y2 as int - y1 as int) == -1);
                assert((-1) * st == -st) by (nonlinear_arith);
                assert(y as int == y1 - st);
            }
            assert(lo_bound <= y <= hi_bound);
        }
        if steep {
            image.put_pixel(y as usize, x as usize, color);
        } else {
            image.put_pixel(x as usize, y as usize, color);
        }
        error = error + derror;
        if error > dx {
            y = y + if y2 > y1 {
                1
            } else {
                -1
            };
            error = error - dx * 2;
        }
        proof {
            let k1: nat = (x + 1 - x1) as nat;
            assert(bres_steps(dx as int, ady as int, k1) == ({
                let prev = bres_steps(dx as int, ady as int, k);
                let e2 = prev.1 + 2 * ady;
                if e2 > dx {
                    (prev.0 + 1, e2 - 2 * (dx as int))
                } else {
                    (prev.0, e2)
                }
            }));
            let st0 = bres_steps(dx as int, ady as int, k).0;
            let st1 = bres_steps(dx as int, ady as int, k1).0;
            if y2 > y1 {
                assert(sgn_step(y2 as int - y1 as int) == 1);
                assert(1 * st0 == st0 && 1 * st1 == st1) by (nonlinear_arith);
            } else if y2 < y1 {
                assert(sgn_step(y2 as int - y1 as int) == -1);
                assert((-1) * st0 == -st0 && (-1) * st1 == -st1) by (nonlinear_arith);
            } else {
                assert(ady == 0);
                assert(st1 == st0);
            }
            assert(y as int == walk_y(y1 as int, y2 as int, dx as int, k1));
        }
        x = x + 1;
    }
    proof {
        assert forall|qx: int, qy: int| image.in_bounds(qx, qy)
            implies #[trigger] image.pix(qx, qy) == if line_hits(start, end, qx, qy) {
                color
            } else {
                old(image).pix(qx, qy)
            } by {
            assert(line_hits(start, end, qx, qy) == ({
                if steep {
                    x1 <= qy <= x2 && qx == walk_y(y1 as int, y2 as int, dx as int, (qy - x1) as nat)
                } else {
                    x1 <= qx <= x2 && qy == walk_y(y1 as int, y2 as int, dx as int, (qx - x1) as nat)
                }
            }));
        }
    }
}

} // verus!
