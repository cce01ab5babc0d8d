//! The rasterizer: projection and viewport transform, flat-intensity
//! triangle fill with a z-buffer depth test and texture sampling, and the
//! one-pass renderer over a mesh store.
//!
//! Every stage is exact fixed-point arithmetic: the screen position of a
//! vertex, the intensity of a face and the color of every written pixel
//! are spec functions of the mesh, and the renderer is proved to produce
//! precisely that image.

use vstd::prelude::*;
use crate::buffer::{DepthBuffer, Image, Rgb, DEPTH_EMPTY, MAX_DIM, lemma_grid_index_bound, lemma_flat_decomp};
use crate::fixed::{
    iabs, tdiv, div_trunc, isqrt, sqrt_floor, is_sqrt_floor,
    lemma_mul_abs_bound, lemma_tdiv_bound, MAX_COORD, SCALE,
};
use crate::geom::{
    Vec3, Barycentric, bary_nums, bary_uz, in_tri, cartesian_to_barycentric,
    is_point_in_triangle, interpolate, pt_in_screen_range,
    edge_cross_x, edge_cross_y, edge_cross_z, face_edge_cross, SCREEN_LIMIT,
};
use crate::model::Model;

verus! {

/// The constants of one render pass: the camera sits `camera_distance`
/// along the z axis looking at the origin, and a single directional light
/// shines along `light_dir` (a unit-length fixed-point vector).
pub struct RenderConfig {
    pub camera_distance: i64,
    pub light_dir: Vec3,
}

impl RenderConfig {
    /// The camera distance is positive and in coordinate range, and the
    /// light direction is bounded (a unit vector always is).
    pub open spec fn wf(self) -> bool {
        &&& 0 < self.camera_distance <= MAX_COORD
        &&& iabs(self.light_dir.x as int) <= 2 * SCALE
        &&& iabs(self.light_dir.y as int) <= 2 * SCALE
        &&& iabs(self.light_dir.z as int) <= 2 * SCALE
    }
}

impl Default for RenderConfig {
    /// A camera three units out and the classic light straight into the
    /// screen.
    fn default() -> (c: RenderConfig)
        ensures
            c.wf(),
            c.camera_distance == 3 * SCALE,
            c.light_dir.x == 0,
            c.light_dir.y == 0,
            c.light_dir.z == -SCALE,
    {
        RenderConfig { camera_distance: 3 * SCALE, light_dir: Vec3 { x: 0, y: 0, z: -SCALE } }
    }
}

/// Clamps a projected coordinate into the wide screen range; coordinates
/// of vertices far outside the view (or behind the camera) saturate, and
/// the bounding-box clamp keeps drawing inside the image.
pub open spec fn sat_screen(v: int) -> int {
    if v < -SCREEN_LIMIT {
        -SCREEN_LIMIT as int
    } else if v > SCREEN_LIMIT {
        SCREEN_LIMIT as int
    } else {
        v
    }
}

/// One axis of the projection and viewport transform: perspective-divide
/// the coordinate by `1 - z/c`, scale by three eighths of the image
/// extent, translate to the image center, and truncate — evaluated as a
/// single exact rational.  A vertex at or behind the camera plane
/// (`z >= c`) has no meaningful projection and saturates.
pub open spec fn project_axis(p: int, z: int, c: int, extent: int) -> int {
    let d = c - z;
    if d <= 0 {
        SCREEN_LIMIT as int
    } else {
        sat_screen(tdiv(6 * extent * p * c + 8 * extent * (SCALE as int) * d,
            16 * (SCALE as int) * d))
    }
}

/// Screen position of a model-space vertex on a `w`-by-`h` image.
pub open spec fn project_pt(v: Vec3, c: int, w: int, h: int) -> (int, int) {
    (project_axis(v.x as int, v.z as int, c, w), project_axis(v.y as int, v.z as int, c, h))
}

/// Projects one vertex to integer screen coordinates.
pub fn project_vertex(v: Vec3, config: &RenderConfig, w: usize, h: usize) -> (r: (i64, i64))
    requires
        v.in_range(),
        config.wf(),
        1 <= w <= MAX_DIM,
        1 <= h <= MAX_DIM,
    ensures
        (r.0 as int, r.1 as int) == project_pt(v, config.camera_distance as int, w as int, h as int),
        pt_in_screen_range(r),
{
    let c: i128 = config.camera_distance as i128;
    let z: i128 = v.z as i128;
    let d: i128 = c - z;
    if d <= 0 {
        (SCREEN_LIMIT, SCREEN_LIMIT)
    } else {
        let x = project_axis_exec(v.x, d, c, w);
        let y = project_axis_exec(v.y, d, c, h);
        (x, y)
    }
}

/// One axis of the projection, on machine integers.
#[verifier::rlimit(60)]
fn project_axis_exec(p: i64, d: i128, c: i128, extent: usize) -> (r: i64)
    requires
        iabs(p as int) <= MAX_COORD,
        0 < c <= MAX_COORD,
        0 < d <= 2 * MAX_COORD,
        1 <= extent <= MAX_DIM,
    ensures
        r == sat_screen(tdiv(6 * extent * p * c + 8 * extent * (SCALE as int) * d,
            16 * (SCALE as int) * d)),
        iabs(r as int) <= SCREEN_LIMIT,
{
    let e: i128 = extent as i128;
    proof {
        assert(iabs(6 * (e as int)) <= 98_304);
        lemma_mul_abs_bound(6 * (e as int), p as int, 98_304, MAX_COORD as int);
        assert(98_304 * (MAX_COORD as int) == 98_304_000_000_000) by (nonlinear_arith);
        lemma_mul_abs_bound(6 * (e as int) * (p as int), c as int, 98_304_000_000_000,
            MAX_COORD as int);
        assert(98_304_000_000_000 * (MAX_COORD as int) == 98_304_000_000_000_000_000_000)
            by (nonlinear_arith);
        assert(iabs(8 * (e as int) * (SCALE as int)) <= 131_072_000_000) by {
            assert(8 * (e as int) * (SCALE as int) == (8 * (e as int)) * (SCALE as int));
            lemma_mul_abs_bound(8 * (e as int), SCALE as int, 131_072, SCALE as int);
            assert(131_072 * (SCALE as int) == 131_072_000_000) by (nonlinear_arith);
        }
        lemma_mul_abs_bound(8 * (e as int) * (SCALE as int), d as int, 131_072_000_000,
            2 * MAX_COORD as int);
        assert(131_072_000_000 * (2 * MAX_COORD as int) == 262_144_000_000_000_000_000)
            by (nonlinear_arith);
    }
    let num: i128 = 6 * e * (p as i128) * c + 8 * e * (SCALE as i128) * d;
    let den: i128 = 16 * (SCALE as i128) * d;
    let q: i128 = div_trunc(num, den);
    let r: i64 = if q > SCREEN_LIMIT as i128 {
        SCREEN_LIMIT
    } else if q < -(SCREEN_LIMIT as i128) {
        -SCREEN_LIMIT
    } else {
        q as i64
    };
    r
}

/// The face normal's alignment with the light: the dot product of the
/// (backward-facing) edge cross product with the light direction.  Its
/// sign is exactly the sign of the real cosine, so it is the culling
/// test.
pub open spec fn face_dot(va: Vec3, vb: Vec3, vc: Vec3, light: Vec3) -> int {
    edge_cross_x(va, vb, vc) * light.x + edge_cross_y(va, vb, vc) * light.y
        + edge_cross_z(va, vb, vc) * light.z
}

/// Fixed-point Lambertian intensity of a face: the dot product divided by
/// the norm of the cross product (the light is unit length), clamped into
/// `[0, SCALE]`.  A face turned away from the light has intensity zero.
pub open spec fn face_intensity(va: Vec3, vb: Vec3, vc: Vec3, light: Vec3) -> int {
    let d = face_dot(va, vb, vc, light);
    if d <= 0 {
        0
    } else {
        let nx = edge_cross_x(va, vb, vc);
        let ny = edge_cross_y(va, vb, vc);
        let nz = edge_cross_z(va, vb, vc);
        let q = tdiv(d, sqrt_floor(nx * nx + ny * ny + nz * nz));
        if q > SCALE {
            SCALE as int
        } else {
            q
        }
    }
}

/// Computes whether a face faces the light and with what intensity.
pub fn face_light(va: Vec3, vb: Vec3, vc: Vec3, light: Vec3) -> (r: (bool, i64))
    requires
        va.in_range(),
        vb.in_range(),
        vc.in_range(),
        iabs(light.x as int) <= 2 * SCALE,
        iabs(light.y as int) <= 2 * SCALE,
        iabs(light.z as int) <= 2 * SCALE,
    ensures
        r.0 == (face_dot(va, vb, vc, light) > 0),
        r.1 == face_intensity(va, vb, vc, light),
        0 <= r.1 <= SCALE,
{
    let (nx, ny, nz) = face_edge_cross(va, vb, vc);
    proof {
        lemma_mul_abs_bound(nx as int, light.x as int, 8_000_000_000_000_000_000,
            2 * SCALE as int);
        lemma_mul_abs_bound(ny as int, light.y as int, 8_000_000_000_000_000_000,
            2 * SCALE as int);
        lemma_mul_abs_bound(nz as int, light.z as int, 8_000_000_000_000_000_000,
            2 * SCALE as int);
    }
    let d: i128 = nx * (light.x as i128) + ny * (light.y as i128) + nz * (light.z as i128);
    if d <= 0 {
        (false, 0)
    } else {
        let ax: u128 = if nx < 0 {
            (-nx) as u128
        } else {
            nx as u128
        };
        let ay: u128 = if ny < 0 {
            (-ny) as u128
        } else {
            ny as u128
        };
        let az: u128 = if nz < 0 {
            (-nz) as u128
        } else {
            nz as u128
        };
        proof {
            assert(ax as int == iabs(nx as int));
            assert(ay as int == iabs(ny as int));
            assert(az as int == iabs(nz as int));
            lemma_mul_abs_bound(nx as int, nx as int, 8_000_000_000_000_000_000,
                8_000_000_000_000_000_000);
            lemma_mul_abs_bound(ny as int, ny as int, 8_000_000_000_000_000_000,
                8_000_000_000_000_000_000);
            lemma_mul_abs_bound(nz as int, nz as int, 8_000_000_000_000_000_000,
                8_000_000_000_000_000_000);
            assert(ax * ax == nx * nx && ay * ay == ny * ny && az * az == nz * nz)
                by (nonlinear_arith)
                requires
                    ax as int == iabs(nx as int),
                    ay as int == iabs(ny as int),
                    az as int == iabs(nz as int),
            ;
        }
        let nsq: u128 = ax * ax + ay * ay + az * az;
        proof {
            if nx == 0 && ny == 0 && nz == 0 {
                assert(d == 0) by (nonlinear_arith)
                    requires
                        d == nx * (light.x as i128) + ny * (light.y as i128) + nz
                            * (light.z as i128),
                        nx == 0,
                        ny == 0,
                        nz == 0,
                ;
            }
            assert(nsq >= 1) by (nonlinear_arith)
                requires
                    nsq == ax * ax + ay * ay + az * az,
                    ax > 0 || ay > 0 || az > 0,
            ;
        }
        let isq: u128 = isqrt(nsq);
        proof {
            assert(is_sqrt_floor(isq as int, nsq as int));
            assert((0int + 1) * (0int + 1) == 1) by (nonlinear_arith);
            if isq == 0 {
                assert(nsq < 1);
            }
        }
        let q: u128 = (d as u128) / isq;
        proof {
            assert(q as int == iabs(d as int) / iabs(isq as int));
            assert(q as int == tdiv(d as int, isq as int));
        }
        let inten: i64 = if q > SCALE as u128 {
            SCALE
        } else {
            q as i64
        };
        (true, inten)
    }
}

/// Horizontal texel column for an interpolated `u` coordinate: scale by
/// the texture width, truncate, and clamp into the texture.
pub open spec fn tex_col(u: int, tw: int) -> int {
    let t = tdiv(u * tw, SCALE as int);
    if t < 0 {
        0
    } else if t > tw - 1 {
        tw - 1
    } else {
        t
    }
}

/// Texel row for an already flipped `v` coordinate: scale by the texture
/// height, truncate, subtract one (an inherited quirk of the sampling
/// formula, kept as specified), and clamp into the texture.
pub open spec fn tex_row(v: int, th: int) -> int {
    let t = tdiv(v * th, SCALE as int) - 1;
    if t < 0 {
        0
    } else if t > th - 1 {
        th - 1
    } else {
        t
    }
}

/// The texture sample for interpolated coordinates `u` and (flipped) `v`.
pub open spec fn sample_tex(tex: Image, u: int, v: int) -> Rgb {
    tex.pix(tex_col(u, tex.spec_width()), tex_row(v, tex.spec_height()))
}

/// Samples the texture at the fixed-point coordinates `(x, y)`, `y`
/// already flipped, clamping to the texture's edge.
pub fn get_texture_color(x: i64, y: i64, texture: &Image) -> (c: Rgb)
    requires
        texture.wf(),
        iabs(x as int) <= 2 * MAX_COORD,
        iabs(y as int) <= 2 * MAX_COORD,
    ensures
        c == sample_tex(*texture, x as int, y as int),
{
    let tw: usize = texture.width();
    let th: usize = texture.height();
    proof {
        lemma_mul_abs_bound(x as int, tw as int, 2 * MAX_COORD as int, MAX_DIM as int);
        lemma_mul_abs_bound(y as int, th as int, 2 * MAX_COORD as int, MAX_DIM as int);
    }
    let tc: i128 = div_trunc((x as i128) * (tw as i128), SCALE as i128);
    let tr: i128 = div_trunc((y as i128) * (th as i128), SCALE as i128) - 1;
    let cx: usize = if tc < 0 {
        0
    } else if tc > (tw - 1) as i128 {
        tw - 1
    } else {
        tc as usize
    };
    let cy: usize = if tr < 0 {
        0
    } else if tr > (th - 1) as i128 {
        th - 1
    } else {
        tr as usize
    };
    texture.get_pixel(cx, cy)
}

/// The smaller of two integers.
pub open spec fn imin(a: int, b: int) -> int {
    if a <= b {
        a
    } else {
        b
    }
}

/// The larger of two integers.
pub open spec fn imax(a: int, b: int) -> int {
    if a >= b {
        a
    } else {
        b
    }
}

/// Left edge of the clamped screen bounding box of a projected triangle.
pub open spec fn bbox_x_lo(sa: (int, int), sb: (int, int), sc: (int, int)) -> int {
    imax(imin(imin(sa.0, sb.0), sc.0), 0)
}

/// Right edge of the clamped bounding box on a `w`-wide image.
pub open spec fn bbox_x_hi(sa: (int, int), sb: (int, int), sc: (int, int), w: int) -> int {
    imin(imax(imax(sa.0, sb.0), sc.0), w - 1)
}

/// Top edge of the clamped bounding box.
pub open spec fn bbox_y_lo(sa: (int, int), sb: (int, int), sc: (int, int)) -> int {
    imax(imin(imin(sa.1, sb.1), sc.1), 0)
}

/// Bottom edge of the clamped bounding box on an `h`-high image.
pub open spec fn bbox_y_hi(sa: (int, int), sb: (int, int), sc: (int, int), h: int) -> int {
    imin(imax(imax(sa.1, sb.1), sc.1), h - 1)
}

/// Barycentric interpolation of a per-corner attribute at one pixel,
/// truncated toward zero.
pub open spec fn interp_at(sa: (int, int), sb: (int, int), sc: (int, int), px: int, py: int, f1: int, f2: int, f3: int) -> int {
    let (an, bn, cn, dn) = bary_nums(sa.0, sa.1, sb.0, sb.1, sc.0, sc.1, px, py);
    tdiv(an * f1 + bn * f2 + cn * f3, dn)
}

/// The rasterizer writes pixel `(x, y)` for this triangle: the pixel lies
/// in the clamped bounding box, inside the triangle, and its interpolated
/// depth beats the depth buffer (strictly).
pub open spec fn covered_at(sa: (int, int), sb: (int, int), sc: (int, int), z1: int, z2: int, z3: int, zb: Seq<i64>, w: int, h: int, x: int, y: int) -> bool {
    &&& bbox_x_lo(sa, sb, sc) <= x <= bbox_x_hi(sa, sb, sc, w)
    &&& bbox_y_lo(sa, sb, sc) <= y <= bbox_y_hi(sa, sb, sc, h)
    &&& in_tri(sa.0, sa.1, sb.0, sb.1, sc.0, sc.1, x, y)
    &&& interp_at(sa, sb, sc, x, y, z1, z2, z3) > zb[y * w + x]
}

/// Depth at `(x, y)` after rasterizing one triangle: the interpolated
/// depth where the triangle wins the depth test, the old depth
/// everywhere else.
pub open spec fn tri_depth_after(v1: Vec3, v2: Vec3, v3: Vec3, cfg: RenderConfig, zb: Seq<i64>, w: int, h: int, x: int, y: int) -> int {
    let c = cfg.camera_distance as int;
    let sa = project_pt(v1, c, w, h);
    let sb = project_pt(v2, c, w, h);
    let sc = project_pt(v3, c, w, h);
    if covered_at(sa, sb, sc, v1.z as int, v2.z as int, v3.z as int, zb, w, h, x, y) {
        interp_at(sa, sb, sc, x, y, v1.z as int, v2.z as int, v3.z as int)
    } else {
        zb[y * w + x] as int
    }
}

/// Color at `(x, y)` after rasterizing one triangle: where the triangle
/// wins the depth test, the texture sampled at the interpolated (and
/// vertically flipped) texture coordinates, scaled by the intensity; the
/// old color everywhere else.
pub open spec fn tri_color_after(v1: Vec3, v2: Vec3, v3: Vec3, t1: Vec3, t2: Vec3, t3: Vec3, tex: Image, intensity: int, cfg: RenderConfig, zb: Seq<i64>, img: Seq<Rgb>, w: int, h: int, x: int, y: int) -> Rgb {
    let c = cfg.camera_distance as int;
    let sa = project_pt(v1, c, w, h);
    let sb = project_pt(v2, c, w, h);
    let sc = project_pt(v3, c, w, h);
    if covered_at(sa, sb, sc, v1.z as int, v2.z as int, v3.z as int, zb, w, h, x, y) {
        let u = interp_at(sa, sb, sc, x, y, t1.x as int, t2.x as int, t3.x as int);
        let v = interp_at(sa, sb, sc, x, y, t1.y as int, t2.y as int, t3.y as int);
        shade(sample_tex(tex, u, SCALE - v), intensity)
    } else {
        img[y * w + x]
    }
}

/// Rasterizes one triangle: fills every pixel of the clamped screen
/// bounding box that lies inside the projected triangle and wins the
/// strict depth test, interpolating depth and texture coordinates in
/// barycentric weights, and leaves every other pixel (and depth cell)
/// exactly as it was.
#[verifier::rlimit(80)]
pub fn triangle(v1: Vec3, v2: Vec3, v3: Vec3, t1: Vec3, t2: Vec3, t3: Vec3, z_buf: &mut DepthBuffer, image: &mut Image, intensity: i64, texture: &Image, config: &RenderConfig)
    requires
        v1.in_range(),
        v2.in_range(),
        v3.in_range(),
        t1.in_range(),
        t2.in_range(),
        t3.in_range(),
        0 <= intensity <= SCALE,
        texture.wf(),
        config.wf(),
        old(z_buf).wf(),
        old(image).wf(),
        old(z_buf).spec_width() == old(image).spec_width(),
        old(z_buf).spec_height() == old(image).spec_height(),
    ensures
        final(z_buf).wf(),
        final(image).wf(),
        final(z_buf).spec_width() == old(z_buf).spec_width(),
        final(z_buf).spec_height() == old(z_buf).spec_height(),
        final(image).spec_width() == old(image).spec_width(),
        final(image).spec_height() == old(image).spec_height(),
        forall|qx: int, qy: int|
            0 <= qx < old(image).spec_width() && 0 <= qy < old(image).spec_height()
                ==> #[trigger] final(z_buf).at(qx, qy) == tri_depth_after(
                    v1, v2, v3, *config, old(z_buf)@,
                    old(image).spec_width(), old(image).spec_height(), qx, qy,
                ),
        forall|qx: int, qy: int|
            0 <= qx < old(image).spec_width() && 0 <= qy < old(image).spec_height()
                ==> #[trigger] final(image).pix(qx, qy) == tri_color_after(
                    v1, v2, v3, t1, t2, t3, *texture, intensity as int, *config,
                    old(z_buf)@, old(image)@,
                    old(image).spec_width(), old(image).spec_height(), qx, qy,
                ),
{
    let w: usize = image.width();
    let h: usize = image.height();
    let sa: (i64, i64) = project_vertex(v1, config, w, h);
    let sb: (i64, i64) = project_vertex(v2, config, w, h);
    let sc: (i64, i64) = project_vertex(v3, config, w, h);
    let ghost gsa: (int, int) = (sa.0 as int, sa.1 as int);
    let ghost gsb: (int, int) = (sb.0 as int, sb.1 as int);
    let ghost gsc: (int, int) = (sc.0 as int, sc.1 as int);
    let mut xlo: i64 = sa.0;
    if sb.0 < xlo {
        xlo = sb.0;
    }
    if sc.0 < xlo {
        xlo = sc.0;
    }
    if xlo < 0 {
        xlo = 0;
    }
    let mut xhi: i64 = sa.0;
    if sb.0 > xhi {
        xhi = sb.0;
    }
    if sc.0 > xhi {
        xhi = sc.0;
    }
    if xhi > (w as i64) - 1 {
        xhi = (w as i64) - 1;
    }
    let mut ylo: i64 = sa.1;
    if sb.1 < ylo {
        ylo = sb.1;
    }
    if sc.1 < ylo {
        ylo = sc.1;
    }
    if ylo < 0 {
        ylo = 0;
    }
    let mut yhi: i64 = sa.1;
    if sb.1 > yhi {
        yhi = sb.1;
    }
    if sc.1 > yhi {
        yhi = sc.1;
    }
    if yhi > (h as i64) - 1 {
        yhi = (h as i64) - 1;
    }
    proof {
        assert(xlo as int == bbox_x_lo(gsa, gsb, gsc));
        assert(xhi as int == bbox_x_hi(gsa, gsb, gsc, w as int));
        assert(ylo as int == bbox_y_lo(gsa, gsb, gsc));
        assert(yhi as int == bbox_y_hi(gsa, gsb, gsc, h as int));
    }
    let z1: i64 = v1.z;
    let z2: i64 = v2.z;
    let z3: i64 = v3.z;
    let mut x: i64 = xlo;
    while x <= xhi
        invariant
            z_buf.wf(),
            image.wf(),
            z_buf.spec_width() == w,
            z_buf.spec_height() == h,
            image.spec_width() == w,
            image.spec_height() == h,
            old(z_buf).spec_width() == w,
            old(z_buf).spec_height() == h,
            old(image).spec_width() == w,
            old(image).spec_height() == h,
            1 <= w <= MAX_DIM,
            1 <= h <= MAX_DIM,
            v1.in_range(),
            v2.in_range(),
            v3.in_range(),
            t1.in_range(),
            t2.in_range(),
            t3.in_range(),
            0 <= intensity <= SCALE,
            texture.wf(),
            config.wf(),
            gsa == (sa.0 as int, sa.1 as int),
            gsb == (sb.0 as int, sb.1 as int),
            gsc == (sc.0 as int, sc.1 as int),
            (sa.0 as int, sa.1 as int) == project_pt(v1, config.camera_distance as int, w as int, h as int),
            (sb.0 as int, sb.1 as int) == project_pt(v2, config.camera_distance as int, w as int, h as int),
            (sc.0 as int, sc.1 as int) == project_pt(v3, config.camera_distance as int, w as int, h as int),
            pt_in_screen_range(sa),
            pt_in_screen_range(sb),
            pt_in_screen_range(sc),
            xlo as int == bbox_x_lo(gsa, gsb, gsc),
            xhi as int == bbox_x_hi(gsa, gsb, gsc, w as int),
            ylo as int == bbox_y_lo(gsa, gsb, gsc),
            yhi as int == bbox_y_hi(gsa, gsb, gsc, h as int),
            0 <= xlo,
            xhi <= w as int - 1,
            0 <= ylo,
            yhi <= h as int - 1,
            xlo <= x,
            z1 == v1.z && z2 == v2.z && z3 == v3.z,
            forall|qx: int, qy: int|
                0 <= qx < w && 0 <= qy < h
                    ==> #[trigger] z_buf.at(qx, qy) == if qx < x && covered_at(
                        gsa, gsb, gsc, z1 as int, z2 as int, z3 as int,
                        old(z_buf)@, w as int, h as int, qx, qy,
                    ) {
                        interp_at(gsa, gsb, gsc, qx, qy, z1 as int, z2 as int, z3 as int)
                    } else {
                        old(z_buf).at(qx, qy) as int
                    },
            forall|qx: int, qy: int|
                0 <= qx < w && 0 <= qy < h
                    ==> #[trigger] image.pix(qx, qy) == if qx < x && covered_at(
                        gsa, gsb, gsc, z1 as int, z2 as int, z3 as int,
                        old(z_buf)@, w as int, h as int, qx, qy,
                    ) {
                        shade(
                            sample_tex(
                                *texture,
                                interp_at(gsa, gsb, gsc, qx, qy, t1.x as int, t2.x as int, t3.x as int),
                                SCALE - interp_at(gsa, gsb, gsc, qx, qy, t1.y as int, t2.y as int, t3.y as int),
                            ),
                            intensity as int,
                        )
                    } else {
                        old(image).pix(qx, qy)
                    },
        decreases xhi + 1 - x,
    {
        let mut y: i64 = ylo;
        while y <= yhi
            invariant
                z_buf.wf(),
                image.wf(),
                z_buf.spec_width() == w,
                z_buf.spec_height() == h,
                image.spec_width() == w,
                image.spec_height() == h,
                old(z_buf).spec_width() == w,
                old(z_buf).spec_height() == h,
                old(image).spec_width() == w,
                old(image).spec_height() == h,
                1 <= w <= MAX_DIM,
                1 <= h <= MAX_DIM,
                v1.in_range(),
                v2.in_range(),
                v3.in_range(),
                t1.in_range(),
                t2.in_range(),
                t3.in_range(),
                0 <= intensity <= SCALE,
                texture.wf(),
                config.wf(),
                gsa == (sa.0 as int, sa.1 as int),
                gsb == (sb.0 as int, sb.1 as int),
                gsc == (sc.0 as int, sc.1 as int),
                pt_in_screen_range(sa),
                pt_in_screen_range(sb),
                pt_in_screen_range(sc),
                xlo as int == bbox_x_lo(gsa, gsb, gsc),
                xhi as int == bbox_x_hi(gsa, gsb, gsc, w as int),
                ylo as int == bbox_y_lo(gsa, gsb, gsc),
                yhi as int == bbox_y_hi(gsa, gsb, gsc, h as int),
                0 <= xlo,
                xhi <= w as int - 1,
                0 <= ylo,
                yhi <= h as int - 1,
                xlo <= x <= xhi,
                ylo <= y,
                z1 == v1.z && z2 == v2.z && z3 == v3.z,
                forall|qx: int, qy: int|
                    0 <= qx < w && 0 <= qy < h
                        ==> #[trigger] z_buf.at(qx, qy) == if (qx < x || (qx == x && qy < y))
                            && covered_at(
                            gsa, gsb, gsc, z1 as int, z2 as int, z3 as int,
                            old(z_buf)@, w as int, h as int, qx, qy,
                        ) {
                            interp_at(gsa, gsb, gsc, qx, qy, z1 as int, z2 as int, z3 as int)
                        } else {
                            old(z_buf).at(qx, qy) as int
                        },
                forall|qx: int, qy: int|
                    0 <= qx < w && 0 <= qy < h
                        ==> #[trigger] image.pix(qx, qy) == if (qx < x || (qx == x && qy < y))
                            && covered_at(
                            gsa, gsb, gsc, z1 as int, z2 as int, z3 as int,
                            old(z_buf)@, w as int, h as int, qx, qy,
                        ) {
                            shade(
                                sample_tex(
                                    *texture,
                                    interp_at(gsa, gsb, gsc, qx, qy, t1.x as int, t2.x as int, t3.x as int),
                                    SCALE - interp_at(gsa, gsb, gsc, qx, qy, t1.y as int, t2.y as int, t3.y as int),
                                ),
                                intensity as int,
                            )
                        } else {
                            old(image).pix(qx, qy)
                        },
            decreases yhi + 1 - y,
        {
            let xu: usize = x as usize;
            let yu: usize = y as usize;
            proof {
                lemma_grid_index_bound(w as int, h as int, x as int, y as int);
            }
            if is_point_in_triangle(sa, sb, sc, (x, y)) {
                let bary: Barycentric = cartesian_to_barycentric(sa, sb, sc, (x, y));
                proof {
                    assert(bary.den as int == bary_nums(gsa.0, gsa.1, gsb.0, gsb.1, gsc.0, gsc.1,
                        x as int, y as int).3);
                    if bary_uz(gsa.0, gsa.1, gsb.0, gsb.1, gsc.0, gsc.1, x as int, y as int) == 0 {
                        assert(bary.c_num == -1 && bary.den == 1);
                        assert(0int * 1 == 0 && (-1int) * 1 == -1) by (nonlinear_arith);
                        assert(!in_tri(gsa.0, gsa.1, gsb.0, gsb.1, gsc.0, gsc.1, x as int, y as int));
                    }
                    assert(bary.a_num + bary.b_num + bary.c_num == bary.den);
                    assert(bary.a_num * bary.den >= 0 && bary.b_num * bary.den >= 0
                        && bary.c_num * bary.den >= 0);
                }
                let z: i64 = interpolate(&bary, z1, z2, z3);
                let zcur: i64 = z_buf.get(xu, yu);
                if zcur < z {
                    proof {
                        assert(z_buf.at(x as int, y as int) == old(z_buf).at(x as int, y as int));
                        assert(z as int == interp_at(gsa, gsb, gsc, x as int, y as int,
                            z1 as int, z2 as int, z3 as int));
                        assert(covered_at(gsa, gsb, gsc, z1 as int, z2 as int, z3 as int,
                            old(z_buf)@, w as int, h as int, x as int, y as int));
                    }
                    z_buf.set(xu, yu, z);
                    let u: i64 = interpolate(&bary, t1.x, t2.x, t3.x);
                    let v: i64 = interpolate(&bary, t1.y, t2.y, t3.y);
                    let color: Rgb = get_texture_color(u, SCALE - v, texture);
                    let lit: Rgb = apply_intensity(color, intensity);
                    image.put_pixel(xu, yu, lit);
                } else {
                    proof {
                        assert(!covered_at(gsa, gsb, gsc, z1 as int, z2 as int, z3 as int,
                            old(z_buf)@, w as int, h as int, x as int, y as int));
                    }
                }
            } else {
                proof {
                    assert(!covered_at(gsa, gsb, gsc, z1 as int, z2 as int, z3 as int,
                        old(z_buf)@, w as int, h as int, x as int, y as int));
                }
            }
            y = y + 1;
        }
        x = x + 1;
    }
    proof {
        assert forall|qx: int, qy: int|
            0 <= qx < w && 0 <= qy < h implies #[trigger] final(z_buf).at(qx, qy)
                == tri_depth_after(v1, v2, v3, *config, old(z_buf)@, w as int, h as int, qx, qy) by {
            if covered_at(gsa, gsb, gsc, z1 as int, z2 as int, z3 as int, old(z_buf)@,
                w as int, h as int, qx, qy) {
                assert(qx <= xhi as int);
            }
        }
        assert forall|qx: int, qy: int|
            0 <= qx < w && 0 <= qy < h implies #[trigger] final(image).pix(qx, qy)
                == tri_color_after(v1, v2, v3, t1, t2, t3, *texture, intensity as int, *config,
                old(z_buf)@, old(image)@, w as int, h as int, qx, qy) by {
            if covered_at(gsa, gsb, gsc, z1 as int, z2 as int, z3 as int, old(z_buf)@,
                w as int, h as int, qx, qy) {
                assert(qx <= xhi as int);
            }
            lemma_grid_index_bound(w as int, h as int, qx, qy);
            assert(old(image).pix(qx, qy) == old(image)@[qy * w + qx]);
        }
    }
}

/// One color channel scaled by a fixed-point intensity, truncated.
pub open spec fn shade_channel(ch: u8, intensity: int) -> u8 {
    tdiv(ch * intensity, SCALE as int) as u8
}

/// A color scaled by a fixed-point intensity, channel by channel.
pub open spec fn shade(c: Rgb, intensity: int) -> Rgb {
    Rgb {
        r: shade_channel(c.r, intensity),
        g: shade_channel(c.g, intensity),
        b: shade_channel(c.b, intensity),
    }
}

/// Scales a color by an intensity in `[0, SCALE]`.
pub fn apply_intensity(c: Rgb, intensity: i64) -> (r: Rgb)
    requires
        0 <= intensity <= SCALE,
    ensures
        r == shade(c, intensity as int),
{
    proof {
        lemma_mul_abs_bound(c.r as int, intensity as int, 255, SCALE as int);
        lemma_mul_abs_bound(c.g as int, intensity as int, 255, SCALE as int);
        lemma_mul_abs_bound(c.b as int, intensity as int, 255, SCALE as int);
        lemma_shade_channel(c.r, intensity as int);
        lemma_shade_channel(c.g, intensity as int);
        lemma_shade_channel(c.b, intensity as int);
    }
    let rr: u64 = (c.r as u64) * (intensity as u64) / (SCALE as u64);
    let gg: u64 = (c.g as u64) * (intensity as u64) / (SCALE as u64);
    let bb: u64 = (c.b as u64) * (intensity as u64) / (SCALE as u64);
    Rgb { r: rr as u8, g: gg as u8, b: bb as u8 }
}

/// A channel scaled by an intensity of at most one stays a byte, and the
/// machine division computes the spec's truncating division.
proof fn lemma_shade_channel(ch: u8, intensity: int)
    requires
        0 <= intensity <= SCALE,
    ensures
        0 <= tdiv(ch * intensity, SCALE as int) <= ch,
        tdiv(ch * intensity, SCALE as int) == (ch * intensity) / (SCALE as int),
{
    assert(ch * intensity >= 0) by (nonlinear_arith)
        requires
            ch >= 0,
            intensity >= 0,
    ;
    assert(ch * intensity <= ch * SCALE) by (nonlinear_arith)
        requires
            0 <= intensity <= SCALE,
            0 <= ch,
    ;
    assert(iabs(ch * intensity) == ch * intensity);
    assert(iabs(SCALE as int) == SCALE as int);
    lemma_tdiv_bound(ch * intensity, SCALE as int, ch as int);
}

/// The depth buffer a render pass starts from: empty everywhere.
pub open spec fn init_depth(w: int, h: int) -> Seq<i64> {
    Seq::new((h * w) as nat, |i: int| DEPTH_EMPTY)
}

/// The framebuffer a render pass starts from: black everywhere.
pub open spec fn init_frame(w: int, h: int) -> Seq<Rgb> {
    Seq::new((h * w) as nat, |i: int| Rgb { r: 0, g: 0, b: 0 })
}

/// Effect of one face on the depth buffer and framebuffer: a face whose
/// light dot product is not strictly positive is skipped entirely;
/// otherwise the triangle is rasterized as `tri_depth_after` and
/// `tri_color_after` say, pixel by pixel.
pub open spec fn render_face(model: Model, cfg: RenderConfig, w: int, h: int, fi: int, zb: Seq<i64>, img: Seq<Rgb>) -> (Seq<i64>, Seq<Rgb>) {
    let f = model.faces@[fi];
    let va = model.verts@[f.vertices.0 as int];
    let vb = model.verts@[f.vertices.1 as int];
    let vc = model.verts@[f.vertices.2 as int];
    if face_dot(va, vb, vc, cfg.light_dir) <= 0 {
        (zb, img)
    } else {
        let t1 = model.texture_verts@[f.textures.0 as int];
        let t2 = model.texture_verts@[f.textures.1 as int];
        let t3 = model.texture_verts@[f.textures.2 as int];
        let inten = face_intensity(va, vb, vc, cfg.light_dir);
        (
            Seq::new(zb.len(), |i: int| tri_depth_after(va, vb, vc, cfg, zb, w, h, i % w, i / w) as i64),
            Seq::new(img.len(), |i: int| tri_color_after(va, vb, vc, t1, t2, t3, model.texture, inten, cfg, zb, img, w, h, i % w, i / w)),
        )
    }
}

/// Rasterizing a single triangle into a fresh depth buffer leaves the
/// interpolated depth at exactly the covered pixels, and the empty value
/// (the stand-in for negative infinity) everywhere else.
pub proof fn lemma_single_triangle_depth(v1: Vec3, v2: Vec3, v3: Vec3, cfg: RenderConfig, w: int, h: int, x: int, y: int)
    requires
        1 <= w,
        1 <= h,
        0 <= x < w,
        0 <= y < h,
    ensures
        ({
            let zb = init_depth(w, h);
            let c = cfg.camera_distance as int;
            let sa = project_pt(v1, c, w, h);
            let sb = project_pt(v2, c, w, h);
            let sc = project_pt(v3, c, w, h);
            if covered_at(sa, sb, sc, v1.z as int, v2.z as int, v3.z as int, zb, w, h, x, y) {
                tri_depth_after(v1, v2, v3, cfg, zb, w, h, x, y) == interp_at(
                    sa, sb, sc, x, y, v1.z as int, v2.z as int, v3.z as int,
                )
            } else {
                tri_depth_after(v1, v2, v3, cfg, zb, w, h, x, y) == DEPTH_EMPTY
            }
        }),
{
    lemma_grid_index_bound(w, h, x, y);
}

/// A face whose dot product with the light direction is not strictly
/// positive contributes nothing: the depth buffer and framebuffer pass
/// through a skipped face unchanged.  In particular a face lit exactly
/// edge-on (dot product zero) is skipped.
pub proof fn lemma_unlit_face_is_skipped(model: Model, cfg: RenderConfig, w: int, h: int, fi: int, zb: Seq<i64>, img: Seq<Rgb>)
    requires
        0 <= fi < model.faces@.len(),
        face_dot(
            model.verts@[model.faces@[fi].vertices.0 as int],
            model.verts@[model.faces@[fi].vertices.1 as int],
            model.verts@[model.faces@[fi].vertices.2 as int],
            cfg.light_dir,
        ) <= 0,
    ensures
        render_face(model, cfg, w, h, fi, zb, img) == (zb, img),
{
}

/// The depth buffer and framebuffer after rasterizing the first `n`
/// faces of the mesh, in order, starting from the empty buffers.
pub open spec fn render_upto(model: Model, cfg: RenderConfig, w: int, h: int, n: nat) -> (Seq<i64>, Seq<Rgb>)
    decreases n,
{
    if n == 0 {
        (init_depth(w, h), init_frame(w, h))
    } else {
        let prev = render_upto(model, cfg, w, h, (n - 1) as nat);
        render_face(model, cfg, w, h, n - 1, prev.0, prev.1)
    }
}

/// Renders the whole mesh into a fresh framebuffer: every face is
/// rasterized in file order against a shared depth buffer, and the
/// finished image is flipped vertically (bottom-left mathematical origin
/// to top-left image origin).  The pixel at `(x, y)` of the result is
/// exactly the pixel at `(x, h - 1 - y)` of the fold in `render_upto`.
#[verifier::rlimit(80)]
pub fn render_model(resolution: (u32, u32), model: &Model, config: &RenderConfig) -> (r: Image)
    requires
        model.wf(),
        config.wf(),
        1 <= resolution.0 <= MAX_DIM,
        1 <= resolution.1 <= MAX_DIM,
    ensures
        r.wf(),
        r.spec_width() == resolution.0,
        r.spec_height() == resolution.1,
        forall|x: int, y: int|
            r.in_bounds(x, y) ==> #[trigger] r.pix(x, y) == render_upto(
                *model, *config, resolution.0 as int, resolution.1 as int,
                model.faces@.len(),
            ).1[(resolution.1 - 1 - y) * resolution.0 + x],
{
    let w: usize = resolution.0 as usize;
    let h: usize = resolution.1 as usize;
    let mut image: Image = Image::new(w, h, Rgb::black());
    let mut z_buffer: DepthBuffer = DepthBuffer::new(w, h);
    proof {
        assert forall|i: int| 0 <= i < z_buffer@.len() implies z_buffer@[i] == DEPTH_EMPTY by {
            lemma_flat_decomp(w as int, h as int, i);
            assert(z_buffer.at(i % (w as int), i / (w as int)) == DEPTH_EMPTY);
        }
        assert(z_buffer@ =~= init_depth(w as int, h as int));
        assert forall|i: int| 0 <= i < image@.len() implies image@[i] == (Rgb { r: 0, g: 0, b: 0 }) by {
            lemma_flat_decomp(w as int, h as int, i);
            assert(image.pix(i % (w as int), i / (w as int)) == (Rgb { r: 0, g: 0, b: 0 }));
        }
        assert(image@ =~= init_frame(w as int, h as int));
    }
    let nfaces: usize = model.faces.len();
    let mut fi: usize = 0;
    while fi < nfaces
        invariant
            model.wf(),
            config.wf(),
            1 <= w <= MAX_DIM,
            1 <= h <= MAX_DIM,
            nfaces == model.faces@.len(),
            fi <= nfaces,
            z_buffer.wf(),
            image.wf(),
            z_buffer.spec_width() == w,
            z_buffer.spec_height() == h,
            image.spec_width() == w,
            image.spec_height() == h,
            z_buffer@ == render_upto(*model, *config, w as int, h as int, fi as nat).0,
            image@ == render_upto(*model, *config, w as int, h as int, fi as nat).1,
        decreases nfaces - fi,
    {
        let f: crate::model::FaceData = model.faces[fi];
        proof {
            assert(crate::model::face_in_range(
                model.faces@[fi as int],
                model.verts@.len() as int,
                model.texture_verts@.len() as int,
                model.normal_verts@.len() as int,
            ));
        }
        let va: Vec3 = model.verts[f.vertices.0];
        let vb: Vec3 = model.verts[f.vertices.1];
        let vc: Vec3 = model.verts[f.vertices.2];
        let (facing, inten) = face_light(va, vb, vc, config.light_dir);
        let ghost zb_pre: Seq<i64> = z_buffer@;
        let ghost img_pre: Seq<Rgb> = image@;
        if facing {
            let t1: Vec3 = model.texture_verts[f.textures.0];
            let t2: Vec3 = model.texture_verts[f.textures.1];
            let t3: Vec3 = model.texture_verts[f.textures.2];
            triangle(va, vb, vc, t1, t2, t3, &mut z_buffer, &mut image, inten, &model.texture, config);
            proof {
                let wi = w as int;
                let hi = h as int;
                let step = render_face(*model, *config, wi, hi, fi as int, zb_pre, img_pre);
                assert forall|i: int| 0 <= i < z_buffer@.len() implies z_buffer@[i] == step.0[i] by {
                    lemma_flat_decomp(wi, hi, i);
                    let qx = i % wi;
                    let qy = i / wi;
                    assert(z_buffer.at(qx, qy) == tri_depth_after(va, vb, vc, *config, zb_pre,
                        wi, hi, qx, qy));
                    assert(z_buffer.at(qx, qy) == z_buffer@[qy * wi + qx]);
                }
                assert(z_buffer@ =~= step.0);
                assert forall|i: int| 0 <= i < image@.len() implies image@[i] == step.1[i] by {
                    lemma_flat_decomp(wi, hi, i);
                    let qx = i % wi;
                    let qy = i / wi;
                    assert(image.pix(qx, qy) == tri_color_after(va, vb, vc, t1, t2, t3,
                        model.texture, inten as int, *config, zb_pre, img_pre, wi, hi, qx, qy));
                    assert(image.pix(qx, qy) == image@[qy * wi + qx]);
                }
                assert(image@ =~= step.1);
                assert(z_buffer@ == render_upto(*model, *config, wi, hi, (fi + 1) as nat).0);
                assert(image@ == render_upto(*model, *config, wi, hi, (fi + 1) as nat).1);
            }
        } else {
            proof {
                let wi = w as int;
                let hi = h as int;
                assert(render_face(*model, *config, wi, hi, fi as int, zb_pre, img_pre)
                    == (zb_pre, img_pre));
                assert(z_buffer@ == render_upto(*model, *config, wi, hi, (fi + 1) as nat).0);
                assert(image@ == render_upto(*model, *config, wi, hi, (fi + 1) as nat).1);
            }
        }
        fi = fi + 1;
    }
    let flipped: Image = image.flip_vertical();
    proof {
        let wi = w as int;
        let hi = h as int;
        let fin = render_upto(*model, *config, wi, hi, model.faces@.len());
        assert forall|x: int, y: int| flipped.in_bounds(x, y) implies #[trigger] flipped.pix(x, y)
            == fin.1[(hi - 1 - y) * wi + x] by {
            assert(flipped.pix(x, y) == image.pix(x, hi - 1 - y));
            lemma_grid_index_bound(wi, hi, x, hi - 1 - y);
            assert(image.pix(x, hi - 1 - y) == image@[(hi - 1 - y) * wi + x]);
        }
    }
    flipped
}

} // verus!
