//! The two pixel grids of the renderer: the color framebuffer (also used
//! for the decoded texture) and the per-pixel depth buffer.
//!
//! Both are row-major grids with a top-left origin, viewed as flat
//! sequences; `pix` and `at` give the value at a column `x` and row `y`.

use vstd::prelude::*;

verus! {

/// Largest width or height a grid may have.
pub const MAX_DIM: usize = 16384;

/// Depth value meaning "no surface has been drawn here yet"; it compares
/// below every interpolated depth, standing in for negative infinity.
pub const DEPTH_EMPTY: i64 = i64::MIN;

/// One color sample: red, green and blue channels.
#[derive(Clone, Copy, Debug, PartialEq, Eq, Structural)]
pub struct Rgb {
    pub r: u8,
    pub g: u8,
    pub b: u8,
}

impl Rgb {
    /// Pure black, the initial framebuffer color.
    pub fn black() -> (c: Rgb)
        ensures
            c == (Rgb { r: 0, g: 0, b: 0 }),
    {
        Rgb { r: 0, g: 0, b: 0 }
    }
}

/// A grid of in-range dimensions has at most `MAX_DIM * MAX_DIM` cells,
/// so flat indices fit in `usize`.
pub proof fn lemma_grid_size_bound(w: int, h: int)
    requires
        1 <= w <= MAX_DIM,
        1 <= h <= MAX_DIM,
    ensures
        h * w <= 268_435_456,
{
    assert(h * w <= 268_435_456) by (nonlinear_arith)
        requires
            1 <= w <= MAX_DIM,
            1 <= h <= MAX_DIM,
    ;
}

/// A flat row-major index stays within a `w`-by-`h` grid.
pub proof fn lemma_grid_index_bound(w: int, h: int, x: int, y: int)
    requires
        0 <= x < w,
        0 <= y < h,
    ensures
        0 <= y * w + x < h * w,
{
    assert(y * w + x < h * w) by (nonlinear_arith)
        requires
            0 <= x < w,
            0 <= y,
            y + 1 <= h,
    ;
    assert(0 <= y * w) by (nonlinear_arith)
        requires
            0 <= y,
            0 <= w,
    ;
}

/// Distinct in-range grid coordinates give distinct flat indices.
pub proof fn lemma_grid_index_injective(w: int, x1: int, y1: int, x2: int, y2: int)
    requires
        0 <= x1 < w,
        0 <= x2 < w,
        0 <= y1,
        0 <= y2,
        y1 * w + x1 == y2 * w + x2,
    ensures
        x1 == x2,
        y1 == y2,
{
    assert(x1 == x2 && y1 == y2) by (nonlinear_arith)
        requires
            0 <= x1 < w,
            0 <= x2 < w,
            0 <= y1,
            0 <= y2,
            y1 * w + x1 == y2 * w + x2,
    ;
}

/// Any flat index of a `w`-by-`h` grid splits into a column `idx % w`
/// and a row `idx / w`.
pub proof fn lemma_flat_decomp(w: int, h: int, idx: int)
    requires
        1 <= w,
        1 <= h,
        0 <= idx < h * w,
    ensures
        0 <= idx % w < w,
        0 <= idx / w < h,
        (idx / w) * w + idx % w == idx,
{
    vstd::arithmetic::div_mod::lemma_fundamental_div_mod(idx, w);
    assert(idx == w * (idx / w) + idx % w);
    assert(0 <= idx % w < w) by {
        vstd::arithmetic::div_mod::lemma_mod_bound(idx, w);
    }
    let q = idx / w;
    assert(q >= 0) by (nonlinear_arith)
        requires
            w >= 1,
            idx >= 0,
            idx % w < w,
            idx == w * q + idx % w,
    ;
    if q >= h {
        assert(w * q >= w * h) by (nonlinear_arith)
            requires
                w >= 1,
                q >= h,
        ;
        assert(w * h == h * w) by (nonlinear_arith);
        assert(false);
    }
    assert((idx / w) * w == w * (idx / w)) by (nonlinear_arith);
}

/// A width-by-height grid of color samples, row-major, top-left origin.
#[derive(Debug)]
pub struct Image {
    width: usize,
    height: usize,
    pixels: Vec<Rgb>,
}

impl View for Image {
    type V = Seq<Rgb>;

    closed spec fn view(&self) -> Seq<Rgb> {
        self.pixels@
    }
}

impl Image {
    /// Number of pixel columns.
    pub closed spec fn spec_width(&self) -> int {
        self.width as int
    }

    /// Number of pixel rows.
    pub closed spec fn spec_height(&self) -> int {
        self.height as int
    }

    /// The grid is consistently sized and its dimensions are in range.
    pub open spec fn wf(self) -> bool {
        &&& 1 <= self.spec_width() <= MAX_DIM
        &&& 1 <= self.spec_height() <= MAX_DIM
        &&& self@.len() == self.spec_height() * self.spec_width()
    }

    /// The color at column `x`, row `y`.
    pub open spec fn pix(self, x: int, y: int) -> Rgb {
        self@[y * self.spec_width() + x]
    }

    /// `x` and `y` address a pixel of this grid.
    pub open spec fn in_bounds(self, x: int, y: int) -> bool {
        0 <= x < self.spec_width() && 0 <= y < self.spec_height()
    }

    pub fn width(&self) -> (w: usize)
        ensures
            w as int == self.spec_width(),
    {
        self.width
    }

    pub fn height(&self) -> (h: usize)
        ensures
            h as int == self.spec_height(),
    {
        self.height
    }

    /// A fresh grid with every pixel set to `fill`.
    pub fn new(width: usize, height: usize, fill: Rgb) -> (img: Image)
        requires
            1 <= width <= MAX_DIM,
            1 <= height <= MAX_DIM,
        ensures
            img.wf(),
            img.spec_width() == width,
            img.spec_height() == height,
            forall|x: int, y: int| img.in_bounds(x, y) ==> #[trigger] img.pix(x, y) == fill,
    {
        proof {
            assert(height * width <= MAX_DIM * MAX_DIM) by (nonlinear_arith)
                requires
                    1 <= width <= MAX_DIM,
                    1 <= height <= MAX_DIM,
            ;
        }
        let n: usize = width * height;
        let mut pixels: Vec<Rgb> = Vec::new();
        let mut i: usize = 0;
        while i < n
            invariant
                i <= n,
                pixels@.len() == i,
                forall|j: int| 0 <= j < i ==> pixels@[j] == fill,
            decreases n - i,
        {
            pixels.push(fill);
            i = i + 1;
        }
        let img = Image { width, height, pixels };
        proof {
            assert(forall|x: int, y: int| img.in_bounds(x, y) ==> #[trigger] img.pix(x, y) == fill) by {
                assert forall|x: int, y: int| img.in_bounds(x, y) implies #[trigger] img.pix(x, y) == fill by {
                    lemma_grid_index_bound(img.spec_width(), img.spec_height(), x, y);
                }
            }
        }
        img
    }

    /// Builds a grid from a flat row-major pixel vector whose length
    /// matches the dimensions; the boundary uses this to hand a decoded
    /// texture to the library.
    pub fn from_flat(width: usize, height: usize, pixels: Vec<Rgb>) -> (r: Option<Image>)
        ensures
            match r {
                Some(img) => {
                    &&& img.wf()
                    &&& img.spec_width() == width
                    &&& img.spec_height() == height
                    &&& img@ == pixels@
                    &&& 1 <= width <= MAX_DIM
                    &&& 1 <= height <= MAX_DIM
                    &&& pixels@.len() == height * width
                },
                None => !(1 <= width <= MAX_DIM && 1 <= height <= MAX_DIM
                    && pixels@.len() == height * width),
            },
    {
        if width < 1 || width > MAX_DIM || height < 1 || height > MAX_DIM {
            return None;
        }
        proof {
            assert(height * width <= MAX_DIM * MAX_DIM) by (nonlinear_arith)
                requires
                    1 <= width <= MAX_DIM,
                    1 <= height <= MAX_DIM,
            ;
        }
        let n: usize = width * height;
        if pixels.len() != n {
            return None;
        }
        Some(Image { width, height, pixels })
    }

    /// The color at column `x`, row `y`.
    pub fn get_pixel(&self, x: usize, y: usize) -> (c: Rgb)
        requires
            self.wf(),
            self.in_bounds(x as int, y as int),
        ensures
            c == self.pix(x as int, y as int),
    {
        proof {
            lemma_grid_index_bound(self.spec_width(), self.spec_height(), x as int, y as int);
            lemma_grid_size_bound(self.spec_width(), self.spec_height());
        }
        self.pixels[y * self.width + x]
    }

    /// Overwrites the pixel at column `x`, row `y`, leaving every other
    /// pixel as it was.
    pub fn put_pixel(&mut self, x: usize, y: usize, color: Rgb)
        requires
            old(self).wf(),
            old(self).in_bounds(x as int, y as int),
        ensures
            final(self).wf(),
            final(self).spec_width() == old(self).spec_width(),
            final(self).spec_height() == old(self).spec_height(),
            final(self)@ == old(self)@.update(y as int * old(self).spec_width() + x as int, color),
            final(self).pix(x as int, y as int) == color,
            forall|xo: int, yo: int|
                final(self).in_bounds(xo, yo) && !(xo == x as int && yo == y as int)
                    ==> #[trigger] final(self).pix(xo, yo) == old(self).pix(xo, yo),
    {
        proof {
            lemma_grid_index_bound(self.spec_width(), self.spec_height(), x as int, y as int);
            lemma_grid_size_bound(self.spec_width(), self.spec_height());
        }
        let idx: usize = y * self.width + x;
        self.pixels.set(idx, color);
        proof {
            assert forall|xo: int, yo: int|
                self.in_bounds(xo, yo) && !(xo == x as int && yo == y as int)
                    implies #[trigger] self.pix(xo, yo) == old(self).pix(xo, yo) by {
                lemma_grid_index_bound(self.spec_width(), self.spec_height(), xo, yo);
                if yo * self.spec_width() + xo == y as int * self.spec_width() + x as int {
                    lemma_grid_index_injective(self.spec_width(), x as int, y as int, xo, yo);
                }
            }
        }
    }

    /// The same image with the row order reversed, converting between a
    /// bottom-left mathematical origin and a top-left image origin.
    pub fn flip_vertical(&self) -> (r: Image)
        requires
            self.wf(),
        ensures
            r.wf(),
            r.spec_width() == self.spec_width(),
            r.spec_height() == self.spec_height(),
            forall|x: int, y: int|
                r.in_bounds(x, y)
                    ==> #[trigger] r.pix(x, y) == self.pix(x, self.spec_height() - 1 - y),
    {
        let w: usize = self.width;
        let h: usize = self.height;
        let mut flipped = Image::new(w, h, Rgb { r: 0, g: 0, b: 0 });
        let mut y: usize = 0;
        while y < h
            invariant
                y <= h,
                flipped.wf(),
                self.wf(),
                w == self.spec_width(),
                h == self.spec_height(),
                flipped.spec_width() == w,
                flipped.spec_height() == h,
                forall|xo: int, yo: int|
                    flipped.in_bounds(xo, yo) && yo < y
                        ==> #[trigger] flipped.pix(xo, yo) == self.pix(xo, h - 1 - yo),
            decreases h - y,
        {
            let mut x: usize = 0;
            while x < w
                invariant
                    y < h,
                    x <= w,
                    flipped.wf(),
                    self.wf(),
                    w == self.spec_width(),
                    h == self.spec_height(),
                    flipped.spec_width() == w,
                    flipped.spec_height() == h,
                    forall|xo: int, yo: int|
                        flipped.in_bounds(xo, yo) && yo < y
                            ==> #[trigger] flipped.pix(xo, yo) == self.pix(xo, h - 1 - yo),
                    forall|xo: int|
                        0 <= xo < x
                            ==> #[trigger] flipped.pix(xo, y as int) == self.pix(xo, h - 1 - y),
                decreases w - x,
            {
                let c = self.get_pixel(x, h - 1 - y);
                flipped.put_pixel(x, y, c);
                x = x + 1;
            }
            y = y + 1;
        }
        flipped
    }
}

/// A width-by-height grid of depth values, row-major, initialized to
/// `DEPTH_EMPTY` ("negative infinity": nothing drawn yet).
#[derive(Debug)]
pub struct DepthBuffer {
    width: usize,
    height: usize,
    data: Vec<i64>,
}

impl View for DepthBuffer {
    type V = Seq<i64>;

    closed spec fn view(&self) -> Seq<i64> {
        self.data@
    }
}

impl DepthBuffer {
    /// Number of columns.
    pub closed spec fn spec_width(&self) -> int {
        self.width as int
    }

    /// Number of rows.
    pub closed spec fn spec_height(&self) -> int {
        self.height as int
    }

    /// The grid is consistently sized and its dimensions are in range.
    pub open spec fn wf(self) -> bool {
        &&& 1 <= self.spec_width() <= MAX_DIM
        &&& 1 <= self.spec_height() <= MAX_DIM
        &&& self@.len() == self.spec_height() * self.spec_width()
    }

    /// The depth stored at column `x`, row `y`.
    pub open spec fn at(self, x: int, y: int) -> i64 {
        self@[y * self.spec_width() + x]
    }

    /// `x` and `y` address a cell of this grid.
    pub open spec fn in_bounds(self, x: int, y: int) -> bool {
        0 <= x < self.spec_width() && 0 <= y < self.spec_height()
    }

    pub fn width(&self) -> (w: usize)
        ensures
            w as int == self.spec_width(),
    {
        self.width
    }

    pub fn height(&self) -> (h: usize)
        ensures
            h as int == self.spec_height(),
    {
        self.height
    }

    /// A fresh depth buffer with every cell empty.
    pub fn new(width: usize, height: usize) -> (zb: DepthBuffer)
        requires
            1 <= width <= MAX_DIM,
            1 <= height <= MAX_DIM,
        ensures
            zb.wf(),
            zb.spec_width() == width,
            zb.spec_height() == height,
            forall|x: int, y: int| zb.in_bounds(x, y) ==> #[trigger] zb.at(x, y) == DEPTH_EMPTY,
    {
        proof {
            assert(height * width <= MAX_DIM * MAX_DIM) by (nonlinear_arith)
                requires
                    1 <= width <= MAX_DIM,
                    1 <= height <= MAX_DIM,
            ;
        }
        let n: usize = width * height;
        let mut data: Vec<i64> = Vec::new();
        let mut i: usize = 0;
        while i < n
            invariant
                i <= n,
                data@.len() == i,
                forall|j: int| 0 <= j < i ==> data@[j] == DEPTH_EMPTY,
            decreases n - i,
        {
            data.push(DEPTH_EMPTY);
            i = i + 1;
        }
        let zb = DepthBuffer { width, height, data };
        proof {
            assert forall|x: int, y: int| zb.in_bounds(x, y) implies #[trigger] zb.at(x, y) == DEPTH_EMPTY by {
                lemma_grid_index_bound(zb.spec_width(), zb.spec_height(), x, y);
            }
        }
        zb
    }

    /// The depth at column `x`, row `y`.
    pub fn get(&self, x: usize, y: usize) -> (d: i64)
        requires
            self.wf(),
            self.in_bounds(x as int, y as int),
        ensures
            d == self.at(x as int, y as int),
    {
        proof {
            lemma_grid_index_bound(self.spec_width(), self.spec_height(), x as int, y as int);
            lemma_grid_size_bound(self.spec_width(), self.spec_height());
        }
        self.data[y * self.width + x]
    }

    /// Overwrites the depth at column `x`, row `y`, leaving every other
    /// cell as it was.
    pub fn set(&mut self, x: usize, y: usize, depth: i64)
        requires
            old(self).wf(),
            old(self).in_bounds(x as int, y as int),
        ensures
            final(self).wf(),
            final(self).spec_width() == old(self).spec_width(),
            final(self).spec_height() == old(self).spec_height(),
            final(self)@ == old(self)@.update(y as int * old(self).spec_width() + x as int, depth),
            final(self).at(x as int, y as int) == depth,
            forall|xo: int, yo: int|
                final(self).in_bounds(xo, yo) && !(xo == x as int && yo == y as int)
                    ==> #[trigger] final(self).at(xo, yo) == old(self).at(xo, yo),
    {
        proof {
            lemma_grid_index_bound(self.spec_width(), self.spec_height(), x as int, y as int);
            lemma_grid_size_bound(self.spec_width(), self.spec_height());
        }
        let idx: usize = y * self.width + x;
        self.data.set(idx, depth);
        proof {
            assert forall|xo: int, yo: int|
                self.in_bounds(xo, yo) && !(xo == x as int && yo == y as int)
                    implies #[trigger] self.at(xo, yo) == old(self).at(xo, yo) by {
                lemma_grid_index_bound(self.spec_width(), self.spec_height(), xo, yo);
                if yo * self.spec_width() + xo == y as int * self.spec_width() + x as int {
                    lemma_grid_index_injective(self.spec_width(), x as int, y as int, xo, yo);
                }
            }
        }
    }
}

} // verus!
