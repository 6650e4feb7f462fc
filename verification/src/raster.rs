use vstd::prelude::*;

verus! {

/// One 8-bit-per-channel RGB color sample.
#[derive(Clone, Copy, PartialEq, Eq, Structural, Debug)]
pub struct Pixel {
    pub r: u8,
    pub g: u8,
    pub b: u8,
}

/// The structured errors that the pipeline reports before any pixel work
/// begins.  No error is raised mid-render: inputs are validated up front.
#[derive(Clone, Copy, PartialEq, Eq, Structural, Debug)]
pub enum SortError {
    /// A mask's dimensions differ from the primary raster's.
    DimensionMismatch,
    /// A randomness rate outside `0 ..= 100`.
    RandomnessOutOfRange,
    /// A threshold bound outside `0 ..= 1000` (thousandths of full scale).
    ThresholdOutOfRange,
    /// An interval plan that does not fit the raster it is applied to.
    InvalidPlan,
    /// A raster whose pixel count does not match its dimensions.
    BadDimensions,
}

/// A `width x height` grid of RGB pixels, stored row-major: the pixel at
/// column `x` of row `y` sits at flat index `y * width + x`.
pub struct Raster {
    width: u32,
    height: u32,
    pixels: Vec<Pixel>,
}

impl View for Raster {
    type V = Seq<Pixel>;

    /// The flat row-major pixel contents.
    closed spec fn view(&self) -> Seq<Pixel> {
        self.pixels@
    }
}

impl Raster {
    pub closed spec fn spec_width(self) -> int {
        self.width as int
    }

    pub closed spec fn spec_height(self) -> int {
        self.height as int
    }

    /// A raster is well formed when it holds exactly one pixel per grid cell.
    pub open spec fn wf(self) -> bool {
        self@.len() == self.spec_width() * self.spec_height()
    }

    /// The pixel at column `x` of row `y`.
    pub open spec fn pixel_at(self, x: int, y: int) -> Pixel {
        self@[y * self.spec_width() + x]
    }

    pub fn width(&self) -> (w: u32)
        ensures
            w as int == self.spec_width(),
    {
        self.width
    }

    pub fn height(&self) -> (h: u32)
        ensures
            h as int == self.spec_height(),
    {
        self.height
    }

    /// Builds a raster in which every cell holds `fill`.  Fails only when the
    /// pixel count would not fit in memory's address space.
    pub fn new_filled(width: u32, height: u32, fill: Pixel) -> (res: Result<Raster, SortError>)
        ensures
            match res {
                Ok(r) => {
                    &&& width as int * height as int <= usize::MAX
                    &&& r.wf()
                    &&& r.spec_width() == width as int
                    &&& r.spec_height() == height as int
                    &&& r@.len() == width as int * height as int
                    &&& forall|i: int| 0 <= i < r@.len() ==> r@[i] == fill
                },
                Err(e) => e == SortError::BadDimensions && width as int * height as int > usize::MAX,
            },
    {
        proof {
            crate::frac::lemma_u32_mul_fits(width, height);
        }
        let n64: u64 = (width as u64) * (height as u64);
        if n64 > (usize::MAX as u64) {
            return Err(SortError::BadDimensions);
        }
        let n: usize = n64 as usize;
        let pixels: Vec<Pixel> = vec![fill; n];
        assert(forall|i: int| 0 <= i < pixels@.len() ==> pixels@[i] == fill);
        Ok(Raster { width, height, pixels })
    }

    /// Builds a raster from a flat row-major pixel vector.  Fails when the
    /// vector's length does not equal `width * height`.
    pub fn from_pixels(width: u32, height: u32, pixels: Vec<Pixel>) -> (res: Result<
        Raster,
        SortError,
    >)
        ensures
            match res {
                Ok(r) => {
                    &&& pixels@.len() == width as int * height as int
                    &&& r.wf()
                    &&& r.spec_width() == width as int
                    &&& r.spec_height() == height as int
                    &&& r@ == pixels@
                },
                Err(e) => e == SortError::BadDimensions && pixels@.len()
                    != width as int * height as int,
            },
    {
        proof {
            crate::frac::lemma_u32_mul_fits(width, height);
        }
        let n64: u64 = (width as u64) * (height as u64);
        if (pixels.len() as u64) != n64 {
            return Err(SortError::BadDimensions);
        }
        Ok(Raster { width, height, pixels })
    }

    /// Reads the pixel at column `x` of row `y`.
    pub fn get_pixel(&self, x: u32, y: u32) -> (p: Pixel)
        requires
            self.wf(),
            x < self.spec_width(),
            y < self.spec_height(),
        ensures
            p == self.pixel_at(x as int, y as int),
    {
        let n: usize = self.pixels.len();
        proof {
            lemma_grid_index(self.spec_width(), self.spec_height(), x as int, y as int);
            crate::frac::lemma_u32_mul_fits(y, self.width);
        }
        let i64: u64 = (y as u64) * (self.width as u64) + (x as u64);
        assert(i64 as int == y as int * self.spec_width() + x as int);
        assert(i64 < n as u64);
        let i: usize = i64 as usize;
        self.pixels[i]
    }

    /// Writes the pixel at column `x` of row `y`.
    pub fn put_pixel(&mut self, x: u32, y: u32, p: Pixel)
        requires
            old(self).wf(),
            x < old(self).spec_width(),
            y < old(self).spec_height(),
        ensures
            final(self).wf(),
            final(self).spec_width() == old(self).spec_width(),
            final(self).spec_height() == old(self).spec_height(),
            final(self)@ == old(self)@.update(
                y as int * old(self).spec_width() + x as int,
                p,
            ),
    {
        let n: usize = self.pixels.len();
        proof {
            lemma_grid_index(self.spec_width(), self.spec_height(), x as int, y as int);
            crate::frac::lemma_u32_mul_fits(y, self.width);
        }
        let i64: u64 = (y as u64) * (self.width as u64) + (x as u64);
        assert(i64 as int == y as int * self.spec_width() + x as int);
        assert(i64 < n as u64);
        let i: usize = i64 as usize;
        self.pixels.set(i, p);
    }

    /// A fresh raster with the same dimensions and contents.
    pub fn duplicate(&self) -> (r: Raster)
        requires
            self.wf(),
        ensures
            r.wf(),
            r.spec_width() == self.spec_width(),
            r.spec_height() == self.spec_height(),
            r@ == self@,
    {
        let mut pixels: Vec<Pixel> = Vec::new();
        let mut i: usize = 0;
        while i < self.pixels.len()
            invariant
                0 <= i <= self.pixels.len(),
                pixels@ == self.pixels@.take(i as int),
            decreases self.pixels.len() - i,
        {
            pixels.push(self.pixels[i]);
            i = i + 1;
        }
        assert(pixels@ =~= self.pixels@);
        Raster { width: self.width, height: self.height, pixels }
    }

    /// The flat row-major pixel contents, for callers outside the core.
    pub fn pixels(&self) -> (r: &Vec<Pixel>)
        ensures
            r@ == self@,
    {
        &self.pixels
    }
}

/// A raster's dimensions always fit the coordinate type.
pub proof fn lemma_raster_dims(r: Raster)
    ensures
        0 <= r.spec_width() <= u32::MAX,
        0 <= r.spec_height() <= u32::MAX,
{
}

/// Distinct grid coordinates have distinct flat indices.
pub proof fn lemma_grid_index_injective(w: int, x1: int, y1: int, x2: int, y2: int)
    requires
        0 <= x1 < w,
        0 <= x2 < w,
        0 <= y1,
        0 <= y2,
        y1 * w + x1 == y2 * w + x2,
    ensures
        x1 == x2 && y1 == y2,
{
    assert(x1 == x2 && y1 == y2) by (nonlinear_arith)
        requires
            0 <= x1 < w && 0 <= x2 < w && 0 <= y1 && 0 <= y2 && y1 * w + x1 == y2 * w + x2,
    ;
}

/// Two well-formed rasters of the same dimensions with the same pixel at
/// every coordinate have the same contents.
pub proof fn lemma_raster_pointwise_eq(a: Raster, b: Raster)
    requires
        a.wf(),
        b.wf(),
        a.spec_width() == b.spec_width(),
        a.spec_height() == b.spec_height(),
        forall|x: int, y: int|
            0 <= x < a.spec_width() && 0 <= y < a.spec_height() ==> #[trigger] a.pixel_at(x, y)
                == b.pixel_at(x, y),
    ensures
        a@ == b@,
{
    let w = a.spec_width();
    let h = a.spec_height();
    assert forall|idx: int| 0 <= idx < a@.len() implies a@[idx] == b@[idx] by {
        assert(w > 0) by (nonlinear_arith)
            requires
                0 <= idx < w * h,
                w >= 0,
                h >= 0,
        ;
        let y = idx / w;
        let x = idx % w;
        vstd::arithmetic::div_mod::lemma_fundamental_div_mod(idx, w);
        vstd::arithmetic::div_mod::lemma_mod_bound(idx, w);
        assert(0 <= x < w && 0 <= y < h) by (nonlinear_arith)
            requires
                idx == w * y + x,
                0 <= idx < w * h,
                w > 0,
                x == idx % w,
                y == idx / w,
                0 <= idx % w < w,
        ;
        assert(a.pixel_at(x, y) == b.pixel_at(x, y));
        assert(idx == y * w + x);
    }
    assert(a@ =~= b@);
}

/// A grid coordinate's flat index lies inside the grid's pixel vector.
pub proof fn lemma_grid_index(w: int, h: int, x: int, y: int)
    requires
        0 <= x < w,
        0 <= y < h,
    ensures
        0 <= y * w + x < w * h,
        y * w + x < h * w,
{
    assert(0 <= y * w + x < w * h && y * w + x < h * w) by (nonlinear_arith)
        requires 0 <= x < w && 0 <= y < h,
    ;
}

} // verus!
