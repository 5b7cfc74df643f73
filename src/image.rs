use vstd::arithmetic::div_mod::lemma_fundamental_div_mod_converse;
use vstd::prelude::*;

verus! {

/// The 32-bit value that holds the four 8-bit channels, red in the lowest byte,
/// then green, blue and alpha.
pub open spec fn packed(r: u8, g: u8, b: u8, a: u8) -> int {
    r as int + 0x100 * (g as int) + 0x1_0000 * (b as int) + 0x100_0000 * (a as int)
}

/// Packs four 8-bit channels into one pixel value, red in the lowest byte.
pub fn rgba(r: u8, g: u8, b: u8, a: u8) -> (c: u32)
    ensures
        c == packed(r, g, b, a),
{
    let (r32, g32, b32, a32) = (r as u32, g as u32, b as u32, a as u32);
    assert(g32 << 8u32 == g32 * 0x100) by (bit_vector)
        requires g32 < 0x100;
    assert(b32 << 16u32 == b32 * 0x1_0000) by (bit_vector)
        requires b32 < 0x100;
    assert(a32 << 24u32 == a32 * 0x100_0000) by (bit_vector)
        requires a32 < 0x100;
    r32 + (g32 << 8u32) + (b32 << 16u32) + (a32 << 24u32)
}

/// Each channel can be read back from the packed value, which fits in 32 bits:
/// red is the lowest byte, then green, blue, and alpha the highest.
pub proof fn lemma_channels_of_packed(r: u8, g: u8, b: u8, a: u8)
    ensures
        0 <= packed(r, g, b, a) <= u32::MAX,
        packed(r, g, b, a) % 0x100 == r,
        (packed(r, g, b, a) / 0x100) % 0x100 == g,
        (packed(r, g, b, a) / 0x1_0000) % 0x100 == b,
        packed(r, g, b, a) / 0x100_0000 == a,
{
    let (ri, gi, bi, ai) = (r as int, g as int, b as int, a as int);
    let p = packed(r, g, b, a);
    let hi = gi + 0x100 * bi + 0x1_0000 * ai;
    let top = bi + 0x100 * ai;
    lemma_fundamental_div_mod_converse(p, 0x100, hi, ri);
    lemma_fundamental_div_mod_converse(hi, 0x100, top, gi);
    lemma_fundamental_div_mod_converse(top, 0x100, ai, bi);
    lemma_fundamental_div_mod_converse(p, 0x1_0000, top, ri + 0x100 * gi);
    lemma_fundamental_div_mod_converse(p, 0x100_0000, ai, ri + 0x100 * gi + 0x1_0000 * bi);
}

/// Place of pixel `(x, y)` in a row-major grid `width` pixels wide.
pub open spec fn pixel_index(width: int, x: int, y: int) -> int {
    y * width + x
}

/// Distinct pixels of a grid have distinct places, all inside the grid.
pub proof fn lemma_pixel_index(width: int, height: int, x1: int, y1: int, x2: int, y2: int)
    requires
        0 <= x1 < width,
        0 <= y1 < height,
        0 <= x2 < width,
        0 <= y2 < height,
    ensures
        0 <= pixel_index(width, x1, y1) < width * height,
        pixel_index(width, x1, y1) == pixel_index(width, x2, y2) <==> (x1 == x2 && y1 == y2),
{
    assert(0 <= y1 * width + x1 < width * height) by (nonlinear_arith)
        requires 0 <= x1 < width, 0 <= y1 < height;
    if y1 < y2 {
        assert(y1 * width + x1 < y2 * width + x2) by (nonlinear_arith)
            requires 0 <= x1 < width, y1 < y2, 0 <= x2;
    } else if y2 < y1 {
        assert(y2 * width + x2 < y1 * width + x1) by (nonlinear_arith)
            requires 0 <= x2 < width, y2 < y1, 0 <= x1;
    }
}

/// A `width` by `height` grid of packed RGBA pixels, row-major, with row 0 at
/// the top of the image.
pub struct ImageBuffer {
    width: u32,
    height: u32,
    data: Vec<u32>,
}

impl View for ImageBuffer {
    type V = Seq<u32>;

    /// The pixels, row after row.
    closed spec fn view(&self) -> Seq<u32> {
        self.data@
    }
}

impl ImageBuffer {
    /// The grid holds one value for each pixel.
    pub open spec fn wf(&self) -> bool {
        self@.len() == self.spec_width() as int * self.spec_height() as int
    }

    pub closed spec fn spec_width(&self) -> u32 {
        self.width
    }

    pub closed spec fn spec_height(&self) -> u32 {
        self.height
    }

    /// A grid of the given size, every pixel 0.
    pub fn new(width: u32, height: u32) -> (ib: ImageBuffer)
        requires
            width as int * height as int <= u32::MAX,
        ensures
            ib.wf(),
            ib.spec_width() == width,
            ib.spec_height() == height,
            ib@ == Seq::new((width as int * height as int) as nat, |i: int| 0u32),
    {
        let n = width * height;
        let data: Vec<u32> = vec![0u32; n as usize];
        ImageBuffer { width, height, data }
    }

    #[verifier::when_used_as_spec(spec_width)]
    pub fn width(&self) -> (w: u32)
        ensures
            w == self.spec_width(),
    {
        self.width
    }

    #[verifier::when_used_as_spec(spec_height)]
    pub fn height(&self) -> (h: u32)
        ensures
            h == self.spec_height(),
    {
        self.height
    }

    /// Writes `color` at column `x` of row `y`.
    pub fn set_pixel(&mut self, x: u32, y: u32, color: u32)
        requires
            old(self).wf(),
            x < old(self).spec_width(),
            y < old(self).spec_height(),
        ensures
            final(self).wf(),
            final(self).spec_width() == old(self).spec_width(),
            final(self).spec_height() == old(self).spec_height(),
            final(self)@ == old(self)@.update(pixel_index(old(self).spec_width() as int, x as int, y as int), color),
    {
        let i = self.index_of(x, y);
        self.data.set(i, color);
    }

    /// The value at column `x` of row `y`.
    pub fn pixel(&self, x: u32, y: u32) -> (c: u32)
        requires
            self.wf(),
            x < self.spec_width(),
            y < self.spec_height(),
        ensures
            c == self@[pixel_index(self.spec_width() as int, x as int, y as int)],
    {
        let i = self.index_of(x, y);
        self.data[i]
    }

    /// The pixels, row after row.
    pub fn data(&self) -> (d: &Vec<u32>)
        ensures
            d@ == self@,
    {
        &self.data
    }

    fn index_of(&self, x: u32, y: u32) -> (i: usize)
        requires
            self.wf(),
            x < self.width,
            y < self.height,
        ensures
            i == pixel_index(self.width as int, x as int, y as int),
            i < self@.len(),
    {
        let _n: usize = self.data.len();
        proof {
            let (w, h, xi, yi) = (self.width as int, self.height as int, x as int, y as int);
            assert(yi * w + xi < w * h) by (nonlinear_arith)
                requires 0 <= xi < w, 0 <= yi < h;
            assert(0 <= yi * w) by (nonlinear_arith)
                requires 0 <= xi < w, 0 <= yi;
        }
        (y as usize) * (self.width as usize) + (x as usize)
    }
}

} // verus!
