//! Images as flat sample buffers, row after row.

use vstd::prelude::*;

verus! {

/// An RGBA image of single-precision samples.
pub struct RgbaFrame {
    /// Pixels per row.
    pub width: u32,
    /// Number of rows.
    pub height: u32,
    /// Bit patterns of the samples: four per pixel, pixel after pixel, row after row.
    pub samples: Vec<u32>,
}

/// A grayscale image of eight-bit pixels.
pub struct GrayFrame {
    /// Pixels per row.
    pub width: u32,
    /// Number of rows.
    pub height: u32,
    /// One byte per pixel, row after row.
    pub pixels: Vec<u8>,
}

/// An RGB image of eight-bit samples.
pub struct RgbBytes {
    /// Pixels per row.
    pub width: u32,
    /// Number of rows.
    pub height: u32,
    /// Three bytes per pixel, pixel after pixel, row after row.
    pub bytes: Vec<u8>,
}

/// An RGBA image of eight-bit samples.
pub struct RgbaBytes {
    /// Pixels per row.
    pub width: u32,
    /// Number of rows.
    pub height: u32,
    /// Four bytes per pixel, pixel after pixel, row after row.
    pub bytes: Vec<u8>,
}

/// The index of the pixel at column `x` of row `y` in rows of `width` pixels.
pub open spec fn pixel_index(x: int, y: int, width: int) -> int {
    y * width + x
}

/// The index of a pixel lies within the image, and gives its column and row back.
pub proof fn lemma_pixel_index(x: int, y: int, width: int, height: int)
    requires
        0 <= x < width,
        0 <= y < height,
    ensures
        0 <= pixel_index(x, y, width) < width * height,
        pixel_index(x, y, width) % width == x,
        pixel_index(x, y, width) / width == y,
        0 <= y * width <= pixel_index(x, y, width),
{
    assert(y * width + width <= width * height) by (nonlinear_arith)
        requires
            0 <= y < height,
            0 < width,
    ;
    assert(0 <= y * width) by (nonlinear_arith)
        requires
            0 <= y,
            0 < width,
    ;
    vstd::arithmetic::div_mod::lemma_fundamental_div_mod_converse(y * width + x, width, y, x);
}

/// Every index within the image is that of a pixel.
pub proof fn lemma_index_pixel(i: int, width: int, height: int)
    requires
        0 <= i < width * height,
        0 <= width,
        0 <= height,
    ensures
        0 < width,
        0 < height,
        0 <= i % width < width,
        0 <= i / width < height,
        pixel_index(i % width, i / width, width) == i,
{
    assert(width > 0 && height > 0) by (nonlinear_arith)
        requires
            0 < width * height,
            0 <= width,
            0 <= height,
    ;
    vstd::arithmetic::div_mod::lemma_fundamental_div_mod(i, width);
    assert(width * (i / width) == (i / width) * width) by (nonlinear_arith);
    assert(0 <= i / width < height) by (nonlinear_arith)
        requires
            0 <= i < width * height,
            0 < width,
            i == width * (i / width) + i % width,
            0 <= i % width < width,
    ;
}

/// Whether `p` is the place of a line of `len` places that lies nearest to `v`.
pub open spec fn is_nearest(p: int, v: int, len: int) -> bool {
    &&& 0 <= p < len
    &&& 0 <= v < len ==> p == v
    &&& v < 0 ==> p == 0
    &&& v >= len ==> p == len - 1
}

/// The pixels of an image can be counted in sixty-four bits.
pub proof fn lemma_pixel_product(width: u32, height: u32)
    ensures
        0 <= width * height <= 0xffff_ffff * 0xffff_ffff,
{
    assert(0 <= width * height <= 0xffff_ffff * 0xffff_ffff) by (nonlinear_arith)
        requires
            0 <= width <= 0xffff_ffff,
            0 <= height <= 0xffff_ffff,
    ;
}

impl RgbaFrame {
    /// Whether the buffer holds four samples for each pixel.
    pub fn is_complete(&self) -> (r: bool)
        ensures
            r == self.wf(),
    {
        proof {
            lemma_pixel_product(self.width, self.height);
        }
        let pixels: u64 = self.width as u64 * self.height as u64;
        let len: u64 = self.samples.len() as u64;
        len % 4 == 0 && len / 4 == pixels
    }

    /// Whether the buffer holds four samples for each pixel.
    pub open spec fn wf(&self) -> bool {
        self.samples@.len() == self.width * self.height * 4
    }

    /// The sample of channel `c` (0 to 3 for red, green, blue and alpha) at column `x` of row `y`.
    pub open spec fn at(&self, x: int, y: int, c: int) -> u32 {
        self.samples@[pixel_index(x, y, self.width as int) * 4 + c]
    }

    /// Whether two frames have the same size and the same samples.
    pub open spec fn same_as(&self, other: &RgbaFrame) -> bool {
        &&& self.width == other.width
        &&& self.height == other.height
        &&& self.samples@ == other.samples@
    }

    /// The sample of channel `c` at column `x` of row `y`.
    pub fn get(&self, x: u32, y: u32, c: u32) -> (r: u32)
        requires
            self.wf(),
            x < self.width,
            y < self.height,
            c < 4,
        ensures
            r == self.at(x as int, y as int, c as int),
    {
        proof {
            lemma_pixel_index(x as int, y as int, self.width as int, self.height as int);
            assert(self.samples.len() == self.samples@.len());
        }
        self.samples[(y as usize * self.width as usize + x as usize) * 4 + c as usize]
    }

    /// An equal frame.
    pub fn copied(&self) -> (r: RgbaFrame)
        ensures
            r.same_as(self),
    {
        RgbaFrame { width: self.width, height: self.height, samples: self.samples.clone() }
    }
}

impl GrayFrame {
    /// Whether the buffer holds one byte for each pixel.
    pub fn is_complete(&self) -> (r: bool)
        ensures
            r == self.wf(),
    {
        proof {
            lemma_pixel_product(self.width, self.height);
        }
        self.pixels.len() as u64 == self.width as u64 * self.height as u64
    }

    /// Whether the buffer holds one byte for each pixel.
    pub open spec fn wf(&self) -> bool {
        self.pixels@.len() == self.width * self.height
    }

    /// The pixel at column `x` of row `y`.
    pub open spec fn at(&self, x: int, y: int) -> u8 {
        self.pixels@[pixel_index(x, y, self.width as int)]
    }

    /// The pixel at column `x` of row `y`.
    pub fn get(&self, x: u32, y: u32) -> (r: u8)
        requires
            self.wf(),
            x < self.width,
            y < self.height,
        ensures
            r == self.at(x as int, y as int),
    {
        proof {
            lemma_pixel_index(x as int, y as int, self.width as int, self.height as int);
            assert(self.pixels.len() == self.pixels@.len());
        }
        self.pixels[y as usize * self.width as usize + x as usize]
    }
}

impl RgbBytes {
    /// Whether the buffer holds three bytes for each pixel.
    pub open spec fn wf(&self) -> bool {
        self.bytes@.len() == self.width * self.height * 3
    }

    /// The sample of channel `c` (0 to 2 for red, green and blue) at column `x` of row `y`.
    pub open spec fn at(&self, x: int, y: int, c: int) -> u8 {
        self.bytes@[pixel_index(x, y, self.width as int) * 3 + c]
    }
}

impl RgbaBytes {
    /// Whether the buffer holds four bytes for each pixel.
    pub open spec fn wf(&self) -> bool {
        self.bytes@.len() == self.width * self.height * 4
    }

    /// The sample of channel `c` (0 to 3 for red, green, blue and alpha) at column `x` of row `y`.
    pub open spec fn at(&self, x: int, y: int, c: int) -> u8 {
        self.bytes@[pixel_index(x, y, self.width as int) * 4 + c]
    }

    /// The sample of channel `c` at column `x` of row `y`.
    pub fn get(&self, x: u32, y: u32, c: u32) -> (r: u8)
        requires
            self.wf(),
            x < self.width,
            y < self.height,
            c < 4,
        ensures
            r == self.at(x as int, y as int, c as int),
    {
        proof {
            lemma_pixel_index(x as int, y as int, self.width as int, self.height as int);
            assert(self.bytes.len() == self.bytes@.len());
        }
        self.bytes[(y as usize * self.width as usize + x as usize) * 4 + c as usize]
    }
}

} // verus!
