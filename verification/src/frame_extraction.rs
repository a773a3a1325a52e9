//! The filter pattern of a raw file, and a view of it.

use crate::exact::{
    exact_add, exact_coarse_mul, exact_cut, exact_from, is_exact, lemma_constants, lemma_nothing,
    lemma_zero, stands_for,
};
use crate::float::{units, FloatOp, FloatUnit};
use crate::frame::{lemma_index_pixel, lemma_pixel_index, RgbaBytes};
use crate::raw::{decode_file, decodes_to, is_pattern, pattern_color, Cfa, RawError, RawRecord};
use crate::text::same_text;
use vstd::arithmetic::power2::pow2;
use vstd::prelude::*;

verus! {

/// The share of red in the brightness of a color, 0.299.
pub const RED_SHARE: u32 = 0x3e99_1687;

/// The share of green in the brightness of a color, 0.587.
pub const GREEN_SHARE: u32 = 0x3f16_45a2;

/// The share of blue in the brightness of a color, 0.114.
pub const BLUE_SHARE: u32 = 0x3de9_78d5;

/// The name of the filter pattern of a decoded raw file.
pub fn cfa_pattern_of(raw: &RawRecord) -> (name: String)
    ensures
        name@ == raw.cfa_name@,
{
    raw.cfa_name.clone()
}

/// Whether `r` is the filter pattern where reading a file came out as `outcome`: the one that was
/// found, or why there is none.
pub open spec fn is_pattern_found(
    outcome: Result<RawRecord, RawError>,
    r: Result<String, RawError>,
) -> bool {
    match outcome {
        Ok(raw) => is_pattern(raw.cfa_name@) && (r matches Ok(name) && name@ == raw.cfa_name@),
        Err(e) => r == Err::<String, RawError>(e),
    }
}

/// The name of the filter pattern (for example "RGGB") of a raw file, as the decoder finds it. It
/// fails where the decoder does.
pub fn get_cfa_pattern(file_bytes: &Vec<u8>) -> (r: Result<String, RawError>)
    ensures
        exists|outcome: Result<RawRecord, RawError>| #[trigger]
            decodes_to(file_bytes, outcome) && is_pattern_found(outcome, r),
{
    let outcome = decode_file(file_bytes);
    let ghost found = outcome;
    let r = match outcome {
        Ok(raw) => Ok(cfa_pattern_of(&raw)),
        Err(e) => Err(e),
    };
    assert(decodes_to(file_bytes, found) && is_pattern_found(found, r));
    r
}

/// The filter color at column `x` of row `y` of a decoded raw file.
pub fn cfa_color_of(raw: &RawRecord, x: usize, y: usize) -> (color: usize)
    requires
        is_pattern(raw.cfa_name@),
    ensures
        color == pattern_color(raw.cfa_name@, y as int, x as int),
{
    Cfa::new(raw.cfa_name.as_str()).color_at(y, x)
}

/// Whether `r` is the filter color at column `x` of row `y` where reading a file came out as
/// `outcome`: that of the pattern that was found, or why there is none.
pub open spec fn is_color_found(
    outcome: Result<RawRecord, RawError>,
    x: int,
    y: int,
    r: Result<usize, RawError>,
) -> bool {
    match outcome {
        Ok(raw) => is_pattern(raw.cfa_name@) && (r matches Ok(color) && color == pattern_color(
            raw.cfa_name@,
            y,
            x,
        )),
        Err(e) => r == Err::<usize, RawError>(e),
    }
}

/// The filter color at column `x` of row `y` of a raw file: 0 for red, 1 for green, 2 for blue. It
/// fails where the decoder does.
pub fn get_cfa_color_at(file_bytes: &Vec<u8>, x: usize, y: usize) -> (r: Result<usize, RawError>)
    ensures
        exists|outcome: Result<RawRecord, RawError>| #[trigger]
            decodes_to(file_bytes, outcome) && is_color_found(outcome, x as int, y as int, r),
{
    let outcome = decode_file(file_bytes);
    let ghost found = outcome;
    let r = match outcome {
        Ok(raw) => Ok(cfa_color_of(&raw, x, y)),
        Err(e) => Err(e),
    };
    assert(decodes_to(file_bytes, found) && is_color_found(found, x as int, y as int, r));
    r
}

/// The brightness of a pixel.
pub open spec fn brightness<F: Fn(FloatOp) -> u64>(
    fpu: &FloatUnit<F>,
    image: &RgbaBytes,
    x: int,
    y: int,
) -> u8 {
    fpu.to_u8(
        fpu.add(
            fpu.add(
                fpu.mul(fpu.from_u64(image.at(x, y, 0) as u64), RED_SHARE),
                fpu.mul(fpu.from_u64(image.at(x, y, 1) as u64), GREEN_SHARE),
            ),
            fpu.mul(fpu.from_u64(image.at(x, y, 2) as u64), BLUE_SHARE),
        ),
    )
}

/// Whether channel `c` of the pixel at (`x`, `y`) shows the brightness: for an "RGGB" mosaic the
/// channel of the filter, else all of them.
pub open spec fn shows(pattern: Seq<char>, x: int, y: int, c: int) -> bool {
    pattern == "RGGB"@ ==> c == x % 2 + y % 2
}

/// Channel `c` of a pixel of the view.
pub open spec fn view_at<F: Fn(FloatOp) -> u64>(
    fpu: &FloatUnit<F>,
    image: &RgbaBytes,
    pattern: Seq<char>,
    x: int,
    y: int,
    c: int,
) -> u8 {
    if c == 3 {
        255
    } else if shows(pattern, x, y, c) {
        brightness(fpu, image, x, y)
    } else {
        0
    }
}

/// A color-coded view of an image that shows which pixel is under which color filter.
///
/// For an "RGGB" mosaic each pixel keeps its brightness in the channel of its filter; for any other
/// pattern the view is gray.
pub fn visualize_cfa_from_image<F: Fn(FloatOp) -> u64>(
    fpu: &FloatUnit<F>,
    image: &RgbaBytes,
    cfa_pattern: &str,
) -> (out: RgbaBytes)
    requires
        image.wf(),
    ensures
        out.wf(),
        out.width == image.width,
        out.height == image.height,
        forall|x: int, y: int, c: int|
            0 <= x < out.width && 0 <= y < out.height && 0 <= c < 4 ==> #[trigger] out.at(x, y, c)
                == view_at(fpu, image, cfa_pattern@, x, y, c),
{
    let width = image.width;
    let height = image.height;
    let mosaic = same_text(cfa_pattern, "RGGB");
    proof {
        assert(image.bytes.len() == image.bytes@.len());
        assert(0 <= width * height) by (nonlinear_arith)
            requires
                0 <= width,
                0 <= height,
        ;
    }
    let count: usize = width as usize * height as usize;
    let mut bytes: Vec<u8> = Vec::with_capacity(count * 4);
    let mut i: usize = 0;
    while i < count
        invariant
            i <= count,
            count == width * height,
            image.wf(),
            width == image.width,
            height == image.height,
            mosaic == (cfa_pattern@ == "RGGB"@),
            bytes@.len() == i * 4,
            forall|k: int, c: int|
                0 <= k < i && 0 <= c < 4 ==> #[trigger] bytes@[k * 4 + c] == view_at(
                    fpu,
                    image,
                    cfa_pattern@,
                    k % (width as int),
                    k / (width as int),
                    c,
                ),
        decreases count - i,
    {
        proof {
            lemma_index_pixel(i as int, width as int, height as int);
        }
        let x: u32 = (i % width as usize) as u32;
        let y: u32 = (i / width as usize) as u32;
        let lum = fpu.to_u8(
            fpu.add(
                fpu.add(
                    fpu.mul(fpu.from_u64(image.get(x, y, 0) as u64), RED_SHARE),
                    fpu.mul(fpu.from_u64(image.get(x, y, 1) as u64), GREEN_SHARE),
                ),
                fpu.mul(fpu.from_u64(image.get(x, y, 2) as u64), BLUE_SHARE),
            ),
        );
        let (r, g, b): (u8, u8, u8) = if mosaic {
            match (y % 2, x % 2) {
                (0, 0) => (lum, 0, 0),
                (1, 1) => (0, 0, lum),
                _ => (0, lum, 0),
            }
        } else {
            (lum, lum, lum)
        };
        let ghost before = bytes@;
        bytes.push(r);
        bytes.push(g);
        bytes.push(b);
        bytes.push(255);
        assert forall|k: int, c: int| 0 <= k < i + 1 && 0 <= c < 4 implies #[trigger] bytes@[k * 4
            + c] == view_at(
            fpu,
            image,
            cfa_pattern@,
            k % (width as int),
            k / (width as int),
            c,
        ) by {
            if k < i {
                assert(bytes@[k * 4 + c] == before[k * 4 + c]);
            }
        }
        i = i + 1;
    }
    let out = RgbaBytes { width, height, bytes };
    assert forall|x: int, y: int, c: int|
        0 <= x < out.width && 0 <= y < out.height && 0 <= c < 4 implies #[trigger] out.at(x, y, c)
        == view_at(fpu, image, cfa_pattern@, x, y, c) by {
        lemma_pixel_index(x, y, width as int, height as int);
    }
    out
}

/// The view of an "RGGB" mosaic shows each pixel in the color of its filter alone, as bright as the gray
/// view of another pattern does: red where row and column are even, blue where both are odd, green
/// elsewhere.
pub proof fn views_show_filters<F: Fn(FloatOp) -> u64>(
    fpu: &FloatUnit<F>,
    image: &RgbaBytes,
    other: Seq<char>,
    x: int,
    y: int,
)
    requires
        other != "RGGB"@,
        0 <= x,
        0 <= y,
    ensures
        ({
            let gray = view_at(fpu, image, other, x, y, 0);
            let (red, green, blue) = (
                view_at(fpu, image, "RGGB"@, x, y, 0),
                view_at(fpu, image, "RGGB"@, x, y, 1),
                view_at(fpu, image, "RGGB"@, x, y, 2),
            );
            &&& view_at(fpu, image, other, x, y, 1) == gray
            &&& view_at(fpu, image, other, x, y, 2) == gray
            &&& x % 2 == 0 && y % 2 == 0 ==> (red, green, blue) == (gray, 0u8, 0u8)
            &&& x % 2 == 1 && y % 2 == 1 ==> (red, green, blue) == (0u8, 0u8, gray)
            &&& x % 2 != y % 2 ==> (red, green, blue) == (0u8, gray, 0u8)
        }),
{
}

/// Brightness counts red by 0.299, green by 0.587 and blue by 0.114, to the digits of single precision:
/// a pixel with one channel lit, by a power of two, is as bright as its share.
pub proof fn brightness_counts_channels<F: Fn(FloatOp) -> u64>(
    fpu: &FloatUnit<F>,
    image: &RgbaBytes,
    x: int,
    y: int,
    k: nat,
    c: int,
)
    requires
        is_exact(fpu),
        k <= 7,
        0 <= c < 3,
        image.at(x, y, c) == pow2(k),
        forall|d: int| 0 <= d < 3 && d != c ==> #[trigger] image.at(x, y, d) == 0,
    ensures
        c == 0 ==> brightness(fpu, image, x, y) == 10032775 * pow2(k) / 0x200_0000,
        c == 1 ==> brightness(fpu, image, x, y) == 9848226 * pow2(k) / 0x100_0000,
        c == 2 ==> brightness(fpu, image, x, y) == 15300821 * pow2(k) / 0x800_0000,
{
    lemma_constants();
    vstd::arithmetic::power2::lemma2_to64();
    let p = pow2(k) as int;
    if k < 7 {
        vstd::arithmetic::power2::lemma_pow2_strictly_increases(k, 7);
    }
    vstd::arithmetic::power2::lemma_pow2_pos(k);
    assert(stands_for(RED_SHARE, 10032775, 25) && stands_for(GREEN_SHARE, 9848226, 24)
        && stands_for(BLUE_SHARE, 15300821, 27)) by {
        reveal(stands_for);
        assert(units(RED_SHARE as int) == 10032775 * pow2(124));
        assert(units(GREEN_SHARE as int) == 9848226 * pow2(125));
        assert(units(BLUE_SHARE as int) == 15300821 * pow2(122));
    }
    exact_from(fpu, 0);
    exact_from(fpu, p);
    let (z, v) = (fpu.from_u64(0), fpu.from_u64(p as u64));
    lemma_nothing(fpu, RED_SHARE, z, 0);
    lemma_nothing(fpu, GREEN_SHARE, z, 0);
    lemma_nothing(fpu, BLUE_SHARE, z, 0);
    let (r, g, b) = (
        fpu.mul(if c == 0 { v } else { z }, RED_SHARE),
        fpu.mul(if c == 1 { v } else { z }, GREEN_SHARE),
        fpu.mul(if c == 2 { v } else { z }, BLUE_SHARE),
    );
    let (n, s): (int, nat) = if c == 0 {
        (10032775, (25 - k) as nat)
    } else if c == 1 {
        (9848226, (24 - k) as nat)
    } else {
        (15300821, (27 - k) as nat)
    };
    assert(p * 10032775 == 10032775 * p && p * 9848226 == 9848226 * p && p * 15300821 == 15300821
        * p) by (nonlinear_arith);
    exact_coarse_mul(fpu, v, RED_SHARE, p, 10032775, 0, 25, 10032775, k);
    exact_coarse_mul(fpu, v, GREEN_SHARE, p, 9848226, 0, 24, 9848226, k);
    exact_coarse_mul(fpu, v, BLUE_SHARE, p, 15300821, 0, 27, 15300821, k);
    if c != 0 {
        lemma_zero(r, 0, s);
    }
    if c != 1 {
        lemma_zero(g, 0, s);
    }
    if c != 2 {
        lemma_zero(b, 0, s);
    }
    let (nr, ng, nb) = (
        if c == 0 {
            n
        } else {
            0
        },
        if c == 1 {
            n
        } else {
            0
        },
        if c == 2 {
            n
        } else {
            0
        },
    );
    exact_add(fpu, r, g, nr, ng, s);
    exact_add(fpu, fpu.add(r, g), b, nr + ng, nb, s);
    let sum = fpu.add(fpu.add(r, g), b);
    exact_cut(fpu, sum, n, s);
    let whole = if c == 0 {
        0x200_0000int
    } else if c == 1 {
        0x100_0000int
    } else {
        0x800_0000int
    };
    let q = pow2(s) as int;
    vstd::arithmetic::power2::lemma_pow2_adds(s, k);
    vstd::arithmetic::power2::lemma_pow2_pos(s);
    assert(q * p == whole);
    assert((n * p) / (q * p) == n / q) by {
        vstd::arithmetic::div_mod::lemma_div_denominator(n * p, p, q);
        vstd::arithmetic::div_mod::lemma_div_by_multiple(n, p);
        assert(p * q == q * p) by (nonlinear_arith);
    }
    assert(n / q <= 255) by (nonlinear_arith)
        requires
            (n * p) / (q * p) == n / q,
            0 < n <= 15300821,
            1 <= p <= 128,
            q * p == whole,
            whole >= 0x100_0000,
            q > 0,
            n * p <= 255 * whole,
    ;
    assert(image.at(x, y, 0) == if c == 0 {
        p
    } else {
        0
    });
    assert(image.at(x, y, 1) == if c == 1 {
        p
    } else {
        0
    });
    assert(image.at(x, y, 2) == if c == 2 {
        p
    } else {
        0
    });
    assert(brightness(fpu, image, x, y) == fpu.to_u8(sum));
}

} // verus!
