//! Error diffusion: a single raster-order pass that quantizes each pixel and spreads
//! the rounding error over the four neighbours that the pass has not reached yet.
//!
//! | neighbour    | offset         | weight |
//! |--------------|----------------|--------|
//! | right        | (x + 1, y)     | 7/16   |
//! | bottom-left  | (x - 1, y + 1) | 3/16   |
//! | bottom       | (x, y + 1)     | 5/16   |
//! | bottom-right | (x + 1, y + 1) | 1/16   |
//!
//! A neighbour's channel becomes `clamp(old + round(error * weight), 0, 255)`, rounding
//! halves away from zero; its alpha is kept. Neighbours outside the image are skipped.
use vstd::prelude::*;
use crate::ConvertError;
use crate::quantize::{convert_to_se_color, is_level, lemma_quantize_on_palette, quantize_rgba, quantize_spec};
use crate::raster::{Rgba, RgbaImage};

verus! {

/// Share of the error that goes to the right neighbour, in sixteenths.
pub const RIGHT_DIFFUSION_RATE: i16 = 7;
/// Share of the error that goes to the bottom-left neighbour, in sixteenths.
pub const BOTTOM_LEFT_DIFFUSION_RATE: i16 = 3;
/// Share of the error that goes to the neighbour below, in sixteenths.
pub const BOTTOM_DIFFUSION_RATE: i16 = 5;
/// Share of the error that goes to the bottom-right neighbour, in sixteenths.
pub const BOTTOM_RIGHT_DIFFUSION_RATE: i16 = 1;

/// `v` clamped to the channel range `0..=255`.
pub open spec fn clamp_channel(v: int) -> u8 {
    if v < 0 {
        0
    } else if v > 255 {
        255
    } else {
        v as u8
    }
}

/// `e * rate / 16` rounded to the nearest integer, halves away from zero.
pub open spec fn weighted(e: int, rate: int) -> int {
    let n = e * rate;
    if n >= 0 {
        (n + 8) / 16
    } else {
        -((-n + 8) / 16)
    }
}

/// What quantizing takes off each colour channel of `p`.
pub open spec fn error_of(p: Rgba) -> (int, int, int) {
    (
        p.r - quantize_spec(p.r as int),
        p.g - quantize_spec(p.g as int),
        p.b - quantize_spec(p.b as int),
    )
}

/// `p` with `e` added to its colour channels, each clamped; alpha kept.
pub open spec fn add_error(p: Rgba, e: (int, int, int)) -> Rgba {
    Rgba {
        r: clamp_channel(p.r + e.0),
        g: clamp_channel(p.g + e.1),
        b: clamp_channel(p.b + e.2),
        a: p.a,
    }
}

/// The share `rate / 16` of the error triple `e`, channel by channel.
pub open spec fn weighted_error(e: (int, int, int), rate: int) -> (int, int, int) {
    (weighted(e.0, rate), weighted(e.1, rate), weighted(e.2, rate))
}

/// `s` with the share `rate / 16` of `e` added to the pixel at `i`.
pub open spec fn spread(s: Seq<Rgba>, i: int, e: (int, int, int), rate: int) -> Seq<Rgba> {
    s.update(i, add_error(s[i], weighted_error(e, rate)))
}

/// One visit of the pass, at column `x` of row `y` of a `w` × `h` grid.
pub open spec fn dither_step(s: Seq<Rgba>, w: int, h: int, x: int, y: int) -> Seq<Rgba> {
    let p = y * w + x;
    let e = error_of(s[p]);
    let s1 = s.update(p, quantize_rgba(s[p]));
    let s2 = if x + 1 < w {
        spread(s1, p + 1, e, 7)
    } else {
        s1
    };
    let s3 = if x > 0 && y + 1 < h {
        spread(s2, p + w - 1, e, 3)
    } else {
        s2
    };
    let s4 = if y + 1 < h {
        spread(s3, p + w, e, 5)
    } else {
        s3
    };
    if x + 1 < w && y + 1 < h {
        spread(s4, p + w + 1, e, 1)
    } else {
        s4
    }
}

/// The grid after the pass has visited every row above `y` and the first `x` pixels of row `y`.
pub open spec fn dither_upto(s: Seq<Rgba>, w: int, h: int, y: int, x: int) -> Seq<Rgba>
    decreases y, x,
{
    if x > 0 {
        dither_step(dither_upto(s, w, h, y, x - 1), w, h, x - 1, y)
    } else if y > 0 {
        dither_upto(s, w, h, y - 1, w)
    } else {
        s
    }
}

/// The grid after the whole pass.
pub open spec fn dithered(s: Seq<Rgba>, w: int, h: int) -> Seq<Rgba> {
    dither_upto(s, w, h, h, 0)
}

/// Every colour channel of `p` is one of the eight levels.
pub open spec fn on_palette(p: Rgba) -> bool {
    is_level(p.r as int) && is_level(p.g as int) && is_level(p.b as int)
}

/// One visit writes only inside the grid, keeps every alpha, finalizes the visited
/// pixel to a quantized colour, and touches no pixel but that one and its four
/// neighbours right and below: nothing before the visited position changes.
pub proof fn lemma_step_frame(s: Seq<Rgba>, w: int, h: int, x: int, y: int)
    requires
        0 <= x < w,
        0 <= y < h,
        s.len() == w * h,
    ensures
        dither_step(s, w, h, x, y).len() == s.len(),
        dither_step(s, w, h, x, y)[y * w + x] == quantize_rgba(s[y * w + x]),
        on_palette(dither_step(s, w, h, x, y)[y * w + x]),
        forall|j: int|
            0 <= j < s.len() ==> (#[trigger] dither_step(s, w, h, x, y)[j]).a == s[j].a,
        forall|j: int|
            0 <= j < s.len() && j != y * w + x && j != y * w + x + 1 && j != y * w + x + w - 1 && j
                != y * w + x + w && j != y * w + x + w + 1 ==> #[trigger] dither_step(s, w, h, x, y)[j]
                == s[j],
        forall|j: int| 0 <= j < y * w + x ==> #[trigger] dither_step(s, w, h, x, y)[j] == s[j],
{
    let p = y * w + x;
    lemma_grid_index(w, h, x, y);
    if y + 1 < h {
        lemma_grid_index(w, h, x, y + 1);
    }
    let px = s[p];
    lemma_quantize_on_palette(px.r as int);
    lemma_quantize_on_palette(px.g as int);
    lemma_quantize_on_palette(px.b as int);
    crate::quantize::lemma_level_bounds(px.r as int);
    crate::quantize::lemma_level_bounds(px.g as int);
    crate::quantize::lemma_level_bounds(px.b as int);
}

/// Partway through the pass, the grid keeps its length and every alpha, and every
/// pixel already visited holds a quantized colour.
proof fn lemma_upto_invariant(s: Seq<Rgba>, w: int, h: int, y: int, x: int)
    requires
        0 < w,
        0 <= y <= h,
        0 <= x <= w,
        y < h || x == 0,
        s.len() == w * h,
    ensures
        dither_upto(s, w, h, y, x).len() == s.len(),
        forall|j: int| 0 <= j < s.len() ==> (#[trigger] dither_upto(s, w, h, y, x)[j]).a == s[j].a,
        forall|j: int| 0 <= j < y * w + x ==> on_palette(#[trigger] dither_upto(s, w, h, y, x)[j]),
    decreases y, x,
{
    if x > 0 {
        lemma_upto_invariant(s, w, h, y, x - 1);
        let prev = dither_upto(s, w, h, y, x - 1);
        lemma_step_frame(prev, w, h, x - 1, y);
        assert(dither_upto(s, w, h, y, x) == dither_step(prev, w, h, x - 1, y));
        assert forall|j: int| 0 <= j < y * w + x implies on_palette(
            #[trigger] dither_upto(s, w, h, y, x)[j],
        ) by {
            if j < y * w + x - 1 {
                assert(dither_step(prev, w, h, x - 1, y)[j] == prev[j]);
            } else {
                assert(j == y * w + (x - 1));
            }
        }
    } else if y > 0 {
        lemma_upto_invariant(s, w, h, y - 1, w);
        assert((y - 1) * w + w == y * w) by (nonlinear_arith);
        assert(dither_upto(s, w, h, y, x) == dither_upto(s, w, h, y - 1, w));
        assert forall|j: int| 0 <= j < y * w + x implies on_palette(
            #[trigger] dither_upto(s, w, h, y, x)[j],
        ) by {
            assert(j < (y - 1) * w + w);
        }
    } else {
        assert(y * w == 0) by (nonlinear_arith)
            requires
                y == 0,
        ;
    }
}

/// After the whole pass the grid has as many pixels as before, every alpha is kept, and
/// every colour channel holds one of the eight levels: no value leaves `0..=255` and no
/// write falls outside the grid.
pub proof fn lemma_dithered_on_palette(s: Seq<Rgba>, w: int, h: int)
    requires
        0 < w,
        0 < h,
        s.len() == w * h,
    ensures
        dithered(s, w, h).len() == s.len(),
        forall|j: int| 0 <= j < s.len() ==> (#[trigger] dithered(s, w, h)[j]).a == s[j].a,
        forall|j: int| 0 <= j < s.len() ==> on_palette(#[trigger] dithered(s, w, h)[j]),
{
    lemma_upto_invariant(s, w, h, h, 0);
    assert(h * w == w * h) by (nonlinear_arith);
}

/// The per-channel difference between a pixel's colour and its quantized colour.
pub fn quantization_error(non_quantized: (u8, u8, u8), quantized: (u8, u8, u8)) -> (r: (
    i16,
    i16,
    i16,
))
    ensures
        r.0 == non_quantized.0 - quantized.0,
        r.1 == non_quantized.1 - quantized.1,
        r.2 == non_quantized.2 - quantized.2,
{
    (
        non_quantized.0 as i16 - quantized.0 as i16,
        non_quantized.1 as i16 - quantized.1 as i16,
        non_quantized.2 as i16 - quantized.2 as i16,
    )
}

fn weighted_channel(e: i16, rate: i16) -> (r: i16)
    requires
        i16::MIN <= e * rate <= i16::MAX,
    ensures
        r == weighted(e as int, rate as int),
{
    let n: i32 = (e as i32) * (rate as i32);
    if n >= 0 {
        ((n + 8) / 16) as i16
    } else {
        (-((-n + 8) / 16)) as i16
    }
}

/// The share `rate / 16` of a quantization error, each channel rounded to the nearest
/// integer, halves away from zero.
pub fn calculate_error(error: (i16, i16, i16), rate: i16) -> (r: (i16, i16, i16))
    requires
        i16::MIN <= error.0 * rate <= i16::MAX,
        i16::MIN <= error.1 * rate <= i16::MAX,
        i16::MIN <= error.2 * rate <= i16::MAX,
    ensures
        (r.0 as int, r.1 as int, r.2 as int) == weighted_error(
            (error.0 as int, error.1 as int, error.2 as int),
            rate as int,
        ),
{
    (
        weighted_channel(error.0, rate),
        weighted_channel(error.1, rate),
        weighted_channel(error.2, rate),
    )
}

fn add_error_to_channel(c: u8, e: i16) -> (r: u8)
    ensures
        r == clamp_channel(c + e),
{
    let v: i32 = c as i32 + e as i32;
    if v < 0 {
        0
    } else if v > 255 {
        255
    } else {
        v as u8
    }
}

/// Adds an error triple to the colour channels of a pixel, clamping each to `0..=255`.
pub fn add_error_to_color(color: &Rgba, error: (i16, i16, i16)) -> (r: Rgba)
    ensures
        r == add_error(*color, (error.0 as int, error.1 as int, error.2 as int)),
{
    Rgba {
        r: add_error_to_channel(color.r, error.0),
        g: add_error_to_channel(color.g, error.1),
        b: add_error_to_channel(color.b, error.2),
        a: color.a,
    }
}

/// Adds the share `rate / 16` of `error` to the pixel at position `i`.
fn spread_error(img: &mut RgbaImage, i: usize, error: (i16, i16, i16), rate: i16)
    requires
        old(img).wf(),
        i < old(img).pixel_count(),
        -255 <= error.0 <= 255,
        -255 <= error.1 <= 255,
        -255 <= error.2 <= 255,
        0 <= rate <= 16,
    ensures
        final(img).wf(),
        final(img).width == old(img).width,
        final(img).height == old(img).height,
        final(img).pixels() == spread(
            old(img).pixels(),
            i as int,
            (error.0 as int, error.1 as int, error.2 as int),
            rate as int,
        ),
{
    proof {
        assert(-255 * 16 <= error.0 * rate <= 255 * 16) by (nonlinear_arith)
            requires
                -255 <= error.0 <= 255,
                0 <= rate <= 16,
        ;
        assert(-255 * 16 <= error.1 * rate <= 255 * 16) by (nonlinear_arith)
            requires
                -255 <= error.1 <= 255,
                0 <= rate <= 16,
        ;
        assert(-255 * 16 <= error.2 * rate <= 255 * 16) by (nonlinear_arith)
            requires
                -255 <= error.2 <= 255,
                0 <= rate <= 16,
        ;
    }
    let pix = img.pixel_at(i);
    let share = calculate_error(error, rate);
    let new_pix = add_error_to_color(&pix, share);
    img.set_pixel_at(i, new_pix);
}

proof fn lemma_grid_index(w: int, h: int, x: int, y: int)
    requires
        0 <= x < w,
        0 <= y < h,
    ensures
        0 <= y * w,
        y * w + x < w * h,
        y * w + w <= w * h,
        (y + 1) * w == y * w + w,
{
    assert(0 <= y * w) by (nonlinear_arith)
        requires
            0 <= y,
            0 <= w,
    ;
    assert((y + 1) * w == y * w + w) by (nonlinear_arith);
    assert((y + 1) * w <= h * w) by (nonlinear_arith)
        requires
            y + 1 <= h,
            0 <= w,
    ;
    assert(h * w == w * h) by (nonlinear_arith);
}

/// Visits the pixel at column `x` of row `y`, position `p`: quantizes it and spreads
/// its error over the neighbours not visited yet.
fn dither_pixel(img: &mut RgbaImage, x: u32, y: u32, p: usize)
    requires
        old(img).wf(),
        x < old(img).width,
        y < old(img).height,
        p == (y as int) * (old(img).width as int) + x,
    ensures
        final(img).wf(),
        final(img).width == old(img).width,
        final(img).height == old(img).height,
        final(img).pixels() == dither_step(
            old(img).pixels(),
            old(img).width as int,
            old(img).height as int,
            x as int,
            y as int,
        ),
{
    let w: u32 = img.width;
    let h: u32 = img.height;
    let ghost n: int = (w as int) * (h as int);
    let ghost yw: int = (y as int) * (w as int);
    let len: usize = img.data.len();
    proof {
        assert(4 * n == len);
        lemma_grid_index(w as int, h as int, x as int, y as int);
        assert(yw + w <= n);
        if y + 1 < h {
            lemma_grid_index(w as int, h as int, x as int, y + 1);
            assert(yw + w + x < n);
        }
    }
    let wz: usize = w as usize;
    let ghost s0 = img.pixels();
    let pix = img.pixel_at(p);
    let quantized = convert_to_se_color(&pix);
    let error = quantization_error((pix.r, pix.g, pix.b), (quantized.r, quantized.g, quantized.b));
    let ghost e = (error.0 as int, error.1 as int, error.2 as int);
    assert(e == error_of(s0[p as int]));
    img.set_pixel_at(p, quantized);
    let ghost s1 = img.pixels();
    if x + 1 < w {
        spread_error(img, p + 1, error, RIGHT_DIFFUSION_RATE);
    }
    let ghost s2 = img.pixels();
    assert(s2 == if x + 1 < w { spread(s1, p + 1, e, 7) } else { s1 });
    if x > 0 && y + 1 < h {
        spread_error(img, p + wz - 1, error, BOTTOM_LEFT_DIFFUSION_RATE);
    }
    let ghost s3 = img.pixels();
    assert(s3 == if x > 0 && y + 1 < h { spread(s2, p + w - 1, e, 3) } else { s2 });
    if y + 1 < h {
        spread_error(img, p + wz, error, BOTTOM_DIFFUSION_RATE);
    }
    let ghost s4 = img.pixels();
    assert(s4 == if y + 1 < h { spread(s3, p + w, e, 5) } else { s3 });
    if x + 1 < w && y + 1 < h {
        spread_error(img, p + wz + 1, error, BOTTOM_RIGHT_DIFFUSION_RATE);
    }
}

/// Dithers the image in place: one pass in raster order that quantizes each pixel and
/// spreads its error over the neighbours not visited yet. An image with no pixels is
/// refused before the pass starts.
pub fn dither_image(img: &mut RgbaImage) -> (r: Result<(), ConvertError>)
    requires
        old(img).wf(),
    ensures
        final(img).wf(),
        final(img).width == old(img).width,
        final(img).height == old(img).height,
        (old(img).width == 0 || old(img).height == 0) ==> r == Err::<(), _>(
            ConvertError::InvalidDimensions,
        ) && *final(img) == *old(img),
        (old(img).width > 0 && old(img).height > 0) ==> r is Ok && final(img).pixels()
            == dithered(old(img).pixels(), old(img).width as int, old(img).height as int),
{
    let w: u32 = img.width;
    let h: u32 = img.height;
    if w == 0 || h == 0 {
        return Err(ConvertError::InvalidDimensions);
    }
    let len: usize = img.data.len();
    let ghost n: int = (w as int) * (h as int);
    let ghost orig = img.pixels();
    let wz: usize = w as usize;
    let mut y: u32 = 0;
    let mut row_start: usize = 0;
    while y < h
        invariant
            img.wf(),
            img.width == w,
            img.height == h,
            0 < w,
            y <= h,
            n == (w as int) * (h as int),
            4 * n == len,
            row_start == (y as int) * (w as int),
            wz == w,
            img.pixels() == dither_upto(orig, w as int, h as int, y as int, 0),
        decreases h - y,
    {
        proof {
            lemma_grid_index(w as int, h as int, 0, y as int);
        }
        let mut x: u32 = 0;
        while x < w
            invariant
                img.wf(),
                img.width == w,
                img.height == h,
                x <= w,
                y < h,
                n == (w as int) * (h as int),
                4 * n == len,
                row_start == (y as int) * (w as int),
                row_start + w <= n,
                wz == w,
                img.pixels() == dither_upto(orig, w as int, h as int, y as int, x as int),
            decreases w - x,
        {
            dither_pixel(img, x, y, row_start + x as usize);
            x = x + 1;
        }
        row_start = row_start + wz;
        y = y + 1;
    }
    Ok(())
}

} // verus!
