//! Encoding pixels as glyphs, and assembling the glyphs into the panel text.
//!
//! A colour pixel becomes the glyph `0xE100 + (R << 6 | G << 3 | B)`, where `R`, `G`, `B`
//! are the channels' level indices in `0..=7`; with three bits each the packing is
//! `64 R + 8 G + B`. When transparency is kept, a pixel of alpha zero becomes a space,
//! or, in the escape mode, the three glyphs `U+E075 U+E072 U+E070`.
//! Rows are joined by one `'\n'` each, with none after the last row: `height` rows of
//! `width` glyphs and `height - 1` separators.
use vstd::prelude::*;
use crate::ConvertError;
use crate::dither::{dither_image, dithered};
use crate::quantize::{channel_level, level_index};
use crate::raster::{Rgba, RgbaImage};

verus! {

/// The code point of the glyph of colour index 0.
pub const GLYPH_BASE: u32 = 0xE100;
/// The glyph of a fully transparent pixel when transparency is kept.
pub const TRANSPARENCY_GLYPH: char = ' ';
/// The separator between two rows.
pub const ROW_SEPARATOR: char = '\n';

/// How a kept transparent pixel is written.
#[derive(Clone, Copy, Debug, PartialEq, Eq, Structural)]
pub enum TransparencyMode {
    /// One space, so every row has exactly `width` glyphs.
    Sentinel,
    /// The three-glyph escape `U+E075 U+E072 U+E070`.
    Escape,
}

/// The three-glyph escape of a transparent pixel.
pub open spec fn escape_codes() -> Seq<u32> {
    seq![0xE075u32, 0xE072u32, 0xE070u32]
}

/// The 9-bit colour index of a pixel: three bits of level index per channel.
pub open spec fn color_index(p: Rgba) -> int {
    64 * level_index(p.r as int) + 8 * level_index(p.g as int) + level_index(p.b as int)
}

/// The code point of the glyph that encodes `p`.
pub open spec fn glyph_code(p: Rgba, preserve_transparency: bool) -> u32 {
    if preserve_transparency && p.a == 0 {
        TRANSPARENCY_GLYPH as u32
    } else {
        (GLYPH_BASE + color_index(p)) as u32
    }
}

/// The codes that a pixel is written as.
pub open spec fn pixel_codes(p: Rgba, pt: bool, mode: TransparencyMode) -> Seq<u32> {
    if pt && p.a == 0 && mode == TransparencyMode::Escape {
        escape_codes()
    } else {
        seq![glyph_code(p, pt)]
    }
}

/// The code points of a text.
pub open spec fn codes_of(s: Seq<char>) -> Seq<u32> {
    s.map_values(|c: char| c as u32)
}

/// The codes of the first `x` pixels of row `y` of a grid `w` pixels wide.
pub open spec fn row_codes(
    px: Seq<Rgba>,
    w: int,
    y: int,
    x: int,
    pt: bool,
    mode: TransparencyMode,
) -> Seq<u32>
    decreases x,
{
    if x <= 0 {
        seq![]
    } else {
        row_codes(px, w, y, x - 1, pt, mode) + pixel_codes(px[y * w + x - 1], pt, mode)
    }
}

/// The codes of the first `rows` rows of a `w` × `h` grid, each row but the last
/// followed by the separator.
pub open spec fn lines_codes(
    px: Seq<Rgba>,
    w: int,
    h: int,
    rows: int,
    pt: bool,
    mode: TransparencyMode,
) -> Seq<u32>
    decreases rows,
{
    if rows <= 0 {
        seq![]
    } else {
        let before = lines_codes(px, w, h, rows - 1, pt, mode) + row_codes(
            px,
            w,
            rows - 1,
            w,
            pt,
            mode,
        );
        if rows < h {
            before.push(ROW_SEPARATOR as u32)
        } else {
            before
        }
    }
}

/// The codes of the panel text of a `w` × `h` image with pixels `px`.
pub open spec fn se_codes(
    px: Seq<Rgba>,
    w: int,
    h: int,
    dither: bool,
    pt: bool,
    mode: TransparencyMode,
) -> Seq<u32> {
    let grid = if dither {
        dithered(px, w, h)
    } else {
        px
    };
    lines_codes(grid, w, h, h, pt, mode)
}

/// Relies on std's `char::from_u32`: `Some` exactly for a Unicode scalar value, holding it.
#[verifier::external_body]
fn char_from_code(code: u32) -> (r: Option<char>)
    ensures
        r is Some <==> (code < 0xD800 || (0xE000 <= code && code < 0x110000)),
        r matches Some(c) ==> c as u32 == code,
{
    char::from_u32(code)
}

/// Relies on std's `String::push`: appends one char at the end.
#[verifier::external_body]
fn push_char(s: &mut String, c: char)
    ensures
        final(s)@ == old(s)@.push(c),
{
    s.push(c)
}

fn push_glyph(s: &mut String, c: char)
    ensures
        final(s)@ == old(s)@.push(c),
        codes_of(final(s)@) == codes_of(old(s)@).push(c as u32),
{
    push_char(s, c);
    assert(codes_of(s@) =~= codes_of(old(s)@).push(c as u32));
}

/// Converts a colour into the glyph that shows it on the panel: the transparency glyph
/// where transparency is kept and alpha is zero, else the glyph of its colour index.
pub fn to_se_char(color: &Rgba, preserve_transparency: bool) -> (r: char)
    ensures
        r as u32 == glyph_code(*color, preserve_transparency),
{
    if preserve_transparency && color.a == 0 {
        return TRANSPARENCY_GLYPH;
    }
    let r: u32 = channel_level(color.r) as u32;
    let g: u32 = channel_level(color.g) as u32;
    let b: u32 = channel_level(color.b) as u32;
    let code: u32 = GLYPH_BASE + 64 * r + 8 * g + b;
    char_from_code(code).unwrap()
}

/// A pixel of alpha zero encodes as the transparency glyph when transparency is kept,
/// whatever its colour; when it is not kept, alpha plays no part and a colour glyph,
/// never the transparency glyph, comes out.
pub proof fn lemma_transparency(p: Rgba, q: Rgba)
    requires
        p.r == q.r,
        p.g == q.g,
        p.b == q.b,
    ensures
        p.a == 0 ==> glyph_code(p, true) == TRANSPARENCY_GLYPH as u32,
        glyph_code(p, false) == glyph_code(q, false),
        glyph_code(p, false) != TRANSPARENCY_GLYPH as u32,
{
}

/// Converts an image to the panel text: `height` rows of `width` glyphs, joined by one
/// `'\n'` each. With `dither` the image is dithered first; otherwise each pixel is
/// quantized as it is encoded. A kept transparent pixel is one space. An image with no
/// pixels is refused.
pub fn image_to_se_string(img: &RgbaImage, dither: bool, preserve_transparency: bool) -> (r:
    Result<String, ConvertError>)
    requires
        img.wf(),
    ensures
        (img.width == 0 || img.height == 0) <==> r == Err::<String, _>(
            ConvertError::InvalidDimensions,
        ),
        r is Ok <==> (img.width > 0 && img.height > 0),
        r matches Ok(s) ==> codes_of(s@) == se_codes(
            img.pixels(),
            img.width as int,
            img.height as int,
            dither,
            preserve_transparency,
            TransparencyMode::Sentinel,
        ),
{
    image_to_se_string_with_mode(img, dither, preserve_transparency, TransparencyMode::Sentinel)
}

/// Writes a pixel's glyphs at the end of `out`.
fn push_pixel(out: &mut String, pix: &Rgba, preserve_transparency: bool, mode: TransparencyMode)
    ensures
        codes_of(final(out)@) == codes_of(old(out)@) + pixel_codes(
            *pix,
            preserve_transparency,
            mode,
        ),
{
    let ghost before = codes_of(out@);
    if preserve_transparency && pix.a == 0 && mode == TransparencyMode::Escape {
        push_glyph(out, '\u{E075}');
        push_glyph(out, '\u{E072}');
        push_glyph(out, '\u{E070}');
        assert(codes_of(out@) =~= before + escape_codes());
    } else {
        let c = to_se_char(pix, preserve_transparency);
        push_glyph(out, c);
        assert(codes_of(out@) =~= before + seq![glyph_code(*pix, preserve_transparency)]);
    }
}

/// Converts an image to the panel text as [`image_to_se_string`] does, writing each kept
/// transparent pixel as `mode` says.
pub fn image_to_se_string_with_mode(
    img: &RgbaImage,
    dither: bool,
    preserve_transparency: bool,
    mode: TransparencyMode,
) -> (r: Result<String, ConvertError>)
    requires
        img.wf(),
    ensures
        (img.width == 0 || img.height == 0) <==> r == Err::<String, _>(
            ConvertError::InvalidDimensions,
        ),
        r is Ok <==> (img.width > 0 && img.height > 0),
        r matches Ok(s) ==> codes_of(s@) == se_codes(
            img.pixels(),
            img.width as int,
            img.height as int,
            dither,
            preserve_transparency,
            mode,
        ),
{
    let w: u32 = img.width;
    let h: u32 = img.height;
    if w == 0 || h == 0 {
        return Err(ConvertError::InvalidDimensions);
    }
    let mut work = img.duplicate();
    if dither {
        let _ = dither_image(&mut work);
    }
    let ghost grid = work.pixels();
    let ghost pt = preserve_transparency;
    assert(grid == (if dither {
        dithered(img.pixels(), w as int, h as int)
    } else {
        img.pixels()
    }));
    let len: usize = work.data.len();
    let wz: usize = w as usize;
    let mut out = String::new();
    let mut y: u32 = 0;
    let mut row_start: usize = 0;
    while y < h
        invariant
            work.wf(),
            work.width == w,
            work.height == h,
            work.pixels() == grid,
            0 < w,
            y <= h,
            wz == w,
            pt == preserve_transparency,
            4 * ((w as int) * (h as int)) == len,
            row_start == (y as int) * (w as int),
            codes_of(out@) == lines_codes(grid, w as int, h as int, y as int, pt, mode),
        decreases h - y,
    {
        proof {
            assert((y as int) * (w as int) + w <= (w as int) * (h as int)) by (nonlinear_arith)
                requires
                    y < h,
                    0 < w,
            ;
            assert(((y + 1) as int) * (w as int) == (y as int) * (w as int) + w) by (nonlinear_arith);
        }
        let mut x: u32 = 0;
        while x < w
            invariant
                work.wf(),
                work.width == w,
                work.height == h,
                work.pixels() == grid,
                x <= w,
                y < h,
                wz == w,
                pt == preserve_transparency,
                4 * ((w as int) * (h as int)) == len,
                row_start == (y as int) * (w as int),
                row_start + w <= (w as int) * (h as int),
                codes_of(out@) == lines_codes(grid, w as int, h as int, y as int, pt, mode)
                    + row_codes(grid, w as int, y as int, x as int, pt, mode),
            decreases w - x,
        {
            let pix = work.pixel_at(row_start + x as usize);
            push_pixel(&mut out, &pix, preserve_transparency, mode);
            proof {
                let prefix = lines_codes(grid, w as int, h as int, y as int, pt, mode);
                let row = row_codes(grid, w as int, y as int, x as int, pt, mode);
                let more = pixel_codes(pix, pt, mode);
                assert(row_codes(grid, w as int, y as int, x + 1, pt, mode) == row + more);
                assert((prefix + row) + more =~= prefix + (row + more));
            }
            x = x + 1;
        }
        if y < h - 1 {
            push_glyph(&mut out, ROW_SEPARATOR);
        }
        proof {
            let prefix = lines_codes(grid, w as int, h as int, y as int, pt, mode);
            let row = row_codes(grid, w as int, y as int, w as int, pt, mode);
            assert(lines_codes(grid, w as int, h as int, y + 1, pt, mode) == (if y + 1 < h {
                (prefix + row).push(ROW_SEPARATOR as u32)
            } else {
                prefix + row
            }));
        }
        row_start = row_start + wz;
        y = y + 1;
    }
    Ok(out)
}

} // verus!
