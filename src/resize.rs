//! Fitting a source image to a panel grid whose size follows an aspect ratio.
//!
//! The ratio is brought to lowest terms and each term multiplied by the panel's base
//! unit, so that 6:3 and 2:1 give the same grid. Resampling uses a Gaussian filter,
//! which gives smooth results but blends alpha along edges: after it, few pixels
//! keep an alpha of exactly zero, so fewer come out transparent when encoded. A
//! nearest-neighbour filter would keep exact transparency and lose the smoothing.
use vstd::prelude::*;
use crate::ConvertError;
use crate::aspect::{gcd, gcd_spec, lemma_gcd_is_greatest, lemma_gcd_scales, lemma_gcd_self};
use crate::raster::RgbaImage;

verus! {

/// How many pixels are on one line of a square panel: the base unit of every target size.
pub const SQUARE_PANEL_WIDTH_PIXEL_AMOUNT: u32 = 178;
/// How many lines are in one square panel.
pub const SQUARE_PANEL_LINE_AMOUNT: u32 = 178;
/// How many characters the panel counts on one line when every pixel is a colour glyph
/// (the panel counts each colour glyph as three characters).
pub const SQUARE_PANEL_WIDTH_CHARACTER_AMOUNT: u32 = SQUARE_PANEL_WIDTH_PIXEL_AMOUNT * 3;

/// The bytes of a `width` × `height` RGBA image resampled to exactly `nwidth` × `nheight`
/// with a Gaussian filter.
pub uninterp spec fn gaussian_resized_exact(
    src: Seq<u8>,
    width: u32,
    height: u32,
    nwidth: u32,
    nheight: u32,
) -> Seq<u8>;

/// The size and bytes of a `width` × `height` RGBA image scaled with a Gaussian filter to
/// the largest size of the same aspect ratio that fits in `nwidth` × `nheight`.
pub uninterp spec fn gaussian_resized_fit(
    src: Seq<u8>,
    width: u32,
    height: u32,
    nwidth: u32,
    nheight: u32,
) -> (u32, u32, Seq<u8>);

/// A `w` × `h` size lies inside the box `bw` × `bh`, has no empty side, and meets the box
/// on at least one side.
pub open spec fn fits_box(w: int, h: int, bw: int, bh: int) -> bool {
    &&& 1 <= w <= bw
    &&& 1 <= h <= bh
    &&& (w == bw || h == bh)
}

/// A `w` × `h` size keeps the aspect ratio of a `sw` × `sh` source up to the rounding of
/// each side to whole pixels: `|w * sh - h * sw| <= sw + sh`.
pub open spec fn keeps_aspect(w: int, h: int, sw: int, sh: int) -> bool {
    -(sw + sh) <= w * sh - h * sw <= sw + sh
}

/// Whether resampling `img` to a target of `tw` × `th` needs buffers that fit in memory
/// indices: the resampler holds a `width` × `th` intermediate and a `tw` × `th` result,
/// four values per pixel.
pub open spec fn buffers_fit(img: RgbaImage, tw: int, th: int) -> bool {
    &&& tw <= u32::MAX
    &&& th <= u32::MAX
    &&& 4 * ((img.width as int) * th) <= usize::MAX
    &&& 4 * (tw * th) <= usize::MAX
}

/// Relies on image's `DynamicImage::resize_exact` (Gaussian filter) and `to_rgba8`: the
/// result has exactly the requested size, and its pixels depend on the source and the
/// sizes alone.
#[verifier::external_body]
fn gaussian_exact(img: &RgbaImage, nwidth: u32, nheight: u32) -> (r: RgbaImage)
    requires
        img.wf(),
        img.width > 0,
        img.height > 0,
        nwidth > 0,
        nheight > 0,
        buffers_fit(*img, nwidth as int, nheight as int),
    ensures
        r.wf(),
        r.width == nwidth,
        r.height == nheight,
        r.data@ == gaussian_resized_exact(img.data@, img.width, img.height, nwidth, nheight),
{
    let src = image::RgbaImage::from_raw(img.width, img.height, img.data.clone()).unwrap();
    let out = image::DynamicImage::ImageRgba8(src).resize_exact(
        nwidth,
        nheight,
        image::imageops::FilterType::Gaussian,
    ).to_rgba8();
    RgbaImage { width: out.width(), height: out.height(), data: out.into_raw() }
}

/// Relies on image's `DynamicImage::resize` (Gaussian filter) and `to_rgba8`: a well-formed
/// image whose size and pixels depend on the source and the bounds alone. The size is the
/// source itself where it already matches the box; else `resize_dimensions` scales both
/// sides by the smaller of the two ratios `nwidth / width` and `nheight / height`, rounds each
/// to whole pixels and keeps it at least 1, so it lies in the box, meets it on the side of
/// the smaller ratio, and keeps the source's aspect up to that rounding.
#[verifier::external_body]
fn gaussian_fit(img: &RgbaImage, nwidth: u32, nheight: u32) -> (r: RgbaImage)
    requires
        img.wf(),
        img.width > 0,
        img.height > 0,
        nwidth > 0,
        nheight > 0,
        buffers_fit(*img, nwidth as int, nheight as int),
    ensures
        r.wf(),
        fits_box(r.width as int, r.height as int, nwidth as int, nheight as int),
        keeps_aspect(r.width as int, r.height as int, img.width as int, img.height as int),
        (r.width, r.height, r.data@) == gaussian_resized_fit(
            img.data@,
            img.width,
            img.height,
            nwidth,
            nheight,
        ),
{
    let src = image::RgbaImage::from_raw(img.width, img.height, img.data.clone()).unwrap();
    let out = image::DynamicImage::ImageRgba8(src).resize(
        nwidth,
        nheight,
        image::imageops::FilterType::Gaussian,
    ).to_rgba8();
    RgbaImage { width: out.width(), height: out.height(), data: out.into_raw() }
}

/// The size and bytes of `img` resampled to `tw` × `th`: stretched to exactly that size,
/// or, keeping its own aspect ratio, scaled to fit inside it.
pub open spec fn resampled(img: RgbaImage, tw: u32, th: u32, preserve: bool) -> (
    u32,
    u32,
    Seq<u8>,
) {
    if preserve {
        gaussian_resized_fit(img.data@, img.width, img.height, tw, th)
    } else {
        (tw, th, gaussian_resized_exact(img.data@, img.width, img.height, tw, th))
    }
}

/// The aspect ratio `wr:hr` in lowest terms.
pub open spec fn simplified_ratio(wr: nat, hr: nat) -> (nat, nat) {
    (wr / gcd_spec(wr, hr), hr / gcd_spec(wr, hr))
}

/// The target grid of ratio `wr:hr`: the ratio in lowest terms times the base unit.
pub open spec fn target_size(wr: nat, hr: nat) -> (int, int) {
    (
        simplified_ratio(wr, hr).0 * SQUARE_PANEL_WIDTH_PIXEL_AMOUNT,
        simplified_ratio(wr, hr).1 * SQUARE_PANEL_WIDTH_PIXEL_AMOUNT,
    )
}

/// What [`resized`] gives, as size and bytes, or the error.
pub open spec fn resize_outcome(img: RgbaImage, wr: u32, hr: u32, preserve: bool) -> Result<
    (u32, u32, Seq<u8>),
    ConvertError,
> {
    let (tw, th) = target_size(wr as nat, hr as nat);
    if img.width == 0 || img.height == 0 {
        Err(ConvertError::InvalidDimensions)
    } else if wr == 0 || hr == 0 {
        Err(ConvertError::InvalidAspectRatio)
    } else if !buffers_fit(img, tw, th) {
        Err(ConvertError::ArithmeticOverflow)
    } else {
        Ok(resampled(img, tw as u32, th as u32, preserve))
    }
}

/// The size and bytes of a result, or its error.
pub open spec fn outcome_of(r: Result<RgbaImage, ConvertError>) -> Result<
    (u32, u32, Seq<u8>),
    ConvertError,
> {
    match r {
        Ok(img) => Ok((img.width, img.height, img.data@)),
        Err(e) => Err(e),
    }
}

/// Resizes to exactly `width` × `height`, or, keeping the image's own aspect ratio, to the
/// largest size that fits inside it.
pub fn resized_exact_size(
    img: &RgbaImage,
    width: u32,
    height: u32,
    preserve_original_aspect_ratio: bool,
) -> (r: RgbaImage)
    requires
        img.wf(),
        img.width > 0,
        img.height > 0,
        width > 0,
        height > 0,
        buffers_fit(*img, width as int, height as int),
    ensures
        r.wf(),
        (r.width, r.height, r.data@) == resampled(
            *img,
            width,
            height,
            preserve_original_aspect_ratio,
        ),
        preserve_original_aspect_ratio ==> fits_box(
            r.width as int,
            r.height as int,
            width as int,
            height as int,
        ) && keeps_aspect(r.width as int, r.height as int, img.width as int, img.height as int),
        !preserve_original_aspect_ratio ==> r.width == width && r.height == height,
{
    if preserve_original_aspect_ratio {
        gaussian_fit(img, width, height)
    } else {
        gaussian_exact(img, width, height)
    }
}

/// An image with no pixels is refused, whatever the aspect ratio and mode.
pub proof fn lemma_empty_source_refused(img: RgbaImage, wr: u32, hr: u32, preserve: bool)
    requires
        img.width == 0 || img.height == 0,
    ensures
        resize_outcome(img, wr, hr, preserve) == Err::<(u32, u32, Seq<u8>), _>(
            ConvertError::InvalidDimensions,
        ),
{
}

/// Resizes the image to the panel grid of aspect ratio `width_aspect_ratio:height_aspect_ratio`:
/// the ratio in lowest terms, times 178 pixels. With `preserve_original_aspect_ratio` the image
/// is scaled to fit inside that grid keeping its own aspect ratio; otherwise it is stretched to it.
/// An image with no pixels is refused first, then a ratio with a zero term, then a grid too
/// large for the machine's integers.
pub fn resized(
    img: &RgbaImage,
    width_aspect_ratio: u32,
    height_aspect_ratio: u32,
    preserve_original_aspect_ratio: bool,
) -> (r: Result<RgbaImage, ConvertError>)
    requires
        img.wf(),
    ensures
        outcome_of(r) == resize_outcome(
            *img,
            width_aspect_ratio,
            height_aspect_ratio,
            preserve_original_aspect_ratio,
        ),
        r matches Ok(out) ==> out.wf(),
        r matches Ok(out) ==> {
            let (tw, th) = target_size(width_aspect_ratio as nat, height_aspect_ratio as nat);
            &&& preserve_original_aspect_ratio ==> fits_box(out.width as int, out.height as int, tw, th)
                && keeps_aspect(out.width as int, out.height as int, img.width as int, img.height as int)
            &&& !preserve_original_aspect_ratio ==> out.width == tw && out.height == th
        },
{
    if img.width == 0 || img.height == 0 {
        return Err(ConvertError::InvalidDimensions);
    }
    if width_aspect_ratio == 0 || height_aspect_ratio == 0 {
        return Err(ConvertError::InvalidAspectRatio);
    }
    let ghost wr = width_aspect_ratio as nat;
    let ghost hr = height_aspect_ratio as nat;
    proof {
        lemma_gcd_is_greatest(wr, hr, 1);
    }
    let (sw, sh): (u32, u32) = if width_aspect_ratio == height_aspect_ratio {
        proof {
            lemma_gcd_self(wr);
            vstd::arithmetic::div_mod::lemma_fundamental_div_mod_converse(wr as int, wr as int, 1, 0);
            assert(simplified_ratio(wr, hr) == (1nat, 1nat));
        }
        (1, 1)
    } else {
        let g = gcd(width_aspect_ratio, height_aspect_ratio);
        if g == 1 {
            proof {
                vstd::arithmetic::div_mod::lemma_fundamental_div_mod_converse(wr as int, 1, wr as int, 0);
                vstd::arithmetic::div_mod::lemma_fundamental_div_mod_converse(hr as int, 1, hr as int, 0);
            }
            (width_aspect_ratio, height_aspect_ratio)
        } else {
            (width_aspect_ratio / g, height_aspect_ratio / g)
        }
    };
    assert((sw as nat, sh as nat) == simplified_ratio(wr, hr));
    let tw: u64 = sw as u64 * SQUARE_PANEL_WIDTH_PIXEL_AMOUNT as u64;
    let th: u64 = sh as u64 * SQUARE_PANEL_WIDTH_PIXEL_AMOUNT as u64;
    if tw > u32::MAX as u64 || th > u32::MAX as u64 {
        return Err(ConvertError::ArithmeticOverflow);
    }
    proof {
        assert((img.width as int) * (th as int) <= 0xffff_ffff * 0xffff_ffff) by (nonlinear_arith)
            requires
                img.width <= 0xffff_ffff,
                th <= 0xffff_ffff,
        ;
        assert((tw as int) * (th as int) <= 0xffff_ffff * 0xffff_ffff) by (nonlinear_arith)
            requires
                tw <= 0xffff_ffff,
                th <= 0xffff_ffff,
        ;
    }
    let limit: u64 = (usize::MAX / 4) as u64;
    if img.width as u64 * th > limit || tw * th > limit {
        return Err(ConvertError::ArithmeticOverflow);
    }
    proof {
        let g = gcd_spec(wr, hr) as int;
        vstd::arithmetic::div_mod::lemma_fundamental_div_mod(wr as int, g);
        vstd::arithmetic::div_mod::lemma_fundamental_div_mod(hr as int, g);
        assert(sw > 0) by (nonlinear_arith)
            requires
                wr == g * sw + 0,
                wr > 0,
                g > 0,
                sw >= 0,
        ;
        assert(sh > 0) by (nonlinear_arith)
            requires
                hr == g * sh + 0,
                hr > 0,
                g > 0,
                sh >= 0,
        ;
    }
    let out = resized_exact_size(img, tw as u32, th as u32, preserve_original_aspect_ratio);
    Ok(out)
}

/// Scaling both terms of an aspect ratio by the same factor changes nothing:
/// `resized(img, k * a, k * b, f)` gives what `resized(img, a, b, f)` gives, for every image
/// and either `f` (6:3 gives what 2:1 gives).
pub proof fn lemma_ratio_equivalence(img: RgbaImage, a: u32, b: u32, k: u32, preserve: bool)
    requires
        a > 0,
        b > 0,
        k > 0,
        k * a <= u32::MAX,
        k * b <= u32::MAX,
    ensures
        resize_outcome(img, (k * a) as u32, (k * b) as u32, preserve) == resize_outcome(
            img,
            a,
            b,
            preserve,
        ),
{
    let (an, bn, kn) = (a as nat, b as nat, k as nat);
    lemma_gcd_scales(an, bn, kn);
    lemma_gcd_is_greatest(an, bn, 1);
    let g = gcd_spec(an, bn) as int;
    vstd::arithmetic::div_mod::lemma_fundamental_div_mod(a as int, g);
    vstd::arithmetic::div_mod::lemma_fundamental_div_mod(b as int, g);
    let m = (a as int) / g;
    let n = (b as int) / g;
    assert((a as int) % g == 0 && (b as int) % g == 0);
    assert(kn * an == m * (k * g) + 0 && kn * bn == n * (k * g) + 0 && k * g > 0) by (nonlinear_arith)
        requires
            a == g * m + 0,
            b == g * n + 0,
            k > 0,
            g > 0,
            kn == k,
            an == a,
            bn == b,
    ;
    vstd::arithmetic::div_mod::lemma_fundamental_div_mod_converse((kn * an) as int, k * g, m, 0);
    vstd::arithmetic::div_mod::lemma_fundamental_div_mod_converse((kn * bn) as int, k * g, n, 0);
    assert(simplified_ratio(kn * an, kn * bn) == simplified_ratio(an, bn));
    assert(target_size(kn * an, kn * bn) == target_size(an, bn));
    assert(k * a > 0 && k * b > 0) by (nonlinear_arith)
        requires
            a > 0,
            b > 0,
            k > 0,
    ;
    assert(((k * a) as u32) as nat == kn * an);
    assert(((k * b) as u32) as nat == kn * bn);
}

} // verus!
