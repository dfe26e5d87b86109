//! Reduction of an 8-bit channel to one of eight evenly spaced levels.
//!
//! The level spacing is 255/7. A channel `c` lies nearest to level `round(7c / 255)`,
//! whose value is `round(255k / 7)`. Neither division can land exactly on a half,
//! so the rounding mode (half away from zero) never has to break a tie.
use vstd::prelude::*;
use crate::raster::Rgba;

verus! {

/// The index `k` in `0..=7` of the level nearest to channel value `c`: `round(7c / 255)`,
/// written as `floor((2 * 7c + 255) / (2 * 255))`.
pub open spec fn level_index(c: int) -> int {
    (14 * c + 255) / 510
}

/// The channel value of level `k`: `round(255k / 7)`, written as
/// `floor((2 * 255k + 7) / (2 * 7))`.
pub open spec fn level_value(k: int) -> int {
    (510 * k + 7) / 14
}

/// The value that channel `c` is reduced to.
pub open spec fn quantize_spec(c: int) -> int {
    level_value(level_index(c))
}

/// Whether `c` is one of the eight levels.
pub open spec fn is_level(c: int) -> bool {
    exists|k: int| 0 <= k <= 7 && c == level_value(k)
}

/// A pixel with its colour channels reduced and its alpha kept.
pub open spec fn quantize_rgba(p: Rgba) -> Rgba {
    Rgba {
        r: quantize_spec(p.r as int) as u8,
        g: quantize_spec(p.g as int) as u8,
        b: quantize_spec(p.b as int) as u8,
        a: p.a,
    }
}

/// The level index lies in `0..=7` and its value in `0..=255`.
pub proof fn lemma_level_bounds(c: int)
    requires
        0 <= c <= 255,
    ensures
        0 <= level_index(c) <= 7,
        0 <= quantize_spec(c) <= 255,
{
}

/// Reading back the index of a level gives that level.
pub proof fn lemma_index_of_level(k: int)
    requires
        0 <= k <= 7,
    ensures
        level_index(level_value(k)) == k,
{
    assert(level_value(0) == 0);
    assert(level_index(0) == 0);
    assert(level_value(1) == 36);
    assert(level_index(36) == 1);
    assert(level_value(2) == 73);
    assert(level_index(73) == 2);
    assert(level_value(3) == 109);
    assert(level_index(109) == 3);
    assert(level_value(4) == 146);
    assert(level_index(146) == 4);
    assert(level_value(5) == 182);
    assert(level_index(182) == 5);
    assert(level_value(6) == 219);
    assert(level_index(219) == 6);
    assert(level_value(7) == 255);
    assert(level_index(255) == 7);
}

/// Quantizing twice is quantizing once.
pub proof fn lemma_quantize_idempotent(c: int)
    requires
        0 <= c <= 255,
    ensures
        quantize_spec(quantize_spec(c)) == quantize_spec(c),
        level_index(quantize_spec(c)) == level_index(c),
{
    lemma_level_bounds(c);
    lemma_index_of_level(level_index(c));
}

/// Every quantized value is one of the eight levels `round(k * 255 / 7)`, `k` in `0..=7`.
pub proof fn lemma_quantize_on_palette(c: int)
    requires
        0 <= c <= 255,
    ensures
        is_level(quantize_spec(c)),
{
    lemma_level_bounds(c);
    assert(0 <= level_index(c) <= 7 && quantize_spec(c) == level_value(level_index(c)));
}

/// The level index of a channel value, `round(7c / 255)`.
pub fn channel_level(c: u8) -> (k: u8)
    ensures
        k == level_index(c as int),
        k <= 7,
{
    proof {
        lemma_level_bounds(c as int);
    }
    ((14 * (c as u32) + 255) / 510) as u8
}

/// Reduces one channel to the nearest of the eight levels.
pub fn quantize(c: u8) -> (r: u8)
    ensures
        r == quantize_spec(c as int),
        is_level(r as int),
{
    let k = channel_level(c);
    proof {
        lemma_level_bounds(c as int);
        lemma_quantize_on_palette(c as int);
    }
    ((510 * (k as u32) + 7) / 14) as u8
}

/// Reduces the colour channels of a pixel; alpha passes through.
pub fn convert_to_se_color(color: &Rgba) -> (r: Rgba)
    ensures
        r == quantize_rgba(*color),
{
    Rgba { r: quantize(color.r), g: quantize(color.g), b: quantize(color.b), a: color.a }
}

} // verus!
