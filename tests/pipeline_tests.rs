use image_to_se_lcd::aspect::gcd;
use image_to_se_lcd::dither::{
    add_error_to_color, calculate_error, dither_image, quantization_error,
};
use image_to_se_lcd::encode::{
    image_to_se_string, image_to_se_string_with_mode, to_se_char, TransparencyMode,
};
use image_to_se_lcd::quantize::{channel_level, convert_to_se_color, quantize};
use image_to_se_lcd::raster::{Rgba, RgbaImage};
use image_to_se_lcd::ConvertError;

const LEVELS: [u8; 8] = [0, 36, 73, 109, 146, 182, 219, 255];

fn px(r: u8, g: u8, b: u8, a: u8) -> Rgba {
    Rgba { r, g, b, a }
}

#[test]
fn quantize_matches_rounding_for_every_value() {
    let step = 255.0f64 / 7.0;
    for c in 0..=255u8 {
        let k = (c as f64 / step).round();
        let expected = (k * step).round() as u8;
        assert_eq!(quantize(c), expected, "channel {}", c);
        assert_eq!(channel_level(c), k as u8, "channel {}", c);
    }
}

#[test]
fn quantize_is_idempotent() {
    for c in 0..=255u8 {
        assert_eq!(quantize(quantize(c)), quantize(c));
    }
}

#[test]
fn quantize_lands_on_the_palette() {
    for c in 0..=255u8 {
        assert!(LEVELS.contains(&quantize(c)));
    }
    for (k, level) in LEVELS.iter().enumerate() {
        assert_eq!(quantize(*level), *level);
        assert_eq!(channel_level(*level) as usize, k);
    }
    assert_eq!(quantize(18), 0);
    assert_eq!(quantize(19), 36);
    assert_eq!(quantize(91), 73);
    assert_eq!(quantize(92), 109);
}

#[test]
fn convert_keeps_alpha() {
    assert_eq!(convert_to_se_color(&px(50, 126, 250, 7)), px(36, 109, 255, 7));
}

#[test]
fn gcd_values() {
    assert_eq!(gcd(6, 3), 3);
    assert_eq!(gcd(18, 48), 6);
    assert_eq!(gcd(48, 18), 6);
    assert_eq!(gcd(2, 8), 2);
    assert_eq!(gcd(10, 2), 2);
    assert_eq!(gcd(17, 5), 1);
    for n in [1u32, 2, 7, 100, u32::MAX] {
        assert_eq!(gcd(1, n), 1);
        assert_eq!(gcd(n, 1), 1);
        assert_eq!(gcd(n, n), n);
    }
}

#[test]
fn quantization_error_is_the_difference() {
    assert_eq!(quantization_error((50, 0, 255), (36, 0, 255)), (14, 0, 0));
    assert_eq!(quantization_error((0, 200, 20), (0, 219, 36)), (0, -19, -16));
}

#[test]
fn calculate_error_rounds_half_away_from_zero() {
    assert_eq!(calculate_error((8, -8, 24), 1), (1, -1, 2));
    assert_eq!(calculate_error((100, -100, 0), 7), (44, -44, 0));
    assert_eq!(calculate_error((14, -14, 255), 5), (4, -4, 80));
    assert_eq!(calculate_error((-42, 16, -255), 16), (-42, 16, -255));
    assert_eq!(calculate_error((1000, -2000, 4000), 8), (500, -1000, 2000));
    assert_eq!(calculate_error((-3, 3, 0), -8), (2, -2, 0));
}

#[test]
fn add_error_clamps() {
    assert_eq!(add_error_to_color(&px(250, 3, 100, 9), (10, -10, 5)), px(255, 0, 105, 9));
    assert_eq!(
        add_error_to_color(&px(250, 3, 100, 0), (i16::MAX, i16::MIN, -99)),
        px(255, 0, 1, 0)
    );
}

#[test]
fn to_se_char_encodes_levels() {
    // 7 << 6 = 448 = 0x1C0, so red is 0xE100 + 0x1C0.
    assert_eq!(to_se_char(&px(255, 0, 0, 255), true), '\u{E2C0}');
    assert_eq!(to_se_char(&px(0, 0, 0, 255), false), '\u{E100}');
    assert_eq!(to_se_char(&px(255, 255, 255, 255), false), '\u{E2FF}');
    assert_eq!(to_se_char(&px(36, 146, 219, 1), true), '\u{E166}');
}

#[test]
fn transparency_is_kept_only_when_asked() {
    for (r, g, b) in [(0u8, 0u8, 0u8), (255, 0, 0), (12, 200, 99)] {
        assert_eq!(to_se_char(&px(r, g, b, 0), true), ' ');
        let opaque = to_se_char(&px(r, g, b, 255), false);
        assert_eq!(to_se_char(&px(r, g, b, 0), false), opaque);
        assert_ne!(opaque, ' ');
    }
}

#[test]
fn end_to_end_uniform_red_without_dither() {
    let img = RgbaImage::from_raw(2, 2, [255u8, 0, 0, 255].repeat(4)).unwrap();
    let s = image_to_se_string(&img, false, true).unwrap();
    // Level 7 red, levels 0 green and blue: index 7 << 6 = 448, glyph 0xE100 + 448 = 0xE2C0.
    assert_eq!(s, "\u{E2C0}\u{E2C0}\n\u{E2C0}\u{E2C0}");
    assert_eq!(s.chars().filter(|c| *c == '\n').count(), 1);
}

#[test]
fn dither_spreads_error_forward() {
    let data = vec![50, 0, 0, 255, 126, 0, 0, 255, 0, 0, 0, 255, 0, 0, 0, 255];
    let mut img = RgbaImage::from_raw(2, 2, data).unwrap();
    assert_eq!(dither_image(&mut img), Ok(()));
    assert_eq!(img.data, vec![36, 0, 0, 255, 146, 0, 0, 255, 0, 0, 0, 255, 0, 0, 0, 255]);
}

#[test]
fn dithered_and_plain_text_differ() {
    let data = vec![50, 0, 0, 255, 126, 0, 0, 255, 0, 0, 0, 255, 0, 0, 0, 255];
    let img = RgbaImage::from_raw(2, 2, data).unwrap();
    assert_eq!(
        image_to_se_string(&img, true, false).unwrap(),
        "\u{E140}\u{E200}\n\u{E100}\u{E100}"
    );
    assert_eq!(
        image_to_se_string(&img, false, false).unwrap(),
        "\u{E140}\u{E1C0}\n\u{E100}\u{E100}"
    );
}

#[test]
fn dither_stays_in_range_and_keeps_alpha() {
    let (w, h) = (7u32, 5u32);
    let mut data = Vec::new();
    for i in 0..(w * h) {
        data.extend_from_slice(&[(i * 37 % 256) as u8, (255 - i * 11 % 256) as u8, 254, (i % 3) as u8]);
    }
    let before = data.clone();
    let mut img = RgbaImage::from_raw(w, h, data).unwrap();
    dither_image(&mut img).unwrap();
    assert_eq!(img.data.len(), before.len());
    for (p, q) in img.data.chunks(4).zip(before.chunks(4)) {
        assert!(LEVELS.contains(&p[0]) && LEVELS.contains(&p[1]) && LEVELS.contains(&p[2]));
        assert_eq!(p[3], q[3]);
    }
}

#[test]
fn single_row_and_column_images() {
    let mut row = RgbaImage::from_raw(3, 1, [200u8, 20, 100, 255].repeat(3)).unwrap();
    dither_image(&mut row).unwrap();
    assert_eq!(row.data.len(), 12);
    let mut col = RgbaImage::from_raw(1, 3, [200u8, 20, 100, 255].repeat(3)).unwrap();
    dither_image(&mut col).unwrap();
    assert_eq!(col.data.len(), 12);
    let text = image_to_se_string(&col, true, true).unwrap();
    assert_eq!(text.chars().count(), 5);
}

#[test]
fn empty_images_are_refused() {
    let wide = RgbaImage::from_raw(4, 0, Vec::new()).unwrap();
    let tall = RgbaImage::from_raw(0, 4, Vec::new()).unwrap();
    for img in [&wide, &tall] {
        assert_eq!(image_to_se_string(img, true, true), Err(ConvertError::InvalidDimensions));
        assert_eq!(image_to_se_string(img, false, false), Err(ConvertError::InvalidDimensions));
        let mut copy = img.duplicate();
        assert_eq!(dither_image(&mut copy), Err(ConvertError::InvalidDimensions));
    }
}

#[test]
fn from_raw_checks_length() {
    assert!(RgbaImage::from_raw(2, 2, vec![0; 15]).is_none());
    assert!(RgbaImage::from_raw(2, 2, vec![0; 17]).is_none());
    let img = RgbaImage::from_raw(2, 1, vec![1, 2, 3, 4, 5, 6, 7, 8]).unwrap();
    assert_eq!(img.pixel_at(1), px(5, 6, 7, 8));
}

#[test]
fn escape_mode_writes_three_glyphs_for_transparent_pixels() {
    let data = vec![255, 0, 0, 0, 255, 0, 0, 255, 0, 0, 0, 0, 0, 0, 0, 255];
    let img = RgbaImage::from_raw(2, 2, data).unwrap();
    let escaped = image_to_se_string_with_mode(&img, false, true, TransparencyMode::Escape).unwrap();
    assert_eq!(escaped, "\u{E075}\u{E072}\u{E070}\u{E2C0}\n\u{E075}\u{E072}\u{E070}\u{E100}");
    let sentinel =
        image_to_se_string_with_mode(&img, false, true, TransparencyMode::Sentinel).unwrap();
    assert_eq!(sentinel, image_to_se_string(&img, false, true).unwrap());
    assert_eq!(sentinel, " \u{E2C0}\n \u{E100}");
    let ignored = image_to_se_string_with_mode(&img, false, false, TransparencyMode::Escape).unwrap();
    assert_eq!(ignored, "\u{E2C0}\u{E2C0}\n\u{E100}\u{E100}");
}
