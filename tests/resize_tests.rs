use image_to_se_lcd::encode::image_to_se_string;
use image_to_se_lcd::raster::RgbaImage;
use image_to_se_lcd::resize::{resized, SQUARE_PANEL_WIDTH_PIXEL_AMOUNT};
use image_to_se_lcd::ConvertError;
use std::time::Instant;

/// A 240 × 160 gradient with fully transparent square holes.
fn get_image() -> RgbaImage {
    let (w, h): (u32, u32) = (240, 160);
    let mut data = Vec::with_capacity((w * h * 4) as usize);
    for y in 0..h {
        for x in 0..w {
            let hole = (x / 20) % 3 == 1 && (y / 20) % 3 == 1;
            data.push((x * 255 / (w - 1)) as u8);
            data.push((y * 255 / (h - 1)) as u8);
            data.push(((x + y) % 256) as u8);
            data.push(if hole { 0 } else { 255 });
        }
    }
    RgbaImage::from_raw(w, h, data).unwrap()
}

#[test]
fn correct_amount_of_pixels_in_resized_image() {
    let source = get_image();
    let resized = resized(&source, 1, 1, false).unwrap();

    assert_eq!(
        resized.width() * resized.height(),
        SQUARE_PANEL_WIDTH_PIXEL_AMOUNT * SQUARE_PANEL_WIDTH_PIXEL_AMOUNT
    );
    assert_eq!(resized.data.len() as u32, 4 * resized.width() * resized.height());
}

#[test]
fn performance_no_dither_under_60ms() {
    let source = get_image();
    let resized = resized(&source, 1, 1, false).unwrap();

    let now = Instant::now();

    let output_string = image_to_se_string(&resized, false, true).unwrap();

    let elapsed_millis = now.elapsed().as_millis();

    assert!(!output_string.is_empty());
    assert!(elapsed_millis < 60);
}

#[test]
fn performance_dither_under_80ms() {
    let source = get_image();
    let resized = resized(&source, 1, 1, false).unwrap();

    let now = Instant::now();

    let output_string = image_to_se_string(&resized, true, true).unwrap();

    let elapsed_millis = now.elapsed().as_millis();

    assert!(!output_string.is_empty());
    assert!(elapsed_millis < 80);
}

#[test]
fn aspect_ratios_test() {
    let source = get_image();

    {
        let _3_to_2 = resized(&source, 3, 2, false).unwrap();

        assert_eq!(_3_to_2.width(), 3 * SQUARE_PANEL_WIDTH_PIXEL_AMOUNT);
        assert_eq!(_3_to_2.height(), 2 * SQUARE_PANEL_WIDTH_PIXEL_AMOUNT);
    }

    {
        let _1_to_2 = resized(&source, 1, 2, false).unwrap();

        assert_eq!(_1_to_2.width(), SQUARE_PANEL_WIDTH_PIXEL_AMOUNT);
        assert_eq!(_1_to_2.height(), 2 * SQUARE_PANEL_WIDTH_PIXEL_AMOUNT);
    }

    {
        let _6_to_3 = resized(&source, 6, 3, false).unwrap();

        // Simplify 6:3 to 2:1
        assert_eq!(_6_to_3.width(), 2 * SQUARE_PANEL_WIDTH_PIXEL_AMOUNT);
        assert_eq!(_6_to_3.height(), SQUARE_PANEL_WIDTH_PIXEL_AMOUNT);
    }

    {
        let _18_to_48 = resized(&source, 18, 48, false).unwrap();

        // Simplify 18:48 to 3:8
        assert_eq!(_18_to_48.width(), 3 * SQUARE_PANEL_WIDTH_PIXEL_AMOUNT);
        assert_eq!(_18_to_48.height(), 8 * SQUARE_PANEL_WIDTH_PIXEL_AMOUNT);
    }
}

#[test]
fn scaled_ratio_gives_same_result_either_mode() {
    let source = get_image();
    for preserve in [false, true] {
        let a = resized(&source, 6, 3, preserve).unwrap();
        let b = resized(&source, 2, 1, preserve).unwrap();
        assert_eq!((a.width(), a.height()), (b.width(), b.height()));
        assert_eq!(a.data, b.data);
    }
}

#[test]
fn preserving_aspect_fits_inside_target() {
    let source = get_image();
    let fitted = resized(&source, 1, 1, true).unwrap();
    // 240 × 160 scaled into 178 × 178 keeps 3:2.
    assert_eq!(fitted.width(), 178);
    assert_eq!(fitted.height(), 119);
    assert_eq!(fitted.data.len(), 178 * 119 * 4);
    // A tall source meets the box on its height.
    let tall = RgbaImage::from_raw(10, 40, [1u8, 2, 3, 255].repeat(400)).unwrap();
    let fitted = resized(&tall, 2, 1, true).unwrap();
    assert_eq!((fitted.width(), fitted.height()), (45, 178));
}

#[test]
fn resampling_changes_the_pixels() {
    let source = get_image();
    let out = resized(&source, 1, 1, false).unwrap();
    assert_ne!(out.data.len(), source.data.len());
    // A uniform image stays uniform under a smoothing filter.
    let flat = RgbaImage::from_raw(4, 4, [10u8, 200, 30, 255].repeat(16)).unwrap();
    let big = resized(&flat, 1, 1, false).unwrap();
    assert_eq!((big.width(), big.height()), (178, 178));
    assert!(big.data.chunks(4).all(|p| p == [10, 200, 30, 255]));
}

#[test]
fn zero_ratio_is_refused() {
    let source = get_image();
    assert_eq!(resized(&source, 0, 1, false).unwrap_err(), ConvertError::InvalidAspectRatio);
    assert_eq!(resized(&source, 3, 0, true).unwrap_err(), ConvertError::InvalidAspectRatio);
}

#[test]
fn empty_source_is_refused_by_resize() {
    let empty = RgbaImage::from_raw(0, 5, Vec::new()).unwrap();
    assert_eq!(resized(&empty, 1, 1, false).unwrap_err(), ConvertError::InvalidDimensions);
    let flat = RgbaImage::from_raw(5, 0, Vec::new()).unwrap();
    assert_eq!(resized(&flat, 0, 1, true).unwrap_err(), ConvertError::InvalidDimensions);
    assert_eq!(resized(&empty, 2, 0, false).unwrap_err(), ConvertError::InvalidDimensions);
}

#[test]
fn oversized_ratio_overflows() {
    let source = get_image();
    assert_eq!(
        resized(&source, u32::MAX, 1, false).unwrap_err(),
        ConvertError::ArithmeticOverflow
    );
    // 2^31:1 is in lowest terms, and 178 × 2^31 does not fit a u32.
    assert_eq!(
        resized(&source, 1 << 31, 1, true).unwrap_err(),
        ConvertError::ArithmeticOverflow
    );
}
