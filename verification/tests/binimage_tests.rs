use binimage::color::ColorType;
use binimage::error::BinImageError;
use binimage::pipeline::prepare_image;
use binimage::shape::{bytes_to_add, image_shape, int_ceil};

#[test]
fn bitdepth_table_grayscale() {
    assert_eq!(ColorType::from_bitdepth(1), Ok(ColorType::Gray(1)));
    assert_eq!(ColorType::from_bitdepth(2), Ok(ColorType::Gray(2)));
    assert_eq!(ColorType::from_bitdepth(4), Ok(ColorType::Gray(4)));
    assert_eq!(ColorType::from_bitdepth(8), Ok(ColorType::Gray(8)));
}

#[test]
fn bitdepth_table_rgb() {
    assert_eq!(ColorType::from_bitdepth(12), Ok(ColorType::RGB(4)));
    assert_eq!(ColorType::from_bitdepth(24), Ok(ColorType::RGB(8)));
    assert_eq!(ColorType::from_bitdepth(0), Ok(ColorType::RGB(8)));
}

#[test]
fn bitdepth_unsupported_codes() {
    for code in [3u8, 5, 6, 7, 9, 10, 11, 13, 16, 23, 25, 32, 255] {
        assert_eq!(
            ColorType::from_bitdepth(code),
            Err(BinImageError::UnsupportedBitDepth)
        );
    }
}

#[test]
fn bits_per_pixel_matches_table() {
    // Over the whole table, bits per pixel equals the nonzero code itself.
    for code in [1u8, 2, 4, 8, 12, 24] {
        let c = ColorType::from_bitdepth(code).unwrap();
        assert_eq!(c.bits_per_pixel(), code as u32);
    }
    assert_eq!(ColorType::from_bitdepth(0).unwrap().bits_per_pixel(), 24);
}

#[test]
fn int_ceil_exact_values() {
    assert_eq!(int_ceil(10, 4), 3);
    assert_eq!(int_ceil(0, 5), 0);
    assert_eq!(int_ceil(8, 8), 1);
    assert_eq!(int_ceil(9, 8), 2);
    assert_eq!(int_ceil(96, 8), 12);
}

#[test]
fn shape_ten_bytes_rgb_unconstrained() {
    // 10 bytes at 24 bits per pixel: 4 pixels, a 2 by 2 square.
    let c = ColorType::from_bitdepth(24).unwrap();
    assert_eq!(image_shape(10, (None, None), c), Ok((2, 2)));
}

#[test]
fn shape_width_larger_than_pixel_count() {
    // 10 bytes at 1 bit per pixel need 80 pixels; a width of 100 is too much.
    let c = ColorType::from_bitdepth(1).unwrap();
    assert_eq!(
        image_shape(10, (Some(100), None), c),
        Err(BinImageError::DimensionTooLarge)
    );
}

#[test]
fn shape_height_larger_than_pixel_count() {
    let c = ColorType::from_bitdepth(1).unwrap();
    assert_eq!(
        image_shape(10, (None, Some(81)), c),
        Err(BinImageError::DimensionTooLarge)
    );
}

#[test]
fn shape_width_fixed() {
    // 10 bytes at 1 bit per pixel: 80 pixels; width 40 gives height 2.
    let c = ColorType::from_bitdepth(1).unwrap();
    assert_eq!(image_shape(10, (Some(40), None), c), Ok((40, 2)));
}

#[test]
fn shape_height_fixed() {
    // 10 bytes at 24 bits per pixel: 4 pixels; height 3 gives width 2.
    let c = ColorType::from_bitdepth(24).unwrap();
    assert_eq!(image_shape(10, (None, Some(3)), c), Ok((2, 3)));
}

#[test]
fn shape_conflicting_constraints() {
    let c = ColorType::from_bitdepth(24).unwrap();
    assert_eq!(
        image_shape(10, (Some(2), Some(2)), c),
        Err(BinImageError::ConflictingConstraints)
    );
    // The conflict wins whatever the values, even ones that are too large.
    assert_eq!(
        image_shape(10, (Some(1000), Some(0)), c),
        Err(BinImageError::ConflictingConstraints)
    );
}

#[test]
fn shape_empty_buffer_clamps_to_one_by_one() {
    let c = ColorType::from_bitdepth(24).unwrap();
    assert_eq!(image_shape(0, (None, None), c), Ok((1, 1)));
}

#[test]
fn shape_unconstrained_is_sufficient() {
    // For every supported code and a spread of lengths, the unconstrained
    // solver returns positive axes whose grid holds every input bit.
    for code in [1u8, 2, 4, 8, 12, 24, 0] {
        let c = ColorType::from_bitdepth(code).unwrap();
        let bpp = c.bits_per_pixel() as u64;
        for len in [0usize, 1, 2, 3, 5, 10, 63, 64, 65, 1000, 4096] {
            let (w, h) = image_shape(len, (None, None), c).unwrap();
            assert!(w >= 1 && h >= 1);
            assert!(w as u64 * h as u64 * bpp >= len as u64 * 8);
        }
    }
}

#[test]
fn padding_ten_bytes_rgb() {
    // 2 x 2 x 24 bits is 12 bytes; 10 bytes of input leave 2 of filler.
    let c = ColorType::from_bitdepth(24).unwrap();
    assert_eq!(bytes_to_add(10, (2, 2), c), Ok(2));
}

#[test]
fn padding_empty_buffer() {
    // A 1 x 1 pixel at 24 bits needs 3 bytes, all filler.
    let c = ColorType::from_bitdepth(24).unwrap();
    assert_eq!(bytes_to_add(0, (1, 1), c), Ok(3));
}

#[test]
fn padding_accounts_exactly() {
    // padding + length == ceil(width * height * bpp / 8), and is never
    // negative, whenever the dimensions came from the solver.
    for code in [1u8, 2, 4, 8, 12, 24] {
        let c = ColorType::from_bitdepth(code).unwrap();
        let bpp = c.bits_per_pixel() as u64;
        for len in [0usize, 1, 7, 8, 9, 100, 999] {
            let (w, h) = image_shape(len, (None, None), c).unwrap();
            let pad = bytes_to_add(len, (w, h), c).unwrap();
            let bytes_required = (w as u64 * h as u64 * bpp + 7) / 8;
            assert_eq!(len as u64 + pad as u64, bytes_required);
        }
    }
}

#[test]
fn padding_rejects_insufficient_dimensions() {
    // A 1 x 1 RGB pixel holds 3 bytes; 100 bytes of input cannot fit, and
    // the mismatch is reported rather than silently truncated.
    let c = ColorType::from_bitdepth(24).unwrap();
    assert_eq!(
        bytes_to_add(100, (1, 1), c),
        Err(BinImageError::InvariantViolation)
    );
}

#[test]
fn pipeline_ten_bytes_rgb() {
    let mut buffer: Vec<u8> = vec![1, 2, 3, 4, 5, 6, 7, 8, 9, 10];
    let (w, h, c) = prepare_image(&mut buffer, 24, None, None).unwrap();
    assert_eq!((w, h), (2, 2));
    assert_eq!(c, ColorType::RGB(8));
    assert_eq!(buffer, vec![1, 2, 3, 4, 5, 6, 7, 8, 9, 10, 0, 0]);
}

#[test]
fn pipeline_empty_buffer() {
    let mut buffer: Vec<u8> = Vec::new();
    let (w, h, c) = prepare_image(&mut buffer, 24, None, None).unwrap();
    assert_eq!((w, h), (1, 1));
    assert_eq!(c, ColorType::RGB(8));
    assert_eq!(buffer, vec![0, 0, 0]);
}

#[test]
fn pipeline_default_code_is_rgb() {
    let mut buffer: Vec<u8> = vec![9, 9, 9];
    let (_, _, c) = prepare_image(&mut buffer, 0, None, None).unwrap();
    assert_eq!(c, ColorType::RGB(8));
}

#[test]
fn pipeline_rejects_unsupported_bitdepth() {
    let mut buffer: Vec<u8> = vec![1, 2, 3];
    assert_eq!(
        prepare_image(&mut buffer, 3, None, None),
        Err(BinImageError::UnsupportedBitDepth)
    );
    // No partial output alongside a failure: the buffer is untouched.
    assert_eq!(buffer, vec![1, 2, 3]);
}

#[test]
fn pipeline_rejects_conflicting_constraints() {
    let mut buffer: Vec<u8> = vec![1, 2, 3];
    assert_eq!(
        prepare_image(&mut buffer, 24, Some(1), Some(1)),
        Err(BinImageError::ConflictingConstraints)
    );
    assert_eq!(buffer, vec![1, 2, 3]);
}

#[test]
fn pipeline_rejects_too_large_axis() {
    let mut buffer: Vec<u8> = vec![1, 2, 3];
    assert_eq!(
        prepare_image(&mut buffer, 24, Some(2), None),
        Err(BinImageError::DimensionTooLarge)
    );
    assert_eq!(buffer, vec![1, 2, 3]);
}

#[test]
fn pipeline_is_deterministic() {
    // The same inputs always give the same dimensions, color type and
    // filler: there is no hidden randomness or time dependence.
    let input: Vec<u8> = (0u8..=200).collect();
    let mut first = input.clone();
    let r1 = prepare_image(&mut first, 12, None, None);
    let mut second = input.clone();
    let r2 = prepare_image(&mut second, 12, None, None);
    assert_eq!(r1, r2);
    assert_eq!(first, second);
}

#[test]
fn error_messages_are_distinct() {
    let msgs = [
        BinImageError::UnsupportedBitDepth.message(),
        BinImageError::ConflictingConstraints.message(),
        BinImageError::DimensionTooLarge.message(),
        BinImageError::InvariantViolation.message(),
    ];
    for i in 0..msgs.len() {
        for j in 0..msgs.len() {
            if i != j {
                assert_ne!(msgs[i], msgs[j]);
            }
        }
    }
}
