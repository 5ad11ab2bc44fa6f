use faery::bitmap::BitMap;
use faery::colors::{Palette, RGB4};
use faery::error::DecodeError;

fn build_interleaved_test_bitmap() -> BitMap {
    let width = 16;
    let height = 16;
    let depth = 2;
    let stride = 2; // 16 pixels = 2 bytes per row
    let mut data: Vec<u8> = Vec::new();

    // Plane 0: all zeros
    for yy in 0..height {
        for _ in 0..stride {
            data.push(0);
        }
        // Plane 1: checkerboard pattern
        for xx in 0..stride {
            let byte = if (yy + xx * 8) % 2 == 0 { 0xAA } else { 0x55 };
            data.push(byte);
        }
    }

    BitMap::with_interleaved_data(data, width, height, depth, stride).unwrap()
}

/// A 16x16 bitmap of two planes: plane 0 all zeros, plane 1 a checkerboard.
fn build_test_bitmap() -> BitMap {
    let width = 16;
    let height = 16;
    let depth = 2;
    let stride = 2; // 16 pixels = 2 bytes per row
    let plane_size = stride * height;
    let mut data: Vec<u8> = Vec::new();

    // Plane 0: all zeros
    data.resize(plane_size, 0);
    // Plane 1: checkerboard pattern
    for yy in 0..height {
        for xx in 0..stride {
            let byte = if (yy + xx * 8) % 2 == 0 { 0xAA } else { 0x55 };
            data.push(byte);
        }
    }

    BitMap::with_data(data, width, height, depth, stride).unwrap()
}

fn test_palette() -> Palette {
    let mut palette = Palette { colors: Vec::new() };
    palette.colors.push(RGB4::from(0x006)); // blue
    palette.colors.push(RGB4::from(0xFFF)); // white
    palette.colors.push(RGB4::from(0x390)); // green
    palette.colors.push(RGB4::from(0x000)); // black
    palette
}

#[test]
fn test_bitmap_creation() {
    let bitmap = BitMap::build(320, 200, 5).unwrap();
    assert_eq!(bitmap.width, 320);
    assert_eq!(bitmap.height, 200);
    assert_eq!(bitmap.depth, 5);
    assert_eq!(bitmap.stride, 40); // (320 + 15) >> 3 = 40
    assert_eq!(bitmap.planes.len(), 5);
    for plane in bitmap.planes {
        assert_eq!(plane.len(), 8000); // 40 * 200
    }
}

#[test]
fn test_bitmap_invalid_depth() {
    let mut result = BitMap::build(320, 200, 6);
    assert!(result.is_err());

    result = BitMap::build(320, 200, 0);
    assert!(result.is_err());
}

#[test]
fn test_bitmap_with_data() {
    let bitmap = build_test_bitmap();
    assert_eq!(bitmap.width, 16);
    assert_eq!(bitmap.height, 16);
    assert_eq!(bitmap.depth, 2);
    assert_eq!(bitmap.stride, 2);
    assert_eq!(bitmap.planes.len(), 2);
    let plane_size = bitmap.stride * bitmap.height;
    assert_eq!(bitmap.planes[0].len(), plane_size);
    assert_eq!(bitmap.planes[1].len(), plane_size);
}

#[test]
fn test_generate_rgb32() {
    let mut bitmap = build_test_bitmap();
    let palette = test_palette();

    let (pixels, stride) = bitmap.generate_rgb32(&palette, None).unwrap();
    assert_eq!(stride, 64); // 16 pixels * 4 bytes
    assert_eq!(pixels.len(), 16 * 16 * 4);

    // Top-left pixel (0,0) should be color index 2 (green)
    assert_eq!(pixels[0], 0x33); // R
    assert_eq!(pixels[1], 0x99); // G
    assert_eq!(pixels[2], 0x00); // B
    assert_eq!(pixels[3], 0xFF); // A
    // Pixel (1,0) should be color index 0 (blue)
    assert_eq!(pixels[4], 0x00); // R
    assert_eq!(pixels[5], 0x00); // G
    assert_eq!(pixels[6], 0x66); // B
    assert_eq!(pixels[7], 0xFF); // A
    // Pixel (0,1) should be color index 0 (blue)
    assert_eq!(pixels[64], 0x00); // R
    assert_eq!(pixels[65], 0x00); // G
    assert_eq!(pixels[66], 0x66); // B
    assert_eq!(pixels[67], 0xFF); // A
    // Pixel (1,1) should be color index 2 (green)
    assert_eq!(pixels[68], 0x33); // R
    assert_eq!(pixels[69], 0x99); // G
    assert_eq!(pixels[70], 0x00); // B
    assert_eq!(pixels[71], 0xFF); // A
}

#[test]
fn test_generate_rgb32_with_key_color() {
    let mut bitmap = build_test_bitmap();
    let palette = test_palette();
    let key_color_index = 2; // green
    let (pixels, stride) = bitmap.generate_rgb32(&palette, Some(key_color_index)).unwrap();
    assert_eq!(stride, 64); // 16 pixels * 4 bytes
    assert_eq!(pixels.len(), 16 * 16 * 4);

    // Top-left pixel (0,0) should be transparent black
    assert_eq!(pixels[0], 0x00); // R
    assert_eq!(pixels[1], 0x00); // G
    assert_eq!(pixels[2], 0x00); // B
    assert_eq!(pixels[3], 0x00); // A
    // Pixel (1,0) should be color index 0 (blue)
    assert_eq!(pixels[4], 0x00); // R
    assert_eq!(pixels[5], 0x00); // G
    assert_eq!(pixels[6], 0x66); // B
    assert_eq!(pixels[7], 0xFF); // A
}

#[test]
fn test_generate_rgb32_interleaved() {
    let mut bitmap = build_interleaved_test_bitmap();
    let palette = test_palette();

    let (pixels, stride) = bitmap.generate_rgb32(&palette, None).unwrap();
    assert_eq!(stride, 64); // 16 pixels * 4 bytes
    assert_eq!(pixels.len(), 16 * 16 * 4);

    // Top-left pixel (0,0) should be color index 2 (green)
    assert_eq!(pixels[0], 0x33); // R
    assert_eq!(pixels[1], 0x99); // G
    assert_eq!(pixels[2], 0x00); // B
    assert_eq!(pixels[3], 0xFF); // A
    // Pixel (1,0) should be color index 0 (blue)
    assert_eq!(pixels[4], 0x00); // R
    assert_eq!(pixels[5], 0x00); // G
    assert_eq!(pixels[6], 0x66); // B
    assert_eq!(pixels[7], 0xFF); // A
}

#[test]
fn interleaved_and_contiguous_give_same_pixels() {
    let mut a = build_test_bitmap();
    let mut b = build_interleaved_test_bitmap();
    assert_eq!(a.planes, b.planes);
    let palette = test_palette();
    let (pa, _) = a.generate_rgb32(&palette, None).unwrap();
    let (pb, _) = b.generate_rgb32(&palette, None).unwrap();
    assert_eq!(pa, pb);
}

#[test]
fn row_stride_is_even_and_covers_width() {
    for (w, s) in [(0usize, 0usize), (1, 2), (16, 2), (17, 4), (320, 40), (321, 42)] {
        let b = BitMap::build(w, 1, 1).unwrap();
        assert_eq!(b.stride, s);
        assert_eq!(b.stride % 2, 0);
        assert!(b.stride * 8 >= w);
    }
}

#[test]
fn build_planes_are_zero_filled() {
    let b = BitMap::build(17, 3, 2).unwrap();
    assert_eq!(b.planes[1], vec![0u8; 12]);
}

#[test]
fn with_data_short_input_is_truncated() {
    let r = BitMap::with_data(vec![0u8; 63], 16, 16, 2, 2);
    assert!(matches!(r, Err(DecodeError::Truncated)));
    let r = BitMap::with_interleaved_data(vec![0u8; 63], 16, 16, 2, 2);
    assert!(matches!(r, Err(DecodeError::Truncated)));
    let r = BitMap::with_data(vec![0u8; 64], 16, 16, 6, 2);
    assert!(matches!(r, Err(DecodeError::InvalidDimension)));
}

#[test]
fn index_cache_is_kept_until_cleared() {
    let mut bitmap = build_test_bitmap();
    let palette = test_palette();
    let (first, _) = bitmap.generate_rgb32(&palette, None).unwrap();
    // the planes change, but the cached indices stay
    bitmap.planes[1][0] = 0x00;
    let (second, _) = bitmap.generate_rgb32(&palette, None).unwrap();
    assert_eq!(first, second);
    bitmap.invalidate_index_cache();
    let (third, _) = bitmap.generate_rgb32(&palette, None).unwrap();
    // pixel (0,0) now has index 0: blue
    assert_eq!(&third[0..4], &[0x00, 0x00, 0x66, 0xFF]);
}

#[test]
fn update_rgb32_into_wider_buffer() {
    let mut bitmap = build_test_bitmap();
    let palette = test_palette();
    let mut pixels = vec![0x77u8; 100 * 16];
    bitmap.update_rgb32(&mut pixels, 100, &palette, None).unwrap();
    assert_eq!(&pixels[0..4], &[0x33, 0x99, 0x00, 0xFF]);
    assert_eq!(&pixels[100..104], &[0x00, 0x00, 0x66, 0xFF]);
    // bytes past the image's rows are left alone
    assert_eq!(pixels[64], 0x77);
    assert_eq!(pixels[99], 0x77);
}

#[test]
fn update_rgb32_errors() {
    let mut bitmap = build_test_bitmap();
    let palette = test_palette();
    let mut small = vec![0u8; 16 * 16 * 4 - 1];
    assert_eq!(
        bitmap.update_rgb32(&mut small, 64, &palette, None),
        Err(DecodeError::Truncated)
    );
    let mut pixels = vec![0u8; 16 * 16 * 4];
    assert_eq!(
        bitmap.update_rgb32(&mut pixels, 32, &palette, None),
        Err(DecodeError::InvalidDimension)
    );
    bitmap.depth = 6;
    assert_eq!(
        bitmap.update_rgb32(&mut pixels, 64, &palette, None),
        Err(DecodeError::InvalidDimension)
    );
}
