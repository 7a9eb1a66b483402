use image::{DynamicImage, GrayImage, Luma, Rgb, RgbImage, Rgba, RgbaImage};
use pingas::filter::FilterKind;
use pingas::grid::Color;
use pingas::raster::{rasterize, SIDE_LIMIT};

const FILTERS: [FilterKind; 5] = [
    FilterKind::Nearest,
    FilterKind::Linear,
    FilterKind::Cubic,
    FilterKind::Gaussian,
    FilterKind::Lanczos3,
];

#[test]
fn rasterize_fits_the_image_within_the_bounds() {
    let image = DynamicImage::ImageRgba8(RgbaImage::from_pixel(8, 4, Rgba([1, 2, 3, 4])));
    for filter in FILTERS {
        let grid = rasterize(&image, 4, 4, filter).unwrap();
        assert_eq!((grid.width(), grid.height()), (4, 2));
        let grid = rasterize(&image, 100, 5, filter).unwrap();
        assert_eq!((grid.width(), grid.height()), (10, 5));
        let grid = rasterize(&image, 3, 100, filter).unwrap();
        assert_eq!((grid.width(), grid.height()), (3, 1));
        let grid = rasterize(&image, 16, 8, filter).unwrap();
        assert_eq!((grid.width(), grid.height()), (16, 8));
    }
}

#[test]
fn rasterize_keeps_a_plain_color() {
    let image = DynamicImage::ImageRgba8(RgbaImage::from_pixel(6, 6, Rgba([10, 20, 30, 40])));
    let grid = rasterize(&image, 3, 3, FilterKind::Nearest).unwrap();
    assert_eq!((grid.width(), grid.height()), (3, 3));
    for y in 0..3 {
        for x in 0..3 {
            assert_eq!(grid.pixel(x, y), Color { r: 10, g: 20, b: 30, a: 40 });
        }
    }
}

#[test]
fn rasterize_at_the_same_size_keeps_the_pixels() {
    let mut source = RgbaImage::new(3, 2);
    for y in 0..2u32 {
        for x in 0..3u32 {
            source.put_pixel(x, y, Rgba([x as u8 * 50, y as u8 * 100, 7, 200 + x as u8]));
        }
    }
    let grid = rasterize(&DynamicImage::ImageRgba8(source), 3, 2, FilterKind::Nearest).unwrap();
    assert_eq!((grid.width(), grid.height()), (3, 2));
    for y in 0..2u32 {
        for x in 0..3u32 {
            let expected = Color { r: x as u8 * 50, g: y as u8 * 100, b: 7, a: 200 + x as u8 };
            assert_eq!(grid.pixel(x, y), expected);
        }
    }
}

#[test]
fn rasterize_reads_other_formats_as_opaque_rgba() {
    let rgb = DynamicImage::ImageRgb8(RgbImage::from_pixel(2, 2, Rgb([9, 8, 7])));
    let grid = rasterize(&rgb, 2, 2, FilterKind::Nearest).unwrap();
    assert_eq!(grid.pixel(1, 1), Color { r: 9, g: 8, b: 7, a: 255 });
    let gray = DynamicImage::ImageLuma8(GrayImage::from_pixel(2, 2, Luma([77])));
    let grid = rasterize(&gray, 1, 1, FilterKind::Nearest).unwrap();
    assert_eq!((grid.width(), grid.height()), (1, 1));
    assert_eq!(grid.pixel(0, 0), Color { r: 77, g: 77, b: 77, a: 255 });
}

#[test]
fn rasterize_may_leave_nothing() {
    let image = DynamicImage::ImageRgba8(RgbaImage::from_pixel(100, 1, Rgba([1, 1, 1, 1])));
    let grid = rasterize(&image, 10, 10, FilterKind::Linear).unwrap();
    assert_eq!((grid.width(), grid.height()), (10, 0));
    let grid = rasterize(&image, 0, 10, FilterKind::Linear).unwrap();
    assert_eq!((grid.width(), grid.height()), (0, 0));
    let grid = rasterize(&image, 10, 0, FilterKind::Linear).unwrap();
    assert_eq!((grid.width(), grid.height()), (0, 0));
}

#[test]
fn rasterize_refuses_an_empty_image() {
    assert!(rasterize(&DynamicImage::new_rgba8(0, 0), 4, 4, FilterKind::Nearest).is_none());
    assert!(rasterize(&DynamicImage::new_rgba8(0, 3), 4, 4, FilterKind::Nearest).is_none());
    assert!(rasterize(&DynamicImage::new_rgba8(3, 0), 4, 4, FilterKind::Nearest).is_none());
}

#[test]
fn rasterize_refuses_sides_beyond_the_limit() {
    let image = DynamicImage::new_rgba8(2, 2);
    assert!(rasterize(&image, SIDE_LIMIT + 1, 1, FilterKind::Nearest).is_none());
    assert!(rasterize(&image, 1, SIDE_LIMIT + 1, FilterKind::Nearest).is_none());
    assert!(rasterize(&image, u32::MAX, u32::MAX, FilterKind::Nearest).is_none());
    let long = DynamicImage::new_luma8(SIDE_LIMIT + 1, 1);
    assert!(rasterize(&long, 4, 4, FilterKind::Nearest).is_none());
    let grid = rasterize(&image, SIDE_LIMIT, 1, FilterKind::Nearest).unwrap();
    assert_eq!((grid.width(), grid.height()), (1, 1));
}

#[test]
fn rasterize_rounds_the_shorter_side_down() {
    let wide = DynamicImage::new_rgba8(7, 3);
    let grid = rasterize(&wide, 5, 5, FilterKind::Cubic).unwrap();
    assert_eq!((grid.width(), grid.height()), (5, 2));
    let tall = DynamicImage::new_rgba8(3, 7);
    let grid = rasterize(&tall, 5, 5, FilterKind::Cubic).unwrap();
    assert_eq!((grid.width(), grid.height()), (2, 5));
}

#[test]
fn rasterize_gives_the_largest_size_that_fits() {
    for width in 1..=8u32 {
        for height in 1..=8u32 {
            let image = DynamicImage::new_rgba8(width, height);
            for max_width in 0..=9u32 {
                for max_height in 0..=9u32 {
                    let expected = if max_width * height <= width * max_height {
                        (max_width, height * max_width / width)
                    } else {
                        (width * max_height / height, max_height)
                    };
                    for filter in FILTERS {
                        let grid = rasterize(&image, max_width, max_height, filter).unwrap();
                        assert_eq!((grid.width(), grid.height()), expected);
                        assert!(grid.width() <= max_width && grid.height() <= max_height);
                    }
                }
            }
        }
    }
}
