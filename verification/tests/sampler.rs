use pingas::address::encode;
use pingas::grid::{PixelGrid, Color};
use pingas::sampler::{fits_canvas, sample, sample_row, CanvasOffset, SampledPixel};

fn px(r: u8, g: u8, b: u8, a: u8) -> Color {
    Color { r, g, b, a }
}

const CLEAR: Color = Color { r: 9, g: 9, b: 9, a: 0 };

#[test]
fn sample_moves_each_pixel_by_the_offset() {
    let pixels = vec![px(1, 2, 3, 4), px(5, 6, 7, 8), px(9, 10, 11, 12), px(13, 14, 15, 16)];
    let grid = PixelGrid::new(2, 2, pixels).unwrap();
    let rows = sample(&grid, CanvasOffset { x: 100, y: 200 });
    assert_eq!(rows.len(), 2);
    assert_eq!(rows[0].index, 0);
    assert_eq!(
        rows[0].pixels,
        vec![
            SampledPixel { x: 100, y: 200, address: encode(100, 200, 1, 2, 3, 4) },
            SampledPixel { x: 101, y: 200, address: encode(101, 200, 5, 6, 7, 8) },
        ]
    );
    assert_eq!(rows[1].index, 1);
    assert_eq!(
        rows[1].pixels,
        vec![
            SampledPixel { x: 100, y: 201, address: encode(100, 201, 9, 10, 11, 12) },
            SampledPixel { x: 101, y: 201, address: encode(101, 201, 13, 14, 15, 16) },
        ]
    );
}

#[test]
fn sample_skips_fully_transparent_pixels() {
    let grid = PixelGrid::new(4, 1, vec![CLEAR, px(1, 1, 1, 1), CLEAR, px(2, 2, 2, 255)]).unwrap();
    let rows = sample(&grid, CanvasOffset { x: 0, y: 0 });
    assert_eq!(rows.len(), 1);
    let xs: Vec<u16> = rows[0].pixels.iter().map(|p| p.x).collect();
    assert_eq!(xs, vec![1, 3]);
    assert_eq!(rows[0].pixels[0].address, encode(1, 0, 1, 1, 1, 1));
    assert_eq!(rows[0].pixels[1].address, encode(3, 0, 2, 2, 2, 255));
}

#[test]
fn sample_drops_rows_without_a_visible_pixel() {
    let grid = PixelGrid::new(
        2,
        4,
        vec![CLEAR, CLEAR, px(1, 0, 0, 9), CLEAR, CLEAR, CLEAR, CLEAR, px(2, 0, 0, 9)],
    )
    .unwrap();
    let rows = sample(&grid, CanvasOffset { x: 10, y: 20 });
    let indices: Vec<u32> = rows.iter().map(|r| r.index).collect();
    assert_eq!(indices, vec![1, 3]);
    let first = SampledPixel { x: 10, y: 21, address: encode(10, 21, 1, 0, 0, 9) };
    let second = SampledPixel { x: 11, y: 23, address: encode(11, 23, 2, 0, 0, 9) };
    assert_eq!(rows[0].pixels, vec![first]);
    assert_eq!(rows[1].pixels, vec![second]);
}

#[test]
fn sample_of_a_transparent_grid_is_empty() {
    let grid = PixelGrid::new(3, 3, vec![CLEAR; 9]).unwrap();
    assert!(sample(&grid, CanvasOffset { x: 1, y: 1 }).is_empty());
}

#[test]
fn sample_of_an_empty_grid_is_empty() {
    let grid = PixelGrid::new(0, 0, Vec::new()).unwrap();
    assert!(sample(&grid, CanvasOffset { x: u16::MAX, y: u16::MAX }).is_empty());
    let grid = PixelGrid::new(0, 3, Vec::new()).unwrap();
    assert!(sample(&grid, CanvasOffset { x: 7, y: 7 }).is_empty());
}

#[test]
fn sample_keeps_rows_and_pixels_in_reading_order() {
    let mut pixels = Vec::new();
    for y in 0..5u8 {
        for x in 0..7u8 {
            pixels.push(px(x, y, 0, 1));
        }
    }
    let grid = PixelGrid::new(7, 5, pixels).unwrap();
    let rows = sample(&grid, CanvasOffset { x: 3, y: 4 });
    assert_eq!(rows.len(), 5);
    for (k, row) in rows.iter().enumerate() {
        assert_eq!(row.index as usize, k);
        assert_eq!(row.pixels.len(), 7);
        for (j, pixel) in row.pixels.iter().enumerate() {
            assert_eq!(pixel.x as usize, 3 + j);
            assert_eq!(pixel.y as usize, 4 + k);
            assert_eq!(pixel.address, encode(pixel.x, pixel.y, j as u8, k as u8, 0, 1));
        }
    }
}

#[test]
fn sample_row_gives_one_row() {
    let grid = PixelGrid::new(2, 2, vec![px(1, 2, 3, 4), CLEAR, CLEAR, px(5, 6, 7, 8)]).unwrap();
    let origin = CanvasOffset { x: 1, y: 1 };
    let upper = SampledPixel { x: 1, y: 1, address: encode(1, 1, 1, 2, 3, 4) };
    let lower = SampledPixel { x: 2, y: 2, address: encode(2, 2, 5, 6, 7, 8) };
    assert_eq!(sample_row(&grid, origin, 0), vec![upper]);
    assert_eq!(sample_row(&grid, origin, 1), vec![lower]);
}

#[test]
fn sample_reaches_the_last_canvas_position() {
    let grid = PixelGrid::new(2, 2, vec![px(1, 1, 1, 1); 4]).unwrap();
    let origin = CanvasOffset { x: u16::MAX - 1, y: u16::MAX - 1 };
    assert!(fits_canvas(&grid, origin));
    let rows = sample(&grid, origin);
    let corner = encode(u16::MAX, u16::MAX, 1, 1, 1, 1);
    assert_eq!(rows[1].pixels[1], SampledPixel { x: u16::MAX, y: u16::MAX, address: corner });
}

#[test]
fn fits_canvas_asks_for_sixteen_bit_positions() {
    let grid = PixelGrid::new(2, 3, vec![CLEAR; 6]).unwrap();
    assert!(fits_canvas(&grid, CanvasOffset { x: 0, y: 0 }));
    assert!(fits_canvas(&grid, CanvasOffset { x: 65534, y: 65533 }));
    assert!(!fits_canvas(&grid, CanvasOffset { x: 65535, y: 0 }));
    assert!(!fits_canvas(&grid, CanvasOffset { x: 0, y: 65534 }));
    let empty = PixelGrid::new(0, 3, Vec::new()).unwrap();
    assert!(fits_canvas(&empty, CanvasOffset { x: 65535, y: 65535 }));
}
