use pingas::grid::{PixelGrid, Color};

fn px(r: u8, g: u8, b: u8, a: u8) -> Color {
    Color { r, g, b, a }
}

#[test]
fn new_takes_one_pixel_for_each_position() {
    let pixels = vec![
        px(1, 2, 3, 4),
        px(5, 6, 7, 8),
        px(9, 10, 11, 12),
        px(13, 14, 15, 16),
        px(17, 18, 19, 20),
        px(21, 22, 23, 24),
    ];
    let grid = PixelGrid::new(3, 2, pixels).unwrap();
    assert_eq!(grid.width(), 3);
    assert_eq!(grid.height(), 2);
    assert_eq!(grid.pixel(0, 0), px(1, 2, 3, 4));
    assert_eq!(grid.pixel(2, 0), px(9, 10, 11, 12));
    assert_eq!(grid.pixel(0, 1), px(13, 14, 15, 16));
    assert_eq!(grid.pixel(2, 1), px(21, 22, 23, 24));
}

#[test]
fn new_refuses_a_wrong_number_of_pixels() {
    assert!(PixelGrid::new(2, 2, vec![px(0, 0, 0, 0); 3]).is_none());
    assert!(PixelGrid::new(2, 2, vec![px(0, 0, 0, 0); 5]).is_none());
    assert!(PixelGrid::new(0, 7, vec![px(0, 0, 0, 0); 1]).is_none());
}

#[test]
fn new_accepts_an_empty_grid() {
    let grid = PixelGrid::new(0, 5, Vec::new()).unwrap();
    assert_eq!(grid.width(), 0);
    assert_eq!(grid.height(), 5);
    let grid = PixelGrid::new(0, 0, Vec::new()).unwrap();
    assert_eq!((grid.width(), grid.height()), (0, 0));
}

#[test]
fn from_raw_reads_four_bytes_for_each_pixel() {
    let bytes: Vec<u8> = vec![1, 2, 3, 4, 5, 6, 7, 8, 9, 10, 11, 12, 13, 14, 15, 16];
    let grid = PixelGrid::from_raw(2, 2, &bytes).unwrap();
    assert_eq!(grid.pixel(0, 0), px(1, 2, 3, 4));
    assert_eq!(grid.pixel(1, 0), px(5, 6, 7, 8));
    assert_eq!(grid.pixel(0, 1), px(9, 10, 11, 12));
    assert_eq!(grid.pixel(1, 1), px(13, 14, 15, 16));
}

#[test]
fn from_raw_refuses_a_buffer_of_another_length() {
    assert!(PixelGrid::from_raw(2, 2, &vec![0u8; 15]).is_none());
    assert!(PixelGrid::from_raw(2, 2, &vec![0u8; 17]).is_none());
    assert!(PixelGrid::from_raw(2, 2, &Vec::new()).is_none());
    assert!(PixelGrid::from_raw(u32::MAX, u32::MAX, &vec![0u8; 4]).is_none());
    assert!(PixelGrid::from_raw(0, 3, &Vec::new()).is_some());
}

#[test]
fn from_raw_agrees_with_new() {
    let bytes: Vec<u8> = (0u8..24).collect();
    let raw = PixelGrid::from_raw(3, 2, &bytes).unwrap();
    let pixels: Vec<Color> = bytes.chunks(4).map(|c| px(c[0], c[1], c[2], c[3])).collect();
    let direct = PixelGrid::new(3, 2, pixels).unwrap();
    for y in 0..2 {
        for x in 0..3 {
            assert_eq!(raw.pixel(x, y), direct.pixel(x, y));
        }
    }
}

#[test]
fn only_zero_opacity_is_invisible() {
    assert!(!px(255, 255, 255, 0).is_visible());
    assert!(px(0, 0, 0, 1).is_visible());
    assert!(px(0, 0, 0, 255).is_visible());
}
