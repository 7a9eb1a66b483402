use pingas::address::{encode, Address};
use pingas::grid::{PixelGrid, Color};
use pingas::sampler::{sample, CanvasOffset, SampledPixel, SampledRow};
use pingas::units::{build, plan_units, Granularity, WorkUnit};

fn px(r: u8, g: u8, b: u8, a: u8) -> Color {
    Color { r, g, b, a }
}

const CLEAR: Color = Color { r: 0, g: 0, b: 0, a: 0 };

fn item(x: u16, y: u16, shade: u8) -> SampledPixel {
    SampledPixel { x, y, address: encode(x, y, shade, shade, shade, 255) }
}

fn contents(units: &[WorkUnit]) -> Vec<(u32, Vec<Address>)> {
    units.iter().map(|u| (u.row(), u.addresses().clone())).collect()
}

#[test]
fn work_unit_needs_an_address() {
    assert!(WorkUnit::new(3, Vec::new()).is_none());
    let unit = WorkUnit::new(3, vec![encode(1, 2, 3, 4, 5, 6)]).unwrap();
    assert_eq!(unit.row(), 3);
    assert_eq!(unit.len(), 1);
    assert_eq!(unit.address(0), encode(1, 2, 3, 4, 5, 6));
    assert_eq!(unit.addresses(), &vec![encode(1, 2, 3, 4, 5, 6)]);
}

#[test]
fn build_per_row_gives_one_unit_for_each_row() {
    let rows = vec![
        SampledRow { index: 2, pixels: vec![item(5, 7, 1), item(6, 7, 2)] },
        SampledRow { index: 4, pixels: vec![item(5, 9, 3)] },
    ];
    let units = build(&rows, Granularity::PerRow);
    assert_eq!(
        contents(&units),
        vec![
            (2, vec![item(5, 7, 1).address, item(6, 7, 2).address]),
            (4, vec![item(5, 9, 3).address]),
        ]
    );
}

#[test]
fn build_per_pixel_gives_one_unit_for_each_pixel() {
    let rows = vec![
        SampledRow { index: 2, pixels: vec![item(5, 7, 1), item(6, 7, 2)] },
        SampledRow { index: 4, pixels: vec![item(5, 9, 3)] },
    ];
    let units = build(&rows, Granularity::PerPixel);
    assert_eq!(
        contents(&units),
        vec![
            (2, vec![item(5, 7, 1).address]),
            (2, vec![item(6, 7, 2).address]),
            (4, vec![item(5, 9, 3).address]),
        ]
    );
}

#[test]
fn build_makes_no_empty_unit() {
    let rows = vec![
        SampledRow { index: 0, pixels: Vec::new() },
        SampledRow { index: 1, pixels: vec![item(0, 1, 1)] },
        SampledRow { index: 2, pixels: Vec::new() },
    ];
    let only = vec![(1, vec![item(0, 1, 1).address])];
    assert_eq!(contents(&build(&rows, Granularity::PerRow)), only);
    assert_eq!(contents(&build(&rows, Granularity::PerPixel)), only);
    assert!(build(&Vec::new(), Granularity::PerRow).is_empty());
    assert!(build(&Vec::new(), Granularity::PerPixel).is_empty());
}

#[test]
fn plan_units_is_sample_then_build() {
    let pixels = vec![px(1, 2, 3, 4), CLEAR, px(5, 6, 7, 8), px(9, 10, 11, 12)];
    let grid = PixelGrid::new(2, 2, pixels).unwrap();
    let origin = CanvasOffset { x: 30, y: 40 };
    for granularity in [Granularity::PerRow, Granularity::PerPixel] {
        let direct = plan_units(&grid, origin, granularity);
        let stepwise = build(&sample(&grid, origin), granularity);
        assert_eq!(contents(&direct), contents(&stepwise));
    }
    assert_eq!(
        contents(&plan_units(&grid, origin, Granularity::PerRow)),
        vec![
            (0, vec![encode(30, 40, 1, 2, 3, 4)]),
            (1, vec![encode(30, 41, 5, 6, 7, 8), encode(31, 41, 9, 10, 11, 12)]),
        ]
    );
}

#[test]
fn every_visible_pixel_is_sent_once_and_nothing_else() {
    let width = 5u32;
    let height = 4u32;
    let mut pixels = Vec::new();
    for y in 0..height {
        for x in 0..width {
            let alpha = if (x + 2 * y) % 3 == 0 { 0 } else { (x + y + 1) as u8 };
            pixels.push(px(x as u8, y as u8, 7, alpha));
        }
    }
    let grid = PixelGrid::new(width, height, pixels).unwrap();
    let origin = CanvasOffset { x: 1000, y: 500 };
    for granularity in [Granularity::PerRow, Granularity::PerPixel] {
        let units = plan_units(&grid, origin, granularity);
        let sent: Vec<Address> = units.iter().flat_map(|u| u.addresses().clone()).collect();
        let mut visible = 0;
        for y in 0..height {
            for x in 0..width {
                let p = grid.pixel(x, y);
                let address = encode(1000 + x as u16, 500 + y as u16, p.r, p.g, p.b, p.a);
                let times = sent.iter().filter(|a| **a == address).count();
                let (cx, cy) = (1000 + x as u16, 500 + y as u16);
                let at_position = sent
                    .iter()
                    .filter(|a| a.segments()[4] == cx && a.segments()[5] == cy)
                    .count();
                if p.is_visible() {
                    visible += 1;
                    assert_eq!(times, 1);
                    assert_eq!(at_position, 1);
                } else {
                    assert_eq!(times, 0);
                    assert_eq!(at_position, 0);
                }
            }
        }
        assert_eq!(sent.len(), visible);
    }
}

#[test]
fn units_keep_row_order_and_pixel_order() {
    let mut pixels = Vec::new();
    for y in 0..3u8 {
        for x in 0..4u8 {
            pixels.push(px(x, y, 0, 200));
        }
    }
    let grid = PixelGrid::new(4, 3, pixels).unwrap();
    let units = plan_units(&grid, CanvasOffset { x: 0, y: 0 }, Granularity::PerRow);
    assert_eq!(units.len(), 3);
    for (k, unit) in units.iter().enumerate() {
        assert_eq!(unit.row() as usize, k);
        let xs: Vec<u16> = unit.addresses().iter().map(|a| a.segments()[4]).collect();
        assert_eq!(xs, vec![0, 1, 2, 3]);
        assert!(unit.addresses().iter().all(|a| a.segments()[5] as usize == k));
    }
}

#[test]
fn a_transparent_image_gives_no_units() {
    let grid = PixelGrid::new(3, 2, vec![CLEAR; 6]).unwrap();
    assert!(plan_units(&grid, CanvasOffset { x: 0, y: 0 }, Granularity::PerRow).is_empty());
    assert!(plan_units(&grid, CanvasOffset { x: 0, y: 0 }, Granularity::PerPixel).is_empty());
}
