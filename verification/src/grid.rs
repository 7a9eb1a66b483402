//! A rectangular grid of RGBA pixels, as the decoder and resampler hand it
//! over.

use vstd::prelude::*;

verus! {

/// One pixel's color: red, green, blue and opacity, eight bits each.
#[derive(Clone, Copy, Debug, PartialEq, Eq, Structural)]
pub struct Color {
    pub r: u8,
    pub g: u8,
    pub b: u8,
    pub a: u8,
}

impl Color {
    /// A pixel is drawn unless it is fully transparent.
    pub open spec fn visible(self) -> bool {
        self.a > 0
    }

    /// Whether the pixel is drawn at all.
    pub fn is_visible(&self) -> (v: bool)
        ensures
            v == self.visible(),
    {
        self.a > 0
    }
}

/// What a grid holds: its dimensions and its pixels, row after row from the
/// top, each row from the left.
pub ghost struct GridView {
    pub width: nat,
    pub height: nat,
    pub pixels: Seq<Color>,
}

impl GridView {
    /// There is one pixel for each position.
    pub open spec fn wf(self) -> bool {
        self.pixels.len() == self.width * self.height
    }

    /// Whether (`x`, `y`) is a position of the grid.
    pub open spec fn contains(self, x: int, y: int) -> bool {
        0 <= x < self.width && 0 <= y < self.height
    }

    /// The pixel in column `x` of row `y`.
    pub open spec fn pixel(self, x: int, y: int) -> Color {
        self.pixels[y * self.width + x]
    }

    /// No pixel of the grid is drawn.
    pub open spec fn fully_transparent(self) -> bool {
        forall|x: int, y: int| self.contains(x, y) ==> !(#[trigger] self.pixel(x, y)).visible()
    }
}

/// The place of a position in row-major order lies within the grid.
pub proof fn lemma_index_in_bounds(width: nat, height: nat, x: int, y: int)
    requires
        0 <= x < width,
        0 <= y < height,
    ensures
        0 <= y * width + x < width * height,
        y * width <= y * width + x,
{
    assert(y * width >= 0) by (nonlinear_arith)
        requires
            y >= 0,
            width >= 0,
    ;
    assert((y + 1) * width <= height * width) by (nonlinear_arith)
        requires
            y + 1 <= height,
            width >= 0,
    ;
    assert((y + 1) * width == y * width + width) by (nonlinear_arith);
    assert(height * width == width * height) by (nonlinear_arith);
}

/// The pixels that a buffer of raw samples holds: four bytes for each, in
/// the order red, green, blue, opacity.
pub open spec fn pixels_of_bytes(bytes: Seq<u8>) -> Seq<Color> {
    Seq::new(
        (bytes.len() / 4) as nat,
        |i: int|
            Color {
                r: bytes[4 * i],
                g: bytes[4 * i + 1],
                b: bytes[4 * i + 2],
                a: bytes[4 * i + 3],
            },
    )
}

/// An RGBA pixel grid.
#[derive(Debug)]
pub struct PixelGrid {
    width: u32,
    height: u32,
    pixels: Vec<Color>,
}

impl View for PixelGrid {
    type V = GridView;

    closed spec fn view(&self) -> GridView {
        GridView { width: self.width as nat, height: self.height as nat, pixels: self.pixels@ }
    }
}

impl PixelGrid {
    #[verifier::type_invariant]
    spec fn inv(self) -> bool {
        self.pixels@.len() == self.width * self.height
    }

    /// A grid of the given dimensions over `pixels`, which lists the rows
    /// from the top and each row from the left. `None` unless there is
    /// exactly one pixel for each position.
    pub fn new(width: u32, height: u32, pixels: Vec<Color>) -> (grid: Option<PixelGrid>)
        ensures
            grid is Some <==> pixels@.len() == width * height,
            grid matches Some(g) ==> g@ == (GridView {
                width: width as nat,
                height: height as nat,
                pixels: pixels@,
            }),
    {
        assert(width * height <= 0xffff_ffff * 0xffff_ffff) by (nonlinear_arith)
            requires
                0 <= width <= 0xffff_ffff,
                0 <= height <= 0xffff_ffff,
        ;
        let area: u64 = (width as u64) * (height as u64);
        if pixels.len() as u64 == area {
            Some(PixelGrid { width, height, pixels })
        } else {
            None
        }
    }

    /// A grid of the given dimensions over raw samples, four bytes for each
    /// pixel in the order red, green, blue, opacity, rows from the top and
    /// each row from the left. `None` unless the buffer holds exactly
    /// `4 · width · height` bytes.
    pub fn from_raw(width: u32, height: u32, bytes: &[u8]) -> (grid: Option<PixelGrid>)
        ensures
            grid is Some <==> bytes@.len() == 4 * (width * height),
            grid matches Some(g) ==> g@ == (GridView {
                width: width as nat,
                height: height as nat,
                pixels: pixels_of_bytes(bytes@),
            }),
    {
        assert(width * height <= 0xffff_ffff * 0xffff_ffff) by (nonlinear_arith)
            requires
                0 <= width <= 0xffff_ffff,
                0 <= height <= 0xffff_ffff,
        ;
        let needed: u128 = 4 * ((width as u128) * (height as u128));
        if bytes.len() as u128 != needed {
            return None;
        }
        let count: usize = bytes.len() / 4;
        let mut pixels: Vec<Color> = Vec::new();
        let mut i: usize = 0;
        while i < count
            invariant
                i <= count,
                count * 4 == bytes@.len(),
                count * 4 <= usize::MAX,
                pixels@.len() == i,
                forall|k: int| 0 <= k < i ==> pixels@[k] == pixels_of_bytes(bytes@)[k],
            decreases count - i,
        {
            let base: usize = 4 * i;
            pixels.push(
                Color {
                    r: bytes[base],
                    g: bytes[base + 1],
                    b: bytes[base + 2],
                    a: bytes[base + 3],
                },
            );
            i = i + 1;
        }
        assert(pixels@ =~= pixels_of_bytes(bytes@));
        Some(PixelGrid { width, height, pixels })
    }

    /// The number of columns.
    pub fn width(&self) -> (w: u32)
        ensures
            w == self@.width,
            self@.wf(),
    {
        proof {
            use_type_invariant(self);
        }
        self.width
    }

    /// The number of rows.
    pub fn height(&self) -> (h: u32)
        ensures
            h == self@.height,
            self@.wf(),
    {
        proof {
            use_type_invariant(self);
        }
        self.height
    }

    /// The pixel in column `x` of row `y`.
    pub fn pixel(&self, x: u32, y: u32) -> (p: Color)
        requires
            self@.contains(x as int, y as int),
        ensures
            p == self@.pixel(x as int, y as int),
    {
        proof {
            use_type_invariant(self);
            lemma_index_in_bounds(self.width as nat, self.height as nat, x as int, y as int);
        }
        let count: usize = self.pixels.len();
        assert(y * self.width + x < count);
        let row_start: usize = (y as usize) * (self.width as usize);
        self.pixels[row_start + x as usize]
    }
}

} // verus!
