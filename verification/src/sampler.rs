//! Turns a pixel grid into rows of addressed work items, leaving out what is
//! fully transparent.

use crate::address::{build_address, encode_spec, Address};
use crate::grid::{GridView, PixelGrid};
use vstd::prelude::*;

verus! {

/// Where the grid's top left corner lies on the remote canvas.
#[derive(Clone, Copy, Debug, PartialEq, Eq, Structural)]
pub struct CanvasOffset {
    pub x: u16,
    pub y: u16,
}

/// One visible pixel: its position on the canvas and the address that draws
/// it there.
#[derive(Clone, Copy, Debug, PartialEq, Eq, Structural)]
pub struct SampledPixel {
    pub x: u16,
    pub y: u16,
    pub address: Address,
}

/// The visible pixels of one grid row, from the left.
#[derive(Debug)]
pub struct SampledRow {
    /// The row's place in the grid, counted from the top.
    pub index: u32,
    pub pixels: Vec<SampledPixel>,
}

/// What a sampled row holds.
pub ghost struct RowView {
    pub index: nat,
    pub pixels: Seq<SampledPixel>,
}

impl View for SampledRow {
    type V = RowView;

    open spec fn view(&self) -> RowView {
        RowView { index: self.index as nat, pixels: self.pixels@ }
    }
}

/// The rows of a vector, each by what it holds.
pub open spec fn rows_view(rows: Seq<SampledRow>) -> Seq<RowView> {
    rows.map_values(|r: SampledRow| r@)
}

/// Every pixel of the grid, moved by the offset, lands on a canvas position
/// that sixteen bits can hold.
pub open spec fn fits(g: GridView, o: CanvasOffset) -> bool {
    g.width == 0 || g.height == 0 || (o.x + g.width <= 0x1_0000 && o.y + g.height <= 0x1_0000)
}

/// The work item for the pixel in column `x` of row `y`.
pub open spec fn sample_at(g: GridView, o: CanvasOffset, x: int, y: int) -> SampledPixel {
    let p = g.pixel(x, y);
    let cx = (o.x + x) as u16;
    let cy = (o.y + y) as u16;
    SampledPixel { x: cx, y: cy, address: encode_spec(cx, cy, p.r, p.g, p.b, p.a) }
}

/// The work items of the visible pixels among the first `n` of row `y`, from
/// the left.
pub open spec fn row_prefix(g: GridView, o: CanvasOffset, y: int, n: int) -> Seq<SampledPixel>
    decreases n,
{
    if n <= 0 {
        Seq::empty()
    } else {
        let before = row_prefix(g, o, y, n - 1);
        if g.pixel(n - 1, y).visible() {
            before.push(sample_at(g, o, n - 1, y))
        } else {
            before
        }
    }
}

/// The work items of the visible pixels of row `y`, from the left.
pub open spec fn row_samples(g: GridView, o: CanvasOffset, y: int) -> Seq<SampledPixel> {
    row_prefix(g, o, y, g.width as int)
}

/// The sampled rows among the first `m` rows of the grid, from the top: one
/// for each row that has a visible pixel.
pub open spec fn rows_prefix(g: GridView, o: CanvasOffset, m: int) -> Seq<RowView>
    decreases m,
{
    if m <= 0 {
        Seq::empty()
    } else {
        let above = rows_prefix(g, o, m - 1);
        let pixels = row_samples(g, o, m - 1);
        if pixels.len() > 0 {
            above.push(RowView { index: (m - 1) as nat, pixels })
        } else {
            above
        }
    }
}

/// The sampled rows of the whole grid.
pub open spec fn sample_spec(g: GridView, o: CanvasOffset) -> Seq<RowView> {
    rows_prefix(g, o, g.height as int)
}

/// Within a sampled row the work items stand from left to right: each is the
/// item of a visible pixel of that row, a pixel further right comes later,
/// and no visible pixel among the first `n` is left out.
pub proof fn lemma_row_prefix(g: GridView, o: CanvasOffset, y: int, n: int)
    requires
        g.wf(),
        fits(g, o),
        0 <= y < g.height,
        0 <= n <= g.width,
    ensures
        ({
            let s = row_prefix(g, o, y, n);
            &&& s.len() <= n
            &&& forall|j: int|
                0 <= j < s.len() ==> {
                    let x = (#[trigger] s[j]).x - o.x;
                    &&& 0 <= x < n
                    &&& g.pixel(x, y).visible()
                    &&& s[j] == sample_at(g, o, x, y)
                }
            &&& forall|j: int, k: int|
                0 <= j < k < s.len() ==> (#[trigger] s[j]).x < (#[trigger] s[k]).x
            &&& forall|x: int|
                0 <= x < n && (#[trigger] g.pixel(x, y)).visible() ==> exists|j: int|
                    0 <= j < s.len() && #[trigger] s[j] == sample_at(g, o, x, y)
        }),
    decreases n,
{
    if n > 0 {
        lemma_row_prefix(g, o, y, n - 1);
        let before = row_prefix(g, o, y, n - 1);
        let s = row_prefix(g, o, y, n);
        if g.pixel(n - 1, y).visible() {
            assert(s == before.push(sample_at(g, o, n - 1, y)));
            assert(s[s.len() - 1] == sample_at(g, o, n - 1, y));
            assert forall|x: int| 0 <= x < n && (#[trigger] g.pixel(x, y)).visible() implies exists|
                j: int,
            |
                0 <= j < s.len() && #[trigger] s[j] == sample_at(g, o, x, y) by {
                if x < n - 1 {
                    let j = choose|j: int|
                        0 <= j < before.len() && #[trigger] before[j] == sample_at(g, o, x, y);
                    assert(s[j] == sample_at(g, o, x, y));
                } else {
                    assert(s[s.len() - 1] == sample_at(g, o, x, y));
                }
            }
        } else {
            assert(s == before);
        }
    }
}

/// The sampled rows stand from top to bottom: each is a grid row with at
/// least one visible pixel and holds that row's work items, a row further
/// down comes later, and no row with a visible pixel among the first `m` is
/// left out.
pub proof fn lemma_rows_prefix(g: GridView, o: CanvasOffset, m: int)
    requires
        0 <= m <= g.height,
    ensures
        ({
            let rows = rows_prefix(g, o, m);
            &&& rows.len() <= m
            &&& forall|k: int|
                0 <= k < rows.len() ==> {
                    let r = #[trigger] rows[k];
                    &&& r.index < m
                    &&& r.pixels.len() > 0
                    &&& r.pixels == row_samples(g, o, r.index as int)
                }
            &&& forall|k: int, l: int|
                0 <= k < l < rows.len() ==> (#[trigger] rows[k]).index < (#[trigger] rows[l]).index
            &&& forall|y: int|
                0 <= y < m && (#[trigger] row_samples(g, o, y)).len() > 0 ==> exists|k: int|
                    0 <= k < rows.len() && (#[trigger] rows[k]).index == y
        }),
    decreases m,
{
    if m > 0 {
        lemma_rows_prefix(g, o, m - 1);
        let above = rows_prefix(g, o, m - 1);
        let rows = rows_prefix(g, o, m);
        let pixels = row_samples(g, o, m - 1);
        if pixels.len() > 0 {
            assert(rows == above.push(RowView { index: (m - 1) as nat, pixels }));
            assert(rows[rows.len() - 1].index == m - 1);
            assert forall|y: int|
                0 <= y < m && (#[trigger] row_samples(g, o, y)).len() > 0 implies exists|k: int|
                0 <= k < rows.len() && (#[trigger] rows[k]).index == y by {
                if y < m - 1 {
                    let k = choose|k: int| 0 <= k < above.len() && (#[trigger] above[k]).index == y;
                    assert(rows[k].index == y);
                } else {
                    assert(rows[rows.len() - 1].index == y);
                }
            }
        } else {
            assert(rows == above);
        }
    }
}

/// The work items of the first `m` grid rows put end to end: row after row
/// from the top, each row from the left.
pub open spec fn placed_prefix(g: GridView, o: CanvasOffset, m: int) -> Seq<SampledPixel>
    decreases m,
{
    if m <= 0 {
        Seq::empty()
    } else {
        placed_prefix(g, o, m - 1) + row_samples(g, o, m - 1)
    }
}

/// All work items of the grid put end to end.
pub open spec fn placed(g: GridView, o: CanvasOffset) -> Seq<SampledPixel> {
    placed_prefix(g, o, g.height as int)
}

/// The pixels of sampled rows put end to end.
pub open spec fn pixels_prefix(rows: Seq<RowView>, n: int) -> Seq<SampledPixel>
    decreases n,
{
    if n <= 0 {
        Seq::empty()
    } else {
        pixels_prefix(rows, n - 1) + rows[n - 1].pixels
    }
}

/// Sampling keeps every visible pixel once and nothing else: put end to
/// end, the work items of the first `m` rows are items of visible pixels of
/// those rows, they stand in reading order (so no position comes twice), and
/// no visible pixel of those rows is left out.
pub proof fn lemma_placed_prefix(g: GridView, o: CanvasOffset, m: int)
    requires
        g.wf(),
        fits(g, o),
        0 <= m <= g.height,
    ensures
        ({
            let s = placed_prefix(g, o, m);
            &&& forall|i: int|
                0 <= i < s.len() ==> {
                    let x = (#[trigger] s[i]).x - o.x;
                    let y = s[i].y - o.y;
                    &&& g.contains(x, y)
                    &&& y < m
                    &&& g.pixel(x, y).visible()
                    &&& s[i] == sample_at(g, o, x, y)
                }
            &&& forall|i: int, j: int|
                0 <= i < j < s.len() ==> {
                    ||| (#[trigger] s[i]).y < (#[trigger] s[j]).y
                    ||| (s[i].y == s[j].y && s[i].x < s[j].x)
                }
            &&& forall|x: int, y: int|
                g.contains(x, y) && y < m && (#[trigger] g.pixel(x, y)).visible() ==> exists|i: int|
                    0 <= i < s.len() && #[trigger] s[i] == sample_at(g, o, x, y)
        }),
    decreases m,
{
    if m > 0 {
        lemma_placed_prefix(g, o, m - 1);
        lemma_row_prefix(g, o, m - 1, g.width as int);
        let above = placed_prefix(g, o, m - 1);
        let row = row_samples(g, o, m - 1);
        let s = placed_prefix(g, o, m);
        assert(s == above + row);
        assert forall|i: int| 0 <= i < s.len() implies {
            let x = (#[trigger] s[i]).x - o.x;
            let y = s[i].y - o.y;
            &&& g.contains(x, y)
            &&& y < m
            &&& g.pixel(x, y).visible()
            &&& s[i] == sample_at(g, o, x, y)
            &&& (i >= above.len() ==> y == m - 1)
        } by {
            if i < above.len() {
                assert(s[i] == above[i]);
            } else {
                assert(s[i] == row[i - above.len()]);
            }
        }
        assert forall|i: int, j: int| 0 <= i < j < s.len() implies {
            ||| (#[trigger] s[i]).y < (#[trigger] s[j]).y
            ||| (s[i].y == s[j].y && s[i].x < s[j].x)
        } by {
            if j < above.len() {
                assert(s[i] == above[i] && s[j] == above[j]);
            } else if i < above.len() {
                assert(s[i] == above[i]);
                assert(s[j] == row[j - above.len()]);
            } else {
                assert(s[i] == row[i - above.len()]);
                assert(s[j] == row[j - above.len()]);
            }
        }
        assert forall|x: int, y: int|
            g.contains(x, y) && y < m && (#[trigger] g.pixel(x, y)).visible() implies exists|
            i: int,
        |
            0 <= i < s.len() && #[trigger] s[i] == sample_at(g, o, x, y) by {
            if y < m - 1 {
                let i = choose|i: int|
                    0 <= i < above.len() && #[trigger] above[i] == sample_at(g, o, x, y);
                assert(s[i] == sample_at(g, o, x, y));
            } else {
                let j = choose|j: int|
                    0 <= j < row.len() && #[trigger] row[j] == sample_at(g, o, x, y);
                assert(s[above.len() + j] == sample_at(g, o, x, y));
            }
        }
    }
}

/// The sampled rows hold the grid's work items and no others: put end to
/// end, their pixels are the work items of the first `m` grid rows.
pub proof fn lemma_rows_hold_placed(g: GridView, o: CanvasOffset, m: int)
    requires
        0 <= m <= g.height,
    ensures
        pixels_prefix(rows_prefix(g, o, m), rows_prefix(g, o, m).len() as int) == placed_prefix(
            g,
            o,
            m,
        ),
    decreases m,
{
    if m > 0 {
        lemma_rows_hold_placed(g, o, m - 1);
        let above = rows_prefix(g, o, m - 1);
        let rows = rows_prefix(g, o, m);
        let pixels = row_samples(g, o, m - 1);
        if pixels.len() > 0 {
            assert(rows == above.push(RowView { index: (m - 1) as nat, pixels }));
            lemma_pixels_prefix_extends(above, rows, above.len() as int);
        } else {
            assert(placed_prefix(g, o, m) =~= placed_prefix(g, o, m - 1));
        }
    }
}

/// What the first `n` rows hold does not depend on the rows after them.
pub proof fn lemma_pixels_prefix_extends(short: Seq<RowView>, long: Seq<RowView>, n: int)
    requires
        0 <= n <= short.len() <= long.len(),
        forall|k: int| 0 <= k < short.len() ==> short[k] == long[k],
    ensures
        pixels_prefix(short, n) == pixels_prefix(long, n),
    decreases n,
{
    if n > 0 {
        lemma_pixels_prefix_extends(short, long, n - 1);
    }
}

/// Whether the grid can be placed at the offset: see [`fits`].
pub fn fits_canvas(grid: &PixelGrid, origin: CanvasOffset) -> (ok: bool)
    ensures
        ok == fits(grid@, origin),
{
    let width = grid.width();
    let height = grid.height();
    width == 0 || height == 0 || (origin.x as u64 + width as u64 <= 0x1_0000 && origin.y as u64
        + height as u64 <= 0x1_0000)
}

/// Samples one row of the grid: a work item for each visible pixel, from the
/// left.
pub fn sample_row(grid: &PixelGrid, origin: CanvasOffset, y: u32) -> (pixels: Vec<SampledPixel>)
    requires
        fits(grid@, origin),
        y < grid@.height,
    ensures
        pixels@ == row_samples(grid@, origin, y as int),
{
    let width = grid.width();
    let mut pixels: Vec<SampledPixel> = Vec::new();
    let mut x: u32 = 0;
    while x < width
        invariant
            x <= width,
            width == grid@.width,
            y < grid@.height,
            fits(grid@, origin),
            pixels@ == row_prefix(grid@, origin, y as int, x as int),
        decreases width - x,
    {
        let pixel = grid.pixel(x, y);
        if pixel.is_visible() {
            let cx: u16 = (origin.x as u32 + x) as u16;
            let cy: u16 = (origin.y as u32 + y) as u16;
            let address = build_address(cx, cy, &pixel);
            pixels.push(SampledPixel { x: cx, y: cy, address });
        }
        x = x + 1;
    }
    pixels
}

/// Samples the grid placed at `origin`: for each row that has a visible
/// pixel, from the top, the work items of its visible pixels, from the left.
pub fn sample(grid: &PixelGrid, origin: CanvasOffset) -> (rows: Vec<SampledRow>)
    requires
        fits(grid@, origin),
    ensures
        rows_view(rows@) == sample_spec(grid@, origin),
{
    let height = grid.height();
    let mut rows: Vec<SampledRow> = Vec::new();
    let mut y: u32 = 0;
    while y < height
        invariant
            y <= height,
            height == grid@.height,
            fits(grid@, origin),
            rows_view(rows@) == rows_prefix(grid@, origin, y as int),
        decreases height - y,
    {
        let pixels = sample_row(grid, origin, y);
        if pixels.len() > 0 {
            let ghost before = rows@;
            rows.push(SampledRow { index: y, pixels });
            assert(rows_view(rows@) =~= rows_view(before).push(rows@.last()@));
        }
        y = y + 1;
    }
    rows
}

} // verus!
