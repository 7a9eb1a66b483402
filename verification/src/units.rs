//! Groups sampled pixels into work units, the batches of addresses that one
//! worker sends.

use crate::address::{lemma_encode_injective, lemma_encode_layout, Address};
use crate::grid::{GridView, PixelGrid};
use crate::sampler::{
    fits, lemma_placed_prefix, lemma_row_prefix, lemma_rows_hold_placed, lemma_rows_prefix,
    pixels_prefix, placed, row_samples, rows_prefix, rows_view, sample, sample_at, sample_spec,
    CanvasOffset, RowView, SampledPixel, SampledRow,
};
use vstd::prelude::*;

verus! {

/// How sampled pixels are shared out among workers.
#[derive(Clone, Copy, Debug, PartialEq, Eq, Structural)]
pub enum Granularity {
    /// One unit for each row: as many workers as the image has visible rows.
    PerRow,
    /// One unit for each pixel.
    PerPixel,
}

/// What a work unit holds: the grid row it came from and its addresses in
/// sending order.
pub ghost struct UnitView {
    pub row: nat,
    pub addresses: Seq<Address>,
}

impl UnitView {
    /// A unit has something to send.
    pub open spec fn wf(self) -> bool {
        self.addresses.len() > 0
    }
}

/// The addresses that one worker sends, pass after pass, in this order.
#[derive(Debug)]
pub struct WorkUnit {
    row: u32,
    addresses: Vec<Address>,
}

impl View for WorkUnit {
    type V = UnitView;

    closed spec fn view(&self) -> UnitView {
        UnitView { row: self.row as nat, addresses: self.addresses@ }
    }
}

/// The units of a vector, each by what it holds.
pub open spec fn units_view(units: Seq<WorkUnit>) -> Seq<UnitView> {
    units.map_values(|u: WorkUnit| u@)
}

/// The addresses of a row's pixels, in the row's order.
pub open spec fn addresses_of(pixels: Seq<SampledPixel>) -> Seq<Address> {
    pixels.map_values(|p: SampledPixel| p.address)
}

/// The units that one sampled row gives: at row granularity a single unit
/// with all its addresses, and none if it has no pixel; at pixel granularity
/// a unit for each pixel, from the left.
pub open spec fn row_units(r: RowView, granularity: Granularity) -> Seq<UnitView> {
    match granularity {
        Granularity::PerRow => if r.pixels.len() > 0 {
            seq![UnitView { row: r.index, addresses: addresses_of(r.pixels) }]
        } else {
            Seq::empty()
        },
        Granularity::PerPixel => Seq::new(
            r.pixels.len(),
            |j: int| UnitView { row: r.index, addresses: seq![r.pixels[j].address] },
        ),
    }
}

/// The units of the first `n` rows, in the rows' order.
pub open spec fn units_prefix(rows: Seq<RowView>, granularity: Granularity, n: int) -> Seq<
    UnitView,
>
    decreases n,
{
    if n <= 0 {
        Seq::empty()
    } else {
        units_prefix(rows, granularity, n - 1) + row_units(rows[n - 1], granularity)
    }
}

/// The units of all the rows, in the rows' order.
pub open spec fn build_spec(rows: Seq<RowView>, granularity: Granularity) -> Seq<UnitView> {
    units_prefix(rows, granularity, rows.len() as int)
}

/// The addresses of the first `n` units put end to end.
pub open spec fn sent_prefix(units: Seq<UnitView>, n: int) -> Seq<Address>
    decreases n,
{
    if n <= 0 {
        Seq::empty()
    } else {
        sent_prefix(units, n - 1) + units[n - 1].addresses
    }
}

/// The addresses of all the units put end to end: everything that one pass
/// of every worker sends.
pub open spec fn all_addresses(units: Seq<UnitView>) -> Seq<Address> {
    sent_prefix(units, units.len() as int)
}

/// The units that the grid placed at `o` gives.
pub open spec fn units_spec(g: GridView, o: CanvasOffset, granularity: Granularity) -> Seq<
    UnitView,
> {
    build_spec(sample_spec(g, o), granularity)
}

impl WorkUnit {
    #[verifier::type_invariant]
    spec fn inv(self) -> bool {
        self.addresses@.len() > 0
    }

    /// A unit for grid row `row` that sends `addresses` in order. `None` if
    /// there is nothing to send.
    pub fn new(row: u32, addresses: Vec<Address>) -> (unit: Option<WorkUnit>)
        ensures
            unit is Some <==> addresses@.len() > 0,
            unit matches Some(u) ==> u@ == (UnitView { row: row as nat, addresses: addresses@ }),
    {
        if addresses.len() > 0 {
            Some(WorkUnit { row, addresses })
        } else {
            None
        }
    }

    /// The grid row that the unit came from.
    pub fn row(&self) -> (row: u32)
        ensures
            row == self@.row,
    {
        self.row
    }

    /// How many addresses one pass sends: at least one.
    pub fn len(&self) -> (n: usize)
        ensures
            n == self@.addresses.len(),
            self@.wf(),
    {
        proof {
            use_type_invariant(self);
        }
        self.addresses.len()
    }

    /// The address sent in place `i` of a pass.
    pub fn address(&self, i: usize) -> (addr: Address)
        requires
            i < self@.addresses.len(),
        ensures
            addr == self@.addresses[i as int],
    {
        self.addresses[i]
    }

    /// The addresses in sending order.
    pub fn addresses(&self) -> (all: &Vec<Address>)
        ensures
            all@ == self@.addresses,
            self@.wf(),
    {
        proof {
            use_type_invariant(self);
        }
        &self.addresses
    }
}

/// Collects the addresses of a row's pixels.
fn collect_addresses(pixels: &Vec<SampledPixel>) -> (addresses: Vec<Address>)
    ensures
        addresses@ == addresses_of(pixels@),
{
    let mut addresses: Vec<Address> = Vec::new();
    let mut j: usize = 0;
    while j < pixels.len()
        invariant
            j <= pixels@.len(),
            addresses@.len() == j,
            forall|k: int| 0 <= k < j ==> addresses@[k] == pixels@[k].address,
        decreases pixels@.len() - j,
    {
        addresses.push(pixels[j].address);
        j = j + 1;
    }
    assert(addresses@ =~= addresses_of(pixels@));
    addresses
}

/// Builds the work units of sampled rows: rows from the top, addresses from
/// the left, and no unit without an address.
pub fn build(rows: &Vec<SampledRow>, granularity: Granularity) -> (units: Vec<WorkUnit>)
    ensures
        units_view(units@) == build_spec(rows_view(rows@), granularity),
{
    let mut units: Vec<WorkUnit> = Vec::new();
    let mut i: usize = 0;
    while i < rows.len()
        invariant
            i <= rows@.len(),
            units_view(units@) == units_prefix(rows_view(rows@), granularity, i as int),
        decreases rows@.len() - i,
    {
        let row = &rows[i];
        let ghost above = units_view(units@);
        assert(rows_view(rows@)[i as int] == row@);
        match granularity {
            Granularity::PerRow => {
                if row.pixels.len() > 0 {
                    let addresses = collect_addresses(&row.pixels);
                    units.push(WorkUnit { row: row.index, addresses });
                    assert(units_view(units@) =~= above + row_units(row@, granularity));
                } else {
                    assert(units_view(units@) =~= above + row_units(row@, granularity));
                }
            },
            Granularity::PerPixel => {
                let mut j: usize = 0;
                while j < row.pixels.len()
                    invariant
                        j <= row.pixels@.len(),
                        granularity == Granularity::PerPixel,
                        units_view(units@) == above + row_units(row@, granularity).take(j as int),
                    decreases row.pixels@.len() - j,
                {
                    let ghost before = units_view(units@);
                    let mut addresses: Vec<Address> = Vec::new();
                    addresses.push(row.pixels[j].address);
                    assert(addresses@ =~= seq![row.pixels@[j as int].address]);
                    units.push(WorkUnit { row: row.index, addresses });
                    assert(units_view(units@) =~= before.push(units@.last()@));
                    let ghost all = row_units(row@, granularity);
                    assert(units@.last()@ == all[j as int]);
                    assert(all.take(j + 1) =~= all.take(j as int).push(all[j as int]));
                    assert(units_view(units@) =~= above + all.take(j + 1));
                    j = j + 1;
                }
                assert(row_units(row@, granularity).take(j as int) =~= row_units(
                    row@,
                    granularity,
                ));
            },
        }
        i = i + 1;
    }
    units
}

/// The work units of a grid placed at `origin`: the grid is sampled, and the
/// units are built from what is visible.
pub fn plan_units(grid: &PixelGrid, origin: CanvasOffset, granularity: Granularity) -> (units: Vec<
    WorkUnit,
>)
    requires
        fits(grid@, origin),
    ensures
        units_view(units@) == units_spec(grid@, origin, granularity),
{
    let rows = sample(grid, origin);
    build(&rows, granularity)
}

/// What the first `n` units send does not depend on the units after them.
pub proof fn lemma_sent_prefix_extends(short: Seq<UnitView>, long: Seq<UnitView>, n: int)
    requires
        0 <= n <= short.len() <= long.len(),
        forall|k: int| 0 <= k < short.len() ==> short[k] == long[k],
    ensures
        sent_prefix(short, n) == sent_prefix(long, n),
    decreases n,
{
    if n > 0 {
        lemma_sent_prefix_extends(short, long, n - 1);
    }
}

/// Two runs of units put one after the other send what the first sends, then
/// what the second sends.
pub proof fn lemma_all_addresses_concat(a: Seq<UnitView>, b: Seq<UnitView>)
    ensures
        all_addresses(a + b) == all_addresses(a) + all_addresses(b),
    decreases b.len(),
{
    if b.len() == 0 {
        assert(a + b =~= a);
        assert(all_addresses(a) + all_addresses(b) =~= all_addresses(a));
    } else {
        let front = b.drop_last();
        lemma_all_addresses_concat(a, front);
        lemma_sent_prefix_extends(a + front, a + b, (a + front).len() as int);
        lemma_sent_prefix_extends(front, b, front.len() as int);
        assert((a + b)[a.len() + b.len() - 1] == b.last());
        assert(all_addresses(a + b) =~= all_addresses(a) + all_addresses(b));
    }
}

/// Whatever the granularity, the units of a row send the row's addresses,
/// each once, from the left.
pub proof fn lemma_row_units_addresses(r: RowView, granularity: Granularity)
    ensures
        all_addresses(row_units(r, granularity)) == addresses_of(r.pixels),
        forall|k: int|
            0 <= k < row_units(r, granularity).len() ==> {
                let u = #[trigger] row_units(r, granularity)[k];
                u.wf() && u.row == r.index
            },
{
    let units = row_units(r, granularity);
    match granularity {
        Granularity::PerRow => {
            if r.pixels.len() > 0 {
                assert(sent_prefix(units, 0) =~= Seq::<Address>::empty());
                assert(all_addresses(units) =~= addresses_of(r.pixels));
            } else {
                assert(all_addresses(units) =~= addresses_of(r.pixels));
            }
        },
        Granularity::PerPixel => {
            lemma_singletons(r, r.pixels.len() as int);
            assert(addresses_of(r.pixels).take(r.pixels.len() as int) =~= addresses_of(r.pixels));
        },
    }
}

/// At pixel granularity the first `n` units of a row send its first `n`
/// addresses.
proof fn lemma_singletons(r: RowView, n: int)
    requires
        0 <= n <= r.pixels.len(),
    ensures
        sent_prefix(row_units(r, Granularity::PerPixel), n) == addresses_of(r.pixels).take(n),
    decreases n,
{
    let units = row_units(r, Granularity::PerPixel);
    if n > 0 {
        lemma_singletons(r, n - 1);
        assert(units[n - 1].addresses =~= seq![r.pixels[n - 1].address]);
        assert(sent_prefix(units, n) =~= addresses_of(r.pixels).take(n));
    } else {
        assert(sent_prefix(units, n) =~= addresses_of(r.pixels).take(n));
    }
}

/// Building loses and adds nothing: whatever the granularity, the units of
/// the first `n` rows send the addresses of those rows' pixels, row after
/// row and each row from the left; and no unit is empty.
pub proof fn lemma_units_hold_pixels(rows: Seq<RowView>, granularity: Granularity, n: int)
    requires
        0 <= n <= rows.len(),
    ensures
        all_addresses(units_prefix(rows, granularity, n)) == addresses_of(pixels_prefix(rows, n)),
        forall|k: int|
            0 <= k < units_prefix(rows, granularity, n).len() ==> (#[trigger] units_prefix(
                rows,
                granularity,
                n,
            )[k]).wf(),
    decreases n,
{
    if n > 0 {
        lemma_units_hold_pixels(rows, granularity, n - 1);
        let above = units_prefix(rows, granularity, n - 1);
        let here = row_units(rows[n - 1], granularity);
        lemma_row_units_addresses(rows[n - 1], granularity);
        lemma_all_addresses_concat(above, here);
        assert(addresses_of(pixels_prefix(rows, n)) =~= addresses_of(pixels_prefix(rows, n - 1))
            + addresses_of(rows[n - 1].pixels));
        assert forall|k: int| 0 <= k < (above + here).len() implies (#[trigger] (above
            + here)[k]).wf() by {
            if k < above.len() {
                assert((above + here)[k] == above[k]);
            } else {
                assert((above + here)[k] == here[k - above.len()]);
            }
        }
    } else {
        assert(addresses_of(pixels_prefix(rows, n)) =~= Seq::<Address>::empty());
    }
}

/// What all the units of a grid send, taken together, is the addresses of
/// its work items in reading order; and every unit has something to send.
pub proof fn lemma_units_send_placed(g: GridView, o: CanvasOffset, granularity: Granularity)
    ensures
        all_addresses(units_spec(g, o, granularity)) == addresses_of(placed(g, o)),
        forall|k: int|
            0 <= k < units_spec(g, o, granularity).len() ==> (#[trigger] units_spec(
                g,
                o,
                granularity,
            )[k]).wf(),
{
    let rows = sample_spec(g, o);
    lemma_rows_hold_placed(g, o, g.height as int);
    lemma_units_hold_pixels(rows, granularity, rows.len() as int);
}

/// A visible pixel is sent exactly once: among the addresses of all the
/// units taken together, the address of a visible pixel stands in one place
/// and in no other.
pub proof fn lemma_visible_pixel_sent_once(
    g: GridView,
    o: CanvasOffset,
    granularity: Granularity,
    x: int,
    y: int,
)
    requires
        g.wf(),
        fits(g, o),
        g.contains(x, y),
        g.pixel(x, y).visible(),
    ensures
        ({
            let sent = all_addresses(units_spec(g, o, granularity));
            let address = sample_at(g, o, x, y).address;
            exists|i: int|
                {
                    &&& 0 <= i < sent.len()
                    &&& #[trigger] sent[i] == address
                    &&& forall|j: int|
                        0 <= j < sent.len() && #[trigger] sent[j] == address ==> j == i
                }
        }),
{
    let sent = all_addresses(units_spec(g, o, granularity));
    let items = placed(g, o);
    let address = sample_at(g, o, x, y).address;
    lemma_units_send_placed(g, o, granularity);
    lemma_placed_prefix(g, o, g.height as int);
    let i = choose|i: int| 0 <= i < items.len() && #[trigger] items[i] == sample_at(g, o, x, y);
    assert(sent[i] == address);
    assert forall|j: int| 0 <= j < sent.len() && #[trigger] sent[j] == address implies j == i by {
        let p = g.pixel(x, y);
        let xj = items[j].x - o.x;
        let yj = items[j].y - o.y;
        let q = g.pixel(xj, yj);
        assert(items[j] == sample_at(g, o, xj, yj));
        assert(sent[j] == items[j].address);
        lemma_encode_injective(
            items[i].x,
            items[i].y,
            p.r,
            p.g,
            p.b,
            p.a,
            items[j].x,
            items[j].y,
            q.r,
            q.g,
            q.b,
            q.a,
        );
        assert(items[i].x == items[j].x && items[i].y == items[j].y);
        if j < i {
            assert(items[j].y < items[i].y || (items[j].y == items[i].y && items[j].x
                < items[i].x));
        } else if i < j {
            assert(items[i].y < items[j].y || (items[i].y == items[j].y && items[i].x
                < items[j].x));
        }
    }
}

/// Where the addresses of a unit stand among the addresses of all the units
/// put end to end: the address in place `j` of unit `k` stands `j` places
/// after everything that the units before `k` send.
pub proof fn lemma_sent_prefix_index(units: Seq<UnitView>, n: int, k: int, j: int)
    requires
        0 <= k < n <= units.len(),
        0 <= j < units[k].addresses.len(),
    ensures
        sent_prefix(units, k).len() + j < sent_prefix(units, n).len(),
        sent_prefix(units, n)[sent_prefix(units, k).len() + j] == units[k].addresses[j],
    decreases n,
{
    if k < n - 1 {
        lemma_sent_prefix_index(units, n - 1, k, j);
    }
}

/// Later units stand later: what the first `k` units send is no longer than
/// what the first `n` send, and the addresses of unit `k` lie in between.
pub proof fn lemma_sent_prefix_grows(units: Seq<UnitView>, k: int, n: int)
    requires
        0 <= k < n <= units.len(),
    ensures
        sent_prefix(units, k).len() + units[k].addresses.len() <= sent_prefix(units, n).len(),
    decreases n,
{
    if k < n - 1 {
        lemma_sent_prefix_grows(units, k, n - 1);
    }
}

/// Every place among the addresses of the first `n` units put end to end
/// is a place in one of those units.
pub proof fn lemma_sent_prefix_place(units: Seq<UnitView>, n: int, i: int) -> (place: (int, int))
    requires
        0 <= n <= units.len(),
        0 <= i < sent_prefix(units, n).len(),
    ensures
        0 <= place.0 < n,
        0 <= place.1 < units[place.0].addresses.len(),
        sent_prefix(units, place.0).len() + place.1 == i,
    decreases n,
{
    if i < sent_prefix(units, n - 1).len() {
        lemma_sent_prefix_place(units, n - 1, i)
    } else {
        (n - 1, i - sent_prefix(units, n - 1).len())
    }
}

/// The units of a row carry that row's pixels: the addresses of each are
/// addresses of pixels of the row.
proof fn lemma_row_units_members(r: RowView, granularity: Granularity, k: int, j: int)
    requires
        0 <= k < row_units(r, granularity).len(),
        0 <= j < row_units(r, granularity)[k].addresses.len(),
    ensures
        row_units(r, granularity)[k].row == r.index,
        exists|i: int|
            0 <= i < r.pixels.len() && row_units(r, granularity)[k].addresses[j]
                == (#[trigger] r.pixels[i]).address,
{
    match granularity {
        Granularity::PerRow => {
            assert(row_units(r, granularity)[k].addresses[j] == r.pixels[j].address);
        },
        Granularity::PerPixel => {
            assert(row_units(r, granularity)[k].addresses[j] == r.pixels[k].address);
        },
    }
}

/// Each unit sends to one canvas row, that of the grid row it came from:
/// all its addresses carry the canvas row of that grid row.
pub proof fn lemma_unit_rows(g: GridView, o: CanvasOffset, granularity: Granularity, m: int)
    requires
        g.wf(),
        fits(g, o),
        0 <= m <= sample_spec(g, o).len(),
    ensures
        ({
            let units = units_prefix(sample_spec(g, o), granularity, m);
            forall|k: int, j: int|
                0 <= k < units.len() && 0 <= j < units[k].addresses.len() ==> (
                #[trigger] units[k].addresses[j]).group(5) == o.y + units[k].row
        }),
    decreases m,
{
    let rows = sample_spec(g, o);
    let units = units_prefix(rows, granularity, m);
    if m > 0 {
        lemma_unit_rows(g, o, granularity, m - 1);
        lemma_rows_prefix(g, o, g.height as int);
        let above = units_prefix(rows, granularity, m - 1);
        let r = rows[m - 1];
        let here = row_units(r, granularity);
        assert(units == above + here);
        lemma_row_prefix(g, o, r.index as int, g.width as int);
        assert forall|k: int, j: int|
            0 <= k < units.len() && 0 <= j < units[k].addresses.len() implies (
        #[trigger] units[k].addresses[j]).group(5) == o.y + units[k].row by {
            if k < above.len() {
                assert(units[k] == above[k]);
                assert(above[k].addresses[j].group(5) == o.y + above[k].row);
            } else {
                let h = k - above.len();
                assert(units[k] == here[h]);
                lemma_row_units_members(r, granularity, h, j);
                let i = choose|i: int|
                    0 <= i < r.pixels.len() && here[h].addresses[j] == (
                    #[trigger] r.pixels[i]).address;
                let x = r.pixels[i].x - o.x;
                let p = g.pixel(x, r.index as int);
                assert(r.pixels[i] == sample_at(g, o, x, r.index as int));
                lemma_encode_layout(r.pixels[i].x, r.pixels[i].y, p.r, p.g, p.b, p.a);
            }
        }
    }
}

/// A visible pixel is in exactly one work unit, exactly once: the unit of
/// its grid row holds its address in one place, and no unit holds it in any
/// other.
pub proof fn lemma_visible_pixel_in_one_unit(
    g: GridView,
    o: CanvasOffset,
    granularity: Granularity,
    x: int,
    y: int,
)
    requires
        g.wf(),
        fits(g, o),
        g.contains(x, y),
        g.pixel(x, y).visible(),
    ensures
        ({
            let units = units_spec(g, o, granularity);
            let address = sample_at(g, o, x, y).address;
            exists|k: int, j: int|
                {
                    &&& 0 <= k < units.len()
                    &&& 0 <= j < units[k].addresses.len()
                    &&& #[trigger] units[k].addresses[j] == address
                    &&& units[k].row == y
                    &&& forall|l: int, i: int|
                        0 <= l < units.len() && 0 <= i < units[l].addresses.len()
                            && #[trigger] units[l].addresses[i] == address ==> l == k && i == j
                }
        }),
{
    let units = units_spec(g, o, granularity);
    let n = units.len() as int;
    let sent = all_addresses(units);
    let address = sample_at(g, o, x, y).address;
    let p = g.pixel(x, y);
    lemma_visible_pixel_sent_once(g, o, granularity, x, y);
    let at = choose|at: int|
        {
            &&& 0 <= at < sent.len()
            &&& #[trigger] sent[at] == address
            &&& forall|other: int|
                0 <= other < sent.len() && #[trigger] sent[other] == address ==> other == at
        };
    let (k, j) = lemma_sent_prefix_place(units, n, at);
    lemma_sent_prefix_index(units, n, k, j);
    assert(units[k].addresses[j] == address);
    lemma_unit_rows(g, o, granularity, sample_spec(g, o).len() as int);
    lemma_encode_layout((o.x + x) as u16, (o.y + y) as u16, p.r, p.g, p.b, p.a);
    assert(units[k].row == y);
    assert forall|l: int, i: int|
        0 <= l < units.len() && 0 <= i < units[l].addresses.len()
            && #[trigger] units[l].addresses[i] == address implies l == k && i == j by {
        lemma_sent_prefix_index(units, n, l, i);
        let other = sent_prefix(units, l).len() + i;
        assert(sent[other as int] == address);
        assert(other == at);
        if l < k {
            lemma_sent_prefix_grows(units, l, k);
        } else if k < l {
            lemma_sent_prefix_grows(units, k, l);
        }
    }
}

/// Nothing but visible pixels is sent: every address of every unit is that
/// of a visible pixel of the grid, at that pixel's place on the canvas, so
/// no address is ever sent for the position of a fully transparent pixel.
pub proof fn lemma_transparent_pixel_never_sent(
    g: GridView,
    o: CanvasOffset,
    granularity: Granularity,
)
    requires
        g.wf(),
        fits(g, o),
    ensures
        ({
            let sent = all_addresses(units_spec(g, o, granularity));
            &&& forall|i: int|
                0 <= i < sent.len() ==> {
                    let x = (#[trigger] sent[i]).group(4) - o.x;
                    let y = sent[i].group(5) - o.y;
                    &&& g.contains(x, y)
                    &&& g.pixel(x, y).visible()
                    &&& sent[i] == sample_at(g, o, x, y).address
                }
            &&& forall|i: int, x: int, y: int|
                0 <= i < sent.len() && g.contains(x, y) && !(#[trigger] g.pixel(x, y)).visible()
                    ==> !((#[trigger] sent[i]).group(4) == o.x + x && sent[i].group(5) == o.y + y)
        }),
{
    let sent = all_addresses(units_spec(g, o, granularity));
    let items = placed(g, o);
    lemma_units_send_placed(g, o, granularity);
    lemma_placed_prefix(g, o, g.height as int);
    assert forall|i: int| 0 <= i < sent.len() implies {
        let x = (#[trigger] sent[i]).group(4) - o.x;
        let y = sent[i].group(5) - o.y;
        &&& g.contains(x, y)
        &&& g.pixel(x, y).visible()
        &&& sent[i] == sample_at(g, o, x, y).address
    } by {
        let xi = items[i].x - o.x;
        let yi = items[i].y - o.y;
        let q = g.pixel(xi, yi);
        assert(items[i] == sample_at(g, o, xi, yi));
        assert(sent[i] == items[i].address);
        lemma_encode_layout(items[i].x, items[i].y, q.r, q.g, q.b, q.a);
    }
}

/// At row granularity there is one unit for each sampled row that has a
/// pixel, in the rows' order, and it sends that row's addresses.
pub proof fn lemma_units_per_row(rows: Seq<RowView>, n: int)
    requires
        0 <= n <= rows.len(),
        forall|k: int| 0 <= k < n ==> (#[trigger] rows[k]).pixels.len() > 0,
    ensures
        ({
            let units = units_prefix(rows, Granularity::PerRow, n);
            &&& units.len() == n
            &&& forall|k: int|
                0 <= k < n ==> #[trigger] units[k] == (UnitView {
                    row: rows[k].index,
                    addresses: addresses_of(rows[k].pixels),
                })
        }),
    decreases n,
{
    if n > 0 {
        lemma_units_per_row(rows, n - 1);
        assert(rows[n - 1].pixels.len() > 0);
    }
}

/// Rows stay in order and pixels stay in order: at row granularity the units
/// are the grid rows that have a visible pixel, from the top (so a grid whose
/// rows all have one gives a unit for each row, the first row first), and
/// within a unit the addresses stand from left to right.
pub proof fn lemma_row_order(g: GridView, o: CanvasOffset)
    requires
        g.wf(),
        fits(g, o),
    ensures
        ({
            let units = units_spec(g, o, Granularity::PerRow);
            &&& units.len() <= g.height
            &&& forall|k: int|
                0 <= k < units.len() ==> {
                    let u = #[trigger] units[k];
                    &&& u.row < g.height
                    &&& u.addresses == addresses_of(row_samples(g, o, u.row as int))
                    &&& u.addresses.len() > 0
                }
            &&& forall|k: int, l: int|
                0 <= k < l < units.len() ==> (#[trigger] units[k]).row < (#[trigger] units[l]).row
            &&& forall|y: int|
                0 <= y < g.height && (#[trigger] row_samples(g, o, y)).len() > 0 ==> exists|k: int|
                    0 <= k < units.len() && (#[trigger] units[k]).row == y
            &&& forall|k: int, i: int, j: int|
                0 <= k < units.len() && 0 <= i < j < units[k].addresses.len() ==> (
                #[trigger] units[k].addresses[i]).group(4) < (
                #[trigger] units[k].addresses[j]).group(4)
            &&& (forall|y: int| 0 <= y < g.height ==> (#[trigger] row_samples(g, o, y)).len() > 0)
                ==> {
                &&& units.len() == g.height
                &&& forall|k: int| 0 <= k < units.len() ==> (#[trigger] units[k]).row == k
            }
        }),
{
    let rows = sample_spec(g, o);
    let units = units_spec(g, o, Granularity::PerRow);
    lemma_rows_prefix(g, o, g.height as int);
    lemma_units_per_row(rows, rows.len() as int);
    assert forall|y: int|
        0 <= y < g.height && (#[trigger] row_samples(g, o, y)).len() > 0 implies exists|k: int|
        0 <= k < units.len() && (#[trigger] units[k]).row == y by {
        let k = choose|k: int| 0 <= k < rows.len() && (#[trigger] rows[k]).index == y;
        assert(units[k].row == y);
    }
    assert forall|k: int, i: int, j: int|
        0 <= k < units.len() && 0 <= i < j < units[k].addresses.len() implies (
    #[trigger] units[k].addresses[i]).group(4) < (#[trigger] units[k].addresses[j]).group(4) by {
        let y = rows[k].index as int;
        let s = row_samples(g, o, y);
        lemma_row_prefix(g, o, y, g.width as int);
        let pi = g.pixel(s[i].x - o.x, y);
        let pj = g.pixel(s[j].x - o.x, y);
        assert(units[k].addresses[i] == s[i].address);
        assert(units[k].addresses[j] == s[j].address);
        lemma_encode_layout(s[i].x, s[i].y, pi.r, pi.g, pi.b, pi.a);
        lemma_encode_layout(s[j].x, s[j].y, pj.r, pj.g, pj.b, pj.a);
    }
    if forall|y: int| 0 <= y < g.height ==> (#[trigger] row_samples(g, o, y)).len() > 0 {
        lemma_all_rows_sampled(g, o, g.height as int);
    }
}

/// Where each of the first `m` grid rows has a visible pixel, each is
/// sampled, in its place.
proof fn lemma_all_rows_sampled(g: GridView, o: CanvasOffset, m: int)
    requires
        0 <= m <= g.height,
        forall|y: int| 0 <= y < m ==> (#[trigger] row_samples(g, o, y)).len() > 0,
    ensures
        rows_prefix(g, o, m).len() == m,
        forall|k: int| 0 <= k < m ==> (#[trigger] rows_prefix(g, o, m)[k]).index == k,
    decreases m,
{
    if m > 0 {
        lemma_all_rows_sampled(g, o, m - 1);
        assert(row_samples(g, o, m - 1).len() > 0);
    }
}

/// A grid without a visible pixel gives no unit at all.
pub proof fn lemma_transparent_grid_no_units(
    g: GridView,
    o: CanvasOffset,
    granularity: Granularity,
)
    requires
        g.wf(),
        fits(g, o),
        g.fully_transparent(),
    ensures
        sample_spec(g, o).len() == 0,
        units_spec(g, o, granularity).len() == 0,
{
    let rows = sample_spec(g, o);
    lemma_rows_prefix(g, o, g.height as int);
    if rows.len() > 0 {
        let r = rows[0];
        lemma_row_prefix(g, o, r.index as int, g.width as int);
        let x = r.pixels[0].x - o.x;
        assert(g.pixel(x, r.index as int).visible());
        assert(false);
    }
}

} // verus!
