//! The destination address of one pixel: the wire contract with the
//! receiving service.

use crate::grid::Color;
use vstd::prelude::*;

verus! {

/// The 64 high-order bits of every destination address: `2001:0610:1908:a000`.
pub const NETWORK_PREFIX: u64 = 0x2001_0610_1908_a000;

/// A 128-bit destination address.
#[derive(Clone, Copy, Debug, PartialEq, Eq, Structural)]
pub struct Address {
    /// The address as one number, most significant group first.
    pub bits: u128,
}

/// The number that stands for the pixel at canvas position (`x`, `y`) with
/// color (`r`, `g`, `b`, `a`): the network prefix, then `x`, `y`, the group
/// `b·256 + g` and the group `r·256 + a`, sixteen bits each.
pub open spec fn encode_value(x: u16, y: u16, r: u8, g: u8, b: u8, a: u8) -> nat {
    (NETWORK_PREFIX as nat) * 0x1_0000_0000_0000_0000
        + (x as nat) * 0x1_0000_0000_0000
        + (y as nat) * 0x1_0000_0000
        + (b as nat) * 0x100_0000
        + (g as nat) * 0x1_0000
        + (r as nat) * 0x100
        + (a as nat)
}

/// The destination address of the pixel at canvas position (`x`, `y`) with
/// color (`r`, `g`, `b`, `a`).
pub open spec fn encode_spec(x: u16, y: u16, r: u8, g: u8, b: u8, a: u8) -> Address {
    Address { bits: encode_value(x, y, r, g, b, a) as u128 }
}

impl Address {
    /// One of the eight 16-bit groups, counted from the most significant.
    pub open spec fn group(self, i: int) -> nat {
        if i == 0 {
            (self.bits as nat / 0x1_0000_0000_0000_0000_0000_0000_0000) % 0x1_0000
        } else if i == 1 {
            (self.bits as nat / 0x1_0000_0000_0000_0000_0000_0000) % 0x1_0000
        } else if i == 2 {
            (self.bits as nat / 0x1_0000_0000_0000_0000_0000) % 0x1_0000
        } else if i == 3 {
            (self.bits as nat / 0x1_0000_0000_0000_0000) % 0x1_0000
        } else if i == 4 {
            (self.bits as nat / 0x1_0000_0000_0000) % 0x1_0000
        } else if i == 5 {
            (self.bits as nat / 0x1_0000_0000) % 0x1_0000
        } else if i == 6 {
            (self.bits as nat / 0x1_0000) % 0x1_0000
        } else {
            (self.bits as nat) % 0x1_0000
        }
    }

    /// The 64 high-order bits.
    pub open spec fn prefix_spec(self) -> nat {
        self.bits as nat / 0x1_0000_0000_0000_0000
    }

    /// The 64 high-order bits.
    pub fn prefix(&self) -> (p: u64)
        ensures
            p as nat == self.prefix_spec(),
    {
        let bits: u128 = self.bits;
        assert(bits >> 64 == bits / 0x1_0000_0000_0000_0000) by (bit_vector);
        assert((bits >> 64) <= 0xffff_ffff_ffff_ffff) by (bit_vector);
        (bits >> 64) as u64
    }

    /// The eight 16-bit groups, most significant first, as the textual form
    /// of an address lists them.
    pub fn segments(&self) -> (s: [u16; 8])
        ensures
            forall|i: int| 0 <= i < 8 ==> s[i] as nat == self.group(i),
    {
        let bits: u128 = self.bits;
        assert((bits >> 112) & 0xffff == (bits / 0x1_0000_0000_0000_0000_0000_0000_0000) % 0x1_0000)
            by (bit_vector);
        assert((bits >> 96) & 0xffff == (bits / 0x1_0000_0000_0000_0000_0000_0000) % 0x1_0000)
            by (bit_vector);
        assert((bits >> 80) & 0xffff == (bits / 0x1_0000_0000_0000_0000_0000) % 0x1_0000)
            by (bit_vector);
        assert((bits >> 64) & 0xffff == (bits / 0x1_0000_0000_0000_0000) % 0x1_0000)
            by (bit_vector);
        assert((bits >> 48) & 0xffff == (bits / 0x1_0000_0000_0000) % 0x1_0000) by (bit_vector);
        assert((bits >> 32) & 0xffff == (bits / 0x1_0000_0000) % 0x1_0000) by (bit_vector);
        assert((bits >> 16) & 0xffff == (bits / 0x1_0000) % 0x1_0000) by (bit_vector);
        assert(bits & 0xffff == bits % 0x1_0000) by (bit_vector);
        [
            ((bits >> 112) & 0xffff) as u16,
            ((bits >> 96) & 0xffff) as u16,
            ((bits >> 80) & 0xffff) as u16,
            ((bits >> 64) & 0xffff) as u16,
            ((bits >> 48) & 0xffff) as u16,
            ((bits >> 32) & 0xffff) as u16,
            ((bits >> 16) & 0xffff) as u16,
            (bits & 0xffff) as u16,
        ]
    }
}

/// Packs a canvas position and a color into a destination address.
pub fn encode(x: u16, y: u16, r: u8, g: u8, b: u8, a: u8) -> (addr: Address)
    ensures
        addr == encode_spec(x, y, r, g, b, a),
        addr.prefix_spec() == NETWORK_PREFIX,
{
    let bg: u16 = ((b as u16) << 8) | (g as u16);
    let ra: u16 = ((r as u16) << 8) | (a as u16);
    assert(bg == (b as u16) * 256 + (g as u16)) by (bit_vector)
        requires
            bg == ((b as u16) << 8) | (g as u16),
    ;
    assert(ra == (r as u16) * 256 + (a as u16)) by (bit_vector)
        requires
            ra == ((r as u16) << 8) | (a as u16),
    ;
    let bits: u128 = ((NETWORK_PREFIX as u128) << 64) | ((x as u128) << 48) | ((y as u128) << 32)
        | ((bg as u128) << 16) | (ra as u128);
    assert(bits == 0x2001_0610_1908_a000u128 * 0x1_0000_0000_0000_0000 + (x as u128)
        * 0x1_0000_0000_0000 + (y as u128) * 0x1_0000_0000 + (bg as u128) * 0x1_0000 + (
    ra as u128)) by (bit_vector)
        requires
            bits == ((0x2001_0610_1908_a000u64 as u128) << 64) | ((x as u128) << 48) | ((y as u128)
                << 32) | ((bg as u128) << 16) | (ra as u128),
    ;
    proof {
        lemma_encode_layout(x, y, r, g, b, a);
    }
    Address { bits }
}

/// The layout of an encoded address: it fits in 128 bits, its four high
/// groups are the network prefix whatever the pixel, and its four low groups
/// are `x`, `y`, `b·256 + g` and `r·256 + a`.
pub proof fn lemma_encode_layout(x: u16, y: u16, r: u8, g: u8, b: u8, a: u8)
    ensures
        ({
            let addr = encode_spec(x, y, r, g, b, a);
            &&& addr.bits == encode_value(x, y, r, g, b, a)
            &&& addr.prefix_spec() == NETWORK_PREFIX
            &&& addr.group(0) == 0x2001
            &&& addr.group(1) == 0x0610
            &&& addr.group(2) == 0x1908
            &&& addr.group(3) == 0xa000
            &&& addr.group(4) == x
            &&& addr.group(5) == y
            &&& addr.group(6) == b * 256 + g
            &&& addr.group(7) == r * 256 + a
        }),
{
    let bits: u128 = encode_value(x, y, r, g, b, a) as u128;
    let bg: u16 = (b * 256 + g) as u16;
    let ra: u16 = (r * 256 + a) as u16;
    assert(bits == 0x2001_0610_1908_a000u128 * 0x1_0000_0000_0000_0000 + (x as u128)
        * 0x1_0000_0000_0000 + (y as u128) * 0x1_0000_0000 + (bg as u128) * 0x1_0000 + (
    ra as u128));
    assert({
        &&& bits / 0x1_0000_0000_0000_0000 == 0x2001_0610_1908_a000u128
        &&& (bits / 0x1_0000_0000_0000_0000_0000_0000_0000) % 0x1_0000 == 0x2001
        &&& (bits / 0x1_0000_0000_0000_0000_0000_0000) % 0x1_0000 == 0x0610
        &&& (bits / 0x1_0000_0000_0000_0000_0000) % 0x1_0000 == 0x1908
        &&& (bits / 0x1_0000_0000_0000_0000) % 0x1_0000 == 0xa000
        &&& (bits / 0x1_0000_0000_0000) % 0x1_0000 == x as u128
        &&& (bits / 0x1_0000_0000) % 0x1_0000 == y as u128
        &&& (bits / 0x1_0000) % 0x1_0000 == bg as u128
        &&& bits % 0x1_0000 == ra as u128
    }) by (bit_vector)
        requires
            bits == 0x2001_0610_1908_a000u128 * 0x1_0000_0000_0000_0000 + (x as u128)
                * 0x1_0000_0000_0000 + (y as u128) * 0x1_0000_0000 + (bg as u128) * 0x1_0000 + (
            ra as u128),
    ;
}

/// Encoding is a function of its inputs alone, and loses nothing: two pixels
/// get the same address exactly when they agree in position and color.
pub proof fn lemma_encode_injective(
    x1: u16,
    y1: u16,
    r1: u8,
    g1: u8,
    b1: u8,
    a1: u8,
    x2: u16,
    y2: u16,
    r2: u8,
    g2: u8,
    b2: u8,
    a2: u8,
)
    ensures
        encode_spec(x1, y1, r1, g1, b1, a1) == encode_spec(x2, y2, r2, g2, b2, a2) <==> (x1 == x2
            && y1 == y2 && r1 == r2 && g1 == g2 && b1 == b2 && a1 == a2),
{
    lemma_encode_layout(x1, y1, r1, g1, b1, a1);
    lemma_encode_layout(x2, y2, r2, g2, b2, a2);
}

/// The destination address that draws `pixel` at canvas position (`x`, `y`).
pub fn build_address(x: u16, y: u16, pixel: &Color) -> (addr: Address)
    ensures
        addr == encode_spec(x, y, pixel.r, pixel.g, pixel.b, pixel.a),
        addr.prefix_spec() == NETWORK_PREFIX,
{
    encode(x, y, pixel.r, pixel.g, pixel.b, pixel.a)
}

} // verus!
