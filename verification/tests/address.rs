use pingas::address::{build_address, encode, Address, NETWORK_PREFIX};
use pingas::grid::Color;

#[test]
fn encode_packs_the_documented_example() {
    let address = encode(10, 20, 255, 0, 128, 255);
    assert_eq!(
        address.segments(),
        [0x2001, 0x0610, 0x1908, 0xa000, 0x000a, 0x0014, 0x8000, 0xffff]
    );
    assert_eq!(address.bits, 0x2001_0610_1908_a000_000a_0014_8000_ffff);
}

#[test]
fn encode_keeps_the_prefix_for_extreme_inputs() {
    for (x, y, r, g, b, a) in [
        (0u16, 0u16, 0u8, 0u8, 0u8, 0u8),
        (u16::MAX, u16::MAX, u8::MAX, u8::MAX, u8::MAX, u8::MAX),
        (1919, 1079, 1, 2, 3, 4),
    ] {
        let address = encode(x, y, r, g, b, a);
        assert_eq!(address.prefix(), NETWORK_PREFIX);
        assert_eq!(&address.segments()[..4], &[0x2001, 0x0610, 0x1908, 0xa000]);
    }
}

#[test]
fn encode_is_deterministic() {
    assert_eq!(encode(7, 9, 1, 2, 3, 4), encode(7, 9, 1, 2, 3, 4));
    assert_ne!(encode(7, 9, 1, 2, 3, 4), encode(9, 7, 1, 2, 3, 4));
}

#[test]
fn encode_places_each_channel_in_its_byte() {
    let address = encode(0x1234, 0x5678, 0xaa, 0xbb, 0xcc, 0xdd);
    assert_eq!(
        address,
        Address { bits: 0x2001_0610_1908_a000_1234_5678_ccbb_aadd }
    );
}

#[test]
fn build_address_takes_the_color_from_the_pixel() {
    let pixel = Color { r: 255, g: 0, b: 128, a: 255 };
    assert_eq!(build_address(10, 20, &pixel), encode(10, 20, 255, 0, 128, 255));
}
