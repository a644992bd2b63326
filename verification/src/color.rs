//! Pure numeric conversion between an RGB byte triple and the packed 24-bit
//! colour used throughout the engines: base-256 positional encoding, with
//! red in the highest byte.

use vstd::prelude::*;

verus! {

use vstd::arithmetic::div_mod::lemma_fundamental_div_mod;

/// The packed colour of the triple `(r, g, b)`: `r * 65536 + g * 256 + b`.
pub open spec fn hex_of_rgb(r: u8, g: u8, b: u8) -> int {
    r * 65536 + g * 256 + b
}

/// The red byte of a packed colour.
pub open spec fn red_of(hex: int) -> int {
    hex / 65536
}

/// The green byte of a packed colour.
pub open spec fn green_of(hex: int) -> int {
    (hex % 65536) / 256
}

/// The blue byte of a packed colour.
pub open spec fn blue_of(hex: int) -> int {
    hex % 256
}

/// Unpack a 24-bit colour into its three channel bytes.
pub fn hex_to_rgb(hex: u32) -> (rgb: [u8; 3])
    requires
        hex < 0x1000000,
    ensures
        rgb[0] == red_of(hex as int),
        rgb[1] == green_of(hex as int),
        rgb[2] == blue_of(hex as int),
{
    [(hex / 65536) as u8, ((hex % 65536) / 256) as u8, (hex % 256) as u8]
}

/// Pack three channel bytes into a 24-bit colour.
pub fn rgb_to_hex(rgb: [u8; 3]) -> (hex: u32)
    ensures
        hex == hex_of_rgb(rgb[0], rgb[1], rgb[2]),
        hex < 0x1000000,
{
    rgb[0] as u32 * 65536 + rgb[1] as u32 * 256 + rgb[2] as u32
}

/// Packing then unpacking gives the triple back: for every byte triple, the
/// three channels read from `hex_of_rgb` are the bytes that were packed.
pub proof fn lemma_rgb_hex_round_trip(r: u8, g: u8, b: u8)
    ensures
        red_of(hex_of_rgb(r, g, b)) == r,
        green_of(hex_of_rgb(r, g, b)) == g,
        blue_of(hex_of_rgb(r, g, b)) == b,
{
    let hex = hex_of_rgb(r, g, b);
    assert(hex / 65536 == r && (hex % 65536) / 256 == g && hex % 256 == b) by (nonlinear_arith)
        requires
            hex == r * 65536 + g * 256 + b,
            0 <= r < 256,
            0 <= g < 256,
            0 <= b < 256,
    ;
}

/// Unpacking then packing gives the colour back: every 24-bit colour is the
/// packing of its three channels.
pub proof fn lemma_hex_rgb_round_trip(hex: u32)
    requires
        hex < 0x1000000,
    ensures
        hex_of_rgb(
            red_of(hex as int) as u8,
            green_of(hex as int) as u8,
            blue_of(hex as int) as u8,
        ) == hex,
{
    let h = hex as int;
    lemma_fundamental_div_mod(h, 65536);
    lemma_fundamental_div_mod(h % 65536, 256);
    assert((h % 65536) % 256 == h % 256) by (nonlinear_arith);
}

} // verus!
