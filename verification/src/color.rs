use vstd::prelude::*;

verus! {

/// The packed colour `0x00RRGGBB` of the channels `(r, g, b)`.
pub open spec fn packed(r: u8, g: u8, b: u8) -> u32 {
    (r as int * 65536 + g as int * 256 + b as int) as u32
}

/// The red, green and blue channels of a packed colour: bits 16 to 23, 8 to
/// 15 and 0 to 7. The top eight bits do not contribute.
pub open spec fn channels(color: u32) -> (u8, u8, u8) {
    ((color / 65536 % 256) as u8, (color / 256 % 256) as u8, (color % 256) as u8)
}

/// Packs three channels into one colour.
pub fn pack_rgb(r: u8, g: u8, b: u8) -> (color: u32)
    ensures
        color == packed(r, g, b),
        color < 0x100_0000,
{
    let color = ((r as u32) << 16) | ((g as u32) << 8) | (b as u32);
    assert(((r as u32) << 16) | ((g as u32) << 8) | (b as u32) == (r as u32) * 65536 + (g as u32)
        * 256 + (b as u32)) by (bit_vector);
    color
}

/// Splits a packed colour into its red, green and blue channels.
pub fn to_rgb(color: u32) -> (rgb: (u8, u8, u8))
    ensures
        rgb == channels(color),
{
    let r = (color & 0x00FF0000) >> 16;
    let g = (color & 0x0000FF00) >> 8;
    let b = color & 0x000000FF;
    assert((color & 0x00FF0000) >> 16 == color / 65536 % 256) by (bit_vector);
    assert((color & 0x0000FF00) >> 8 == color / 256 % 256) by (bit_vector);
    assert(color & 0x000000FF == color % 256) by (bit_vector);
    (r as u8, g as u8, b as u8)
}

/// Splitting a packed colour gives back the channels it was packed from.
pub proof fn packed_channels(r: u8, g: u8, b: u8)
    ensures
        channels(packed(r, g, b)) == (r, g, b),
{
    let color = r as int * 65536 + g as int * 256 + b as int;
    assert(0 <= color < 0x100_0000);
    assert(color / 65536 == r as int);
    assert(color / 256 == r as int * 256 + g as int);
    assert(color % 256 == b as int);
}

} // verus!
