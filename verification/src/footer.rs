use crate::error::DecodeError;
use vstd::prelude::*;

verus! {

/// Number of bytes in the trailing footer record.
pub const FOOTER_LEN: usize = 12;

/// The dimensions recorded in the footer of a capture.
#[derive(Clone, Copy, Debug, PartialEq, Eq, Structural)]
pub struct Footer {
    /// Width of the full image in pixels.
    pub width: u16,
    /// Height of the full image in pixels.
    pub height: u16,
    /// Width of the visible part of the image.
    pub logical_width: u16,
    /// Height of the visible part of the image.
    pub logical_height: u16,
}

/// The 16-bit value whose little-endian encoding is the byte pair `(lo, hi)`.
pub open spec fn le16(lo: u8, hi: u8) -> int {
    lo as int + 256 * (hi as int)
}

/// The footer held by the last twelve bytes of `data`. The first four bytes
/// of the record are reserved and do not contribute.
pub open spec fn footer_of(data: Seq<u8>) -> Footer
    recommends
        data.len() >= FOOTER_LEN,
{
    let n = data.len() as int;
    Footer {
        width: le16(data[n - 8], data[n - 7]) as u16,
        height: le16(data[n - 6], data[n - 5]) as u16,
        logical_width: le16(data[n - 4], data[n - 3]) as u16,
        logical_height: le16(data[n - 2], data[n - 1]) as u16,
    }
}

fn read_le16(data: &[u8], at: usize) -> (value: u16)
    requires
        at + 1 < data.len(),
    ensures
        value == le16(data[at as int], data[at + 1]),
{
    let lo: u16 = data[at] as u16;
    let hi: u16 = data[at + 1] as u16;
    lo + 256 * hi
}

/// Reads the footer from the end of `data`.
pub fn parse_footer(data: &[u8]) -> (result: Result<Footer, DecodeError>)
    ensures
        data.len() < FOOTER_LEN <==> result == Err::<Footer, DecodeError>(
            DecodeError::MalformedInput,
        ),
        data.len() >= FOOTER_LEN <==> result == Ok::<Footer, DecodeError>(footer_of(data@)),
{
    let n = data.len();
    if n < FOOTER_LEN {
        return Err(DecodeError::MalformedInput);
    }
    Ok(
        Footer {
            width: read_le16(data, n - 8),
            height: read_le16(data, n - 6),
            logical_width: read_le16(data, n - 4),
            logical_height: read_le16(data, n - 2),
        },
    )
}

} // verus!
