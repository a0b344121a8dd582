use crate::color::{pack_rgb, packed};
use crate::error::DecodeError;
use vstd::prelude::*;

verus! {

/// Whether a body of `len` bytes is a non-empty whole number of pixels.
pub open spec fn whole_pixels(len: int) -> bool {
    len >= 3 && len % 3 == 0
}

/// The colours that a body holds, in the order in which they are emitted:
/// the body is read backwards, three bytes at a time, and of each triple the
/// last byte is red, the middle one green and the first one blue.
pub open spec fn pixel_stream(body: Seq<u8>) -> Seq<u32> {
    Seq::new(
        (body.len() / 3) as nat,
        |k: int|
            packed(
                body[body.len() - 1 - 3 * k],
                body[body.len() - 2 - 3 * k],
                body[body.len() - 3 - 3 * k],
            ),
    )
}

/// Decodes the body of a capture, which is the buffer without its footer,
/// into packed colours.
pub fn decode_pixels(body: &[u8]) -> (result: Result<Vec<u32>, DecodeError>)
    ensures
        match result {
            Ok(pixels) => whole_pixels(body.len() as int) && pixels@ == pixel_stream(body@),
            Err(e) => e == DecodeError::MalformedInput && !whole_pixels(body.len() as int),
        },
{
    let len = body.len();
    if len < 3 || len % 3 != 0 {
        return Err(DecodeError::MalformedInput);
    }
    let mut pixels: Vec<u32> = Vec::new();
    let mut i: usize = len;
    while i > 0
        invariant
            len == body.len(),
            i <= len,
            i % 3 == 0,
            len % 3 == 0,
            pixels.len() * 3 == len - i,
            forall|k: int| 0 <= k < pixels.len() ==> pixels[k] == pixel_stream(body@)[k],
        decreases i,
    {
        let r = body[i - 1];
        let g = body[i - 2];
        let b = body[i - 3];
        let color = pack_rgb(r, g, b);
        pixels.push(color);
        i -= 3;
    }
    assert(pixels@ =~= pixel_stream(body@));
    Ok(pixels)
}

} // verus!
