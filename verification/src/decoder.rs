use crate::assemble::{assemble, crop_logical, is_corner_of, lemma_tile_index_bound};
use crate::color::channels;
use crate::error::DecodeError;
use crate::footer::{footer_of, parse_footer, FOOTER_LEN};
use crate::raster::{raster_fits, raster_height, raster_pixels, raster_width, Raster};
use crate::stream::{decode_pixels, pixel_stream, whole_pixels};
use crate::tile::cell;
use crate::tiled::{image_color, tile_index, tileable, TiledImage};
use vstd::prelude::*;
use vstd::slice::slice_subrange;

verus! {

/// The two rasters that a capture decodes to.
pub struct DecodedImage {
    /// The whole image.
    pub full: Raster,
    /// The visible part of the image: its upper-left corner of the logical
    /// size.
    pub logical: Raster,
}

/// The body of a capture: everything before the footer.
pub open spec fn body_of(data: Seq<u8>) -> Seq<u8>
    recommends
        data.len() >= FOOTER_LEN,
{
    data.subrange(0, data.len() - 12)
}

/// Whether a capture is too short to hold a footer, or its body is not a
/// non-empty whole number of pixels.
pub open spec fn malformed(data: Seq<u8>) -> bool {
    data.len() < 12 || !whole_pixels(data.len() - 12)
}

/// Whether the dimensions in the footer of a capture can be used: the image
/// divides into whole tiles, the body holds exactly one colour for each
/// pixel, the logical size does not exceed the full size, and a raster of
/// the full size can exist.
pub open spec fn dimensions_hold(data: Seq<u8>) -> bool
    recommends
        !malformed(data),
{
    let footer = footer_of(data);
    &&& tileable(footer.width as int, footer.height as int)
    &&& (data.len() - 12) / 3 == footer.width * footer.height
    &&& footer.logical_width <= footer.width
    &&& footer.logical_height <= footer.height
    &&& raster_fits(footer.width as int, footer.height as int)
}

/// Whether `image` is what a capture decodes to. The full raster has the
/// footer's size, and its pixel at `(x, y)` has the channels of the colour
/// that the unscrambled tiles of the body hold for `(width - 1 - x, y)`,
/// which mirrors the image left to right. The logical raster is the
/// upper-left corner of the full one, of the footer's logical size.
pub open spec fn decodes_to(data: Seq<u8>, image: DecodedImage) -> bool
    recommends
        !malformed(data),
        dimensions_hold(data),
{
    let footer = footer_of(data);
    let stream = pixel_stream(body_of(data));
    &&& raster_width(image.full) == footer.width
    &&& raster_height(image.full) == footer.height
    &&& forall|x: int, y: int|
        0 <= x < footer.width && 0 <= y < footer.height ==> #[trigger] raster_pixels(
            image.full,
        )[(x, y)] == channels(image_color(stream, footer.width as int, footer.width - 1 - x, y))
    &&& is_corner_of(
        image.logical,
        image.full,
        footer.logical_width as int,
        footer.logical_height as int,
    )
}

/// Decodes a capture held in memory into its full and its logical raster.
pub fn decode_image(data: &[u8]) -> (result: Result<DecodedImage, DecodeError>)
    ensures
        match result {
            Ok(image) => !malformed(data@) && dimensions_hold(data@) && decodes_to(data@, image),
            Err(DecodeError::MalformedInput) => malformed(data@),
            Err(DecodeError::InvalidDimensions) => !malformed(data@) && !dimensions_hold(data@),
        },
{
    let footer = match parse_footer(data) {
        Ok(footer) => footer,
        Err(e) => {
            return Err(e);
        },
    };
    let body = slice_subrange(data, 0, data.len() - FOOTER_LEN);
    let pixels = match decode_pixels(body) {
        Ok(pixels) => pixels,
        Err(e) => {
            return Err(e);
        },
    };
    let ghost stream = pixels@;
    let width = footer.width as usize;
    let height = footer.height as usize;
    let tiled = match TiledImage::new(pixels, width, height) {
        Ok(tiled) => tiled,
        Err(e) => {
            return Err(e);
        },
    };
    let mut full = match assemble(&tiled, width, height) {
        Ok(full) => full,
        Err(e) => {
            return Err(e);
        },
    };
    proof {
        assert forall|x: int, y: int| 0 <= x < width && 0 <= y < height implies #[trigger] raster_pixels(
            full,
        )[(x, y)] == channels(image_color(stream, width as int, width - 1 - x, y)) by {
            let k = tile_index(width as int, width - 1 - x, y);
            lemma_tile_index_bound(width as int, height as int, width - 1 - x, y);
            let c = (width - 1 - x) % 8;
            let r = y % 8;
            assert(tiled.tiles[k]@[cell(c, r)] == tiled.tiles[k].at(c, r));
        }
    }
    match crop_logical(&mut full, footer.logical_width as u32, footer.logical_height as u32) {
        Ok(logical) => Ok(DecodedImage { full, logical }),
        Err(e) => Err(e),
    }
}

} // verus!
