use crate::color::{channels, to_rgb};
use crate::error::DecodeError;
use crate::raster::{
    raster_crop, raster_fits, raster_flip, raster_height, raster_new, raster_pixels, raster_put,
    raster_width, Raster,
};
use crate::tile::{in_tile, Tile, THEIGHT, TWIDTH};
use crate::tiled::{tile_index, tileable, TiledImage};
use vstd::arithmetic::div_mod::{
    lemma_fundamental_div_mod, lemma_fundamental_div_mod_converse, lemma_multiply_divide_lt,
};
use vstd::prelude::*;

verus! {

/// Whether a raster shows an image of `width` by `height` pixels mirrored
/// left to right: its pixel at `(x, y)` has the channels of the colour that
/// the tiles hold for `(width - 1 - x, y)`.
pub open spec fn shows_mirrored(raster: Raster, tiled: TiledImage, width: int, height: int) -> bool {
    &&& raster_width(raster) == width
    &&& raster_height(raster) == height
    &&& forall|x: int, y: int|
        0 <= x < width && 0 <= y < height ==> #[trigger] raster_pixels(raster)[(x, y)] == channels(
            tiled.color_at(width, width - 1 - x, y),
        )
}

/// Whether `part` is the upper-left `width` by `height` corner of `whole`.
pub open spec fn is_corner_of(part: Raster, whole: Raster, width: int, height: int) -> bool {
    &&& raster_width(part) == width
    &&& raster_height(part) == height
    &&& forall|x: int, y: int|
        0 <= x < width && 0 <= y < height ==> #[trigger] raster_pixels(part)[(x, y)]
            == raster_pixels(whole)[(x, y)]
}

/// In an image that divides into whole tiles, tile `k` lies inside the image,
/// and the pixels whose tile is `k` are those of the square of tile `k`.
proof fn lemma_tile_square(width: int, height: int, k: int)
    requires
        tileable(width, height),
        0 <= k < (width / 8) * (height / 8),
    ensures
        0 <= (k % (width / 8)) * 8 <= width - 8,
        0 <= (k / (width / 8)) * 8 <= height - 8,
        forall|x: int, y: int|
            0 <= x < width && 0 <= y < height ==> (#[trigger] tile_index(width, x, y) == k <==> (k
                % (width / 8)) * 8 <= x < (k % (width / 8)) * 8 + 8 && (k / (width / 8)) * 8 <= y
                < (k / (width / 8)) * 8 + 8),
{
    let across = width / 8;
    let down = height / 8;
    lemma_multiply_divide_lt(k, across, down);
    lemma_fundamental_div_mod(k, across);
    assert forall|x: int, y: int| 0 <= x < width && 0 <= y < height implies (#[trigger] tile_index(
        width,
        x,
        y,
    ) == k <==> (k % across) * 8 <= x < (k % across) * 8 + 8 && (k / across) * 8 <= y < (k
        / across) * 8 + 8) by {
        let i = tile_index(width, x, y);
        lemma_fundamental_div_mod_converse(i, across, y / 8, x / 8);
        if i == k {
            assert(x / 8 == k % across && y / 8 == k / across);
        }
        if (k % across) * 8 <= x < (k % across) * 8 + 8 && (k / across) * 8 <= y < (k / across) * 8
            + 8 {
            assert(x / 8 == k % across);
            assert(y / 8 == k / across);
            assert(across * (k / across) == (k / across) * across) by (nonlinear_arith);
        }
    }
}

/// In an image that divides into whole tiles, every pixel has a tile.
pub(crate) proof fn lemma_tile_index_bound(width: int, height: int, x: int, y: int)
    requires
        tileable(width, height),
        0 <= x < width,
        0 <= y < height,
    ensures
        0 <= tile_index(width, x, y) < (width / 8) * (height / 8),
{
    let across = width / 8;
    let down = height / 8;
    let tx = x / 8;
    let ty = y / 8;
    assert(0 <= ty * across + tx < across * down) by (nonlinear_arith)
        requires
            0 <= tx < across,
            0 <= ty < down,
    ;
}

/// Writes the pixels of a tile into the square of the raster that starts at
/// the tile's offset.
fn place_tile(raster: &mut Raster, tile: &Tile)
    requires
        tile.offx + 8 <= raster_width(*old(raster)) <= u32::MAX,
        tile.offy + 8 <= raster_height(*old(raster)) <= u32::MAX,
    ensures
        raster_width(*final(raster)) == raster_width(*old(raster)),
        raster_height(*final(raster)) == raster_height(*old(raster)),
        forall|x: int, y: int| #[trigger]
            raster_pixels(*final(raster))[(x, y)] == if in_tile(x - tile.offx, y - tile.offy) {
                channels(tile.at(x - tile.offx, y - tile.offy))
            } else {
                raster_pixels(*old(raster))[(x, y)]
            },
{
    let ghost before = *raster;
    let mut col: usize = 0;
    while col < TWIDTH
        invariant
            col <= 8,
            tile.offx + 8 <= raster_width(*raster) <= u32::MAX,
            tile.offy + 8 <= raster_height(*raster) <= u32::MAX,
            raster_width(*raster) == raster_width(before),
            raster_height(*raster) == raster_height(before),
            forall|x: int, y: int| #[trigger]
                raster_pixels(*raster)[(x, y)] == if in_tile(x - tile.offx, y - tile.offy) && x
                    - tile.offx < col {
                    channels(tile.at(x - tile.offx, y - tile.offy))
                } else {
                    raster_pixels(before)[(x, y)]
                },
        decreases 8 - col,
    {
        let mut row: usize = 0;
        while row < THEIGHT
            invariant
                col < 8,
                row <= 8,
                tile.offx + 8 <= raster_width(*raster) <= u32::MAX,
                tile.offy + 8 <= raster_height(*raster) <= u32::MAX,
                raster_width(*raster) == raster_width(before),
                raster_height(*raster) == raster_height(before),
                forall|x: int, y: int| #[trigger]
                    raster_pixels(*raster)[(x, y)] == if in_tile(x - tile.offx, y - tile.offy) && (
                    x - tile.offx < col || (x - tile.offx == col && y - tile.offy < row)) {
                        channels(tile.at(x - tile.offx, y - tile.offy))
                    } else {
                        raster_pixels(before)[(x, y)]
                    },
            decreases 8 - row,
        {
            let rgb = to_rgb(tile.pixels[col][row]);
            raster_put(raster, (tile.offx + col) as u32, (tile.offy + row) as u32, rgb);
            row += 1;
        }
        col += 1;
    }
}

/// Builds the raster of a tiled image of `width` by `height` pixels: every
/// tile is written at its offset, and the whole raster is then mirrored left
/// to right. Dimensions that no raster can have are refused.
pub fn assemble(tiled: &TiledImage, width: usize, height: usize) -> (result: Result<
    Raster,
    DecodeError,
>)
    requires
        tiled.covers(width as int, height as int),
    ensures
        match result {
            Ok(raster) => {
                &&& raster_fits(width as int, height as int)
                &&& shows_mirrored(raster, *tiled, width as int, height as int)
            },
            Err(e) => {
                &&& e == DecodeError::InvalidDimensions
                &&& !raster_fits(width as int, height as int)
            },
        },
{
    if width > u32::MAX as usize || height > u32::MAX as usize {
        return Err(DecodeError::InvalidDimensions);
    }
    assert(3 * width * height == (width * height) * 3) by (nonlinear_arith);
    match width.checked_mul(height) {
        Some(area) => match area.checked_mul(3) {
            Some(bytes) => {
                if bytes > isize::MAX as usize {
                    return Err(DecodeError::InvalidDimensions);
                }
            },
            None => {
                return Err(DecodeError::InvalidDimensions);
            },
        },
        None => {
            return Err(DecodeError::InvalidDimensions);
        },
    }
    let mut raster = raster_new(width as u32, height as u32);
    let count = tiled.tiles.len();
    let mut k: usize = 0;
    while k < count
        invariant
            k <= count,
            count == tiled.tiles.len(),
            tiled.covers(width as int, height as int),
            width <= u32::MAX,
            height <= u32::MAX,
            raster_width(raster) == width,
            raster_height(raster) == height,
            forall|x: int, y: int|
                0 <= x < width && 0 <= y < height && tile_index(width as int, x, y) < k
                    ==> #[trigger] raster_pixels(raster)[(x, y)] == channels(
                    tiled.color_at(width as int, x, y),
                ),
        decreases count - k,
    {
        let tile = &tiled.tiles[k];
        proof {
            lemma_tile_square(width as int, height as int, k as int);
        }
        let ghost before = raster;
        place_tile(&mut raster, tile);
        proof {
            assert forall|x: int, y: int|
                0 <= x < width && 0 <= y < height && tile_index(width as int, x, y) < k
                    + 1 implies #[trigger] raster_pixels(raster)[(x, y)] == channels(
                tiled.color_at(width as int, x, y),
            ) by {
                if tile_index(width as int, x, y) == k {
                    assert(in_tile(x - tile.offx, y - tile.offy));
                    assert(x - tile.offx == x % 8);
                    assert(y - tile.offy == y % 8);
                } else {
                    assert(!in_tile(x - tile.offx, y - tile.offy));
                    assert(raster_pixels(raster)[(x, y)] == raster_pixels(before)[(x, y)]);
                }
            }
        }
        k += 1;
    }
    proof {
        assert forall|x: int, y: int| 0 <= x < width && 0 <= y < height implies tile_index(
            width as int,
            x,
            y,
        ) < count by {
            lemma_tile_index_bound(width as int, height as int, x, y);
        }
    }
    let ghost placed = raster;
    raster_flip(&mut raster);
    proof {
        assert forall|x: int, y: int| 0 <= x < width && 0 <= y < height implies #[trigger] raster_pixels(
            raster,
        )[(x, y)] == channels(tiled.color_at(width as int, width - 1 - x, y)) by {
            assert(raster_pixels(raster)[(x, y)] == raster_pixels(placed)[(width - 1 - x, y)]);
            assert(tile_index(width as int, width - 1 - x, y) < count);
        }
    }
    Ok(raster)
}

/// Copies the upper-left `width` by `height` corner of a raster, which is
/// left as it was. A corner that reaches beyond the raster is refused.
pub fn crop_logical(full: &mut Raster, width: u32, height: u32) -> (result: Result<
    Raster,
    DecodeError,
>)
    ensures
        *final(full) == *old(full),
        match result {
            Ok(logical) => {
                &&& width <= raster_width(*old(full))
                &&& height <= raster_height(*old(full))
                &&& is_corner_of(logical, *old(full), width as int, height as int)
            },
            Err(e) => {
                &&& e == DecodeError::InvalidDimensions
                &&& (width > raster_width(*old(full)) || height > raster_height(*old(full)))
            },
        },
{
    if width > full.width() || height > full.height() {
        return Err(DecodeError::InvalidDimensions);
    }
    Ok(raster_crop(full, 0, 0, width, height))
}

} // verus!
