use crate::error::DecodeError;
use crate::tile::{cell, unscramble, Tile, THEIGHT, TWIDTH};
use vstd::arithmetic::div_mod::lemma_fundamental_div_mod_converse;
use vstd::prelude::*;

verus! {

/// An image cut into 8×8 tiles, listed row of tiles after row of tiles and,
/// within a row, from left to right.
pub struct TiledImage {
    /// The tiles of the image.
    pub tiles: Vec<Tile>,
}

/// Whether an image of `width` by `height` pixels divides into whole tiles:
/// both are positive multiples of the tile size.
pub open spec fn tileable(width: int, height: int) -> bool {
    width > 0 && height > 0 && width % 8 == 0 && height % 8 == 0
}

/// The place in the list of tiles of the tile that holds the pixel `(x, y)`
/// of an image `width` pixels wide.
pub open spec fn tile_index(width: int, x: int, y: int) -> int {
    (y / 8) * (width / 8) + x / 8
}

/// The colour at `(x, y)` of the image, `width` pixels wide, that a stream
/// of colours describes: the stream is cut into tiles of 64 colours, and
/// each tile is unscrambled.
pub open spec fn image_color(stream: Seq<u32>, width: int, x: int, y: int) -> u32 {
    let k = tile_index(width, x, y);
    unscramble(stream.subrange(64 * k, 64 * k + 64))[cell(x % 8, y % 8)]
}

impl TiledImage {
    /// Whether the tiles cover an image of `width` by `height` pixels exactly
    /// once: there is one tile for every cell of the grid of tiles, and each
    /// records the pixel offset of its cell.
    pub open spec fn covers(&self, width: int, height: int) -> bool {
        &&& tileable(width, height)
        &&& self.tiles.len() == (width / 8) * (height / 8)
        &&& forall|k: int|
            0 <= k < self.tiles.len() ==> (#[trigger] self.tiles[k]).offx == (k % (width / 8)) * 8
                && self.tiles[k].offy == (k / (width / 8)) * 8
    }

    /// The colour that the tiles hold for the pixel `(x, y)` of an image
    /// `width` pixels wide.
    pub open spec fn color_at(&self, width: int, x: int, y: int) -> u32 {
        self.tiles[tile_index(width, x, y)].at(x % 8, y % 8)
    }

    /// Whether the tiles are the unscrambled tiles of `stream`: tile `k` is
    /// made from the 64 colours that start at `64 * k`.
    pub open spec fn unscrambles(&self, stream: Seq<u32>) -> bool {
        forall|k: int|
            0 <= k < self.tiles.len() ==> (#[trigger] self.tiles[k])@ == unscramble(
                stream.subrange(64 * k, 64 * k + 64),
            )
    }

    /// Cuts a stream of `width * height` colours into tiles and unscrambles
    /// each of them. Dimensions that are not positive multiples of the tile
    /// size, or that do not agree with the number of colours, are refused.
    pub fn new(pixels: Vec<u32>, width: usize, height: usize) -> (result: Result<
        TiledImage,
        DecodeError,
    >)
        ensures
            match result {
                Ok(image) => {
                    &&& tileable(width as int, height as int)
                    &&& pixels.len() == width * height
                    &&& image.covers(width as int, height as int)
                    &&& image.unscrambles(pixels@)
                },
                Err(e) => {
                    &&& e == DecodeError::InvalidDimensions
                    &&& !(tileable(width as int, height as int) && pixels.len() == width * height)
                },
            },
    {
        if width == 0 || height == 0 || width % TWIDTH != 0 || height % THEIGHT != 0 {
            return Err(DecodeError::InvalidDimensions);
        }
        match width.checked_mul(height) {
            Some(area) => {
                if area != pixels.len() {
                    return Err(DecodeError::InvalidDimensions);
                }
            },
            None => {
                return Err(DecodeError::InvalidDimensions);
            },
        }
        let across = width / TWIDTH;
        let down = height / THEIGHT;
        assert(width * height == 64 * (across * down)) by (nonlinear_arith)
            requires
                width == 8 * across,
                height == 8 * down,
        ;
        let mut tiles: Vec<Tile> = Vec::new();

        let mut i: usize = 0;
        let mut ty: usize = 0;
        while ty < down
            invariant
                ty <= down,
                across > 0,
                across == width / 8,
                pixels.len() == 64 * (across * down),
                tiles.len() == ty * across,
                i == 64 * tiles.len(),
                forall|k: int|
                    0 <= k < tiles.len() ==> (#[trigger] tiles[k]).offx == (k % (across as int))
                        * 8 && tiles[k].offy == (k / (across as int)) * 8,
                forall|k: int|
                    0 <= k < tiles.len() ==> (#[trigger] tiles[k])@ == unscramble(
                        pixels@.subrange(64 * k, 64 * k + 64),
                    ),
            decreases down - ty,
        {
            let mut tx: usize = 0;
            while tx < across
                invariant
                    ty < down,
                    tx <= across,
                    across > 0,
                    across == width / 8,
                    pixels.len() == 64 * (across * down),
                    tiles.len() == ty * across + tx,
                    i == 64 * tiles.len(),
                    forall|k: int|
                        0 <= k < tiles.len() ==> (#[trigger] tiles[k]).offx == (k % (
                        across as int)) * 8 && tiles[k].offy == (k / (across as int)) * 8,
                    forall|k: int|
                        0 <= k < tiles.len() ==> (#[trigger] tiles[k])@ == unscramble(
                            pixels@.subrange(64 * k, 64 * k + 64),
                        ),
                decreases across - tx,
            {
                proof {
                    assert(ty * across + tx + 1 <= across * down) by (nonlinear_arith)
                        requires
                            ty < down,
                            tx < across,
                    ;
                    lemma_fundamental_div_mod_converse(
                        ty * across + tx,
                        across as int,
                        ty as int,
                        tx as int,
                    );
                }
                let mut tile = Tile::from_stream(pixels.as_slice(), i, tx * TWIDTH, ty * THEIGHT);
                tile.unscramble();
                tiles.push(tile);
                i += 64;
                tx += 1;
            }
            assert(ty * across + across == (ty + 1) * across) by (nonlinear_arith);
            ty += 1;
        }
        assert(ty * across == across * down) by (nonlinear_arith)
            requires
                ty == down,
        ;
        Ok(TiledImage { tiles })
    }
}

} // verus!
