use vstd::prelude::*;

verus! {

/// Width of a tile in pixels.
pub const TWIDTH: usize = 8;

/// Height of a tile in pixels.
pub const THEIGHT: usize = 8;

/// An 8×8 block of packed colours and its place in the full image.
pub struct Tile {
    /// Upper-left x position of the tile within the image.
    pub offx: usize,
    /// Upper-left y position of the tile within the image.
    pub offy: usize,
    /// The pixels of the tile, indexed by column and then by row.
    pub pixels: [[u32; THEIGHT]; TWIDTH],
}

/// Index of the pixel at `(col, row)` in a tile's column-major sequence.
pub open spec fn cell(col: int, row: int) -> int {
    col * 8 + row
}

/// Whether `(col, row)` names a pixel of a tile.
pub open spec fn in_tile(col: int, row: int) -> bool {
    0 <= col < 8 && 0 <= row < 8
}

/// Where the pixel that the block rotation puts at `(col, row)` comes from:
/// within each aligned 2×2 block, every corner takes the value of the corner
/// that follows it clockwise.
pub open spec fn rotate_from(col: int, row: int) -> (int, int) {
    if col % 2 == 0 && row % 2 == 0 {
        // the upper-left corner takes the upper-right one
        (col + 1, row)
    } else if col % 2 == 1 && row % 2 == 0 {
        // the upper-right corner takes the lower-right one
        (col, row + 1)
    } else if col % 2 == 1 && row % 2 == 1 {
        // the lower-right corner takes the lower-left one
        (col - 1, row)
    } else {
        // the lower-left corner takes the upper-left one
        (col, row - 1)
    }
}

/// Where the pixel that the quadrant swap puts at `(col, row)` comes from:
/// the upper-right and lower-left 4×4 quadrants trade places.
pub open spec fn quadrant_from(col: int, row: int) -> (int, int) {
    if col >= 4 && row < 4 {
        (col - 4, row + 4)
    } else if col < 4 && row >= 4 {
        (col + 4, row - 4)
    } else {
        (col, row)
    }
}

/// Where the pixel that the column shuffle puts at `(col, row)` comes from:
/// columns 2 and 3 trade places with columns 4 and 5.
pub open spec fn column_from(col: int, row: int) -> (int, int) {
    if 2 <= col < 4 {
        (col + 2, row)
    } else if 4 <= col < 6 {
        (col - 2, row)
    } else {
        (col, row)
    }
}

/// Where the pixel that the row shuffle puts at `(col, row)` comes from: in
/// each half of the tile, rows `(r0, r1, r2, r3)` become `(r1, r3, r0, r2)`.
pub open spec fn row_from(col: int, row: int) -> (int, int) {
    if row % 4 == 0 {
        (col, row + 1)
    } else if row % 4 == 1 {
        (col, row + 2)
    } else if row % 4 == 2 {
        (col, row - 2)
    } else {
        (col, row - 1)
    }
}

/// The grid whose pixel at each position is the pixel that `grid` holds at
/// the position `from` names for it.
pub open spec fn rearrange(grid: Seq<u32>, from: spec_fn(int, int) -> (int, int)) -> Seq<u32> {
    Seq::new(
        64,
        |i: int|
            {
                let source = from(i / 8, i % 8);
                grid[cell(source.0, source.1)]
            },
    )
}

/// The grid after the 2×2 block rotation.
pub open spec fn rotate_blocks(grid: Seq<u32>) -> Seq<u32> {
    rearrange(grid, |col: int, row: int| rotate_from(col, row))
}

/// The grid after the quadrant swap.
pub open spec fn swap_quadrants(grid: Seq<u32>) -> Seq<u32> {
    rearrange(grid, |col: int, row: int| quadrant_from(col, row))
}

/// The grid after the middle-column shuffle.
pub open spec fn shuffle_columns(grid: Seq<u32>) -> Seq<u32> {
    rearrange(grid, |col: int, row: int| column_from(col, row))
}

/// The grid after the row-group shuffle.
pub open spec fn shuffle_rows(grid: Seq<u32>) -> Seq<u32> {
    rearrange(grid, |col: int, row: int| row_from(col, row))
}

/// The grid after all four rearrangements, applied in their fixed order.
pub open spec fn unscramble(grid: Seq<u32>) -> Seq<u32> {
    shuffle_rows(shuffle_columns(swap_quadrants(rotate_blocks(grid))))
}

impl View for Tile {
    type V = Seq<u32>;

    /// The 64 pixels of the tile, column after column.
    open spec fn view(&self) -> Seq<u32> {
        Seq::new(64, |i: int| self.pixels[i / 8][i % 8])
    }
}

/// A tile whose every pixel is the pixel that another tile holds at the
/// position `from` names has that tile's grid, rearranged by `from`.
proof fn lemma_rearranged(before: Tile, after: Tile, from: spec_fn(int, int) -> (int, int))
    requires
        forall|c: int, r: int|
            in_tile(c, r) ==> in_tile(#[trigger] from(c, r).0, from(c, r).1) && after.at(c, r)
                == before.at(from(c, r).0, from(c, r).1),
    ensures
        after@ == rearrange(before@, from),
{
    assert forall|i: int| 0 <= i < 64 implies after@[i] == rearrange(before@, from)[i] by {
        let c = i / 8;
        let r = i % 8;
        assert(in_tile(c, r));
        let source = from(c, r);
        assert(in_tile(source.0, source.1));
        assert(after.at(c, r) == before.at(source.0, source.1));
        let j = cell(source.0, source.1);
        assert(j / 8 == source.0 && j % 8 == source.1);
    }
    assert(after@ =~= rearrange(before@, from));
}

impl Tile {
    /// The pixel at `(col, row)`.
    pub open spec fn at(&self, col: int, row: int) -> u32 {
        self.pixels[col][row]
    }

    /// Cuts a tile out of a stream of colours: the 64 colours from `start` on
    /// fill the tile column after column, each column from top to bottom.
    pub fn from_stream(pixels: &[u32], start: usize, offx: usize, offy: usize) -> (tile: Tile)
        requires
            start + 64 <= pixels.len(),
        ensures
            tile@ == pixels@.subrange(start as int, start + 64),
            tile.offx == offx,
            tile.offy == offy,
    {
        let mut tile = Tile { offx, offy, pixels: [[0u32; THEIGHT]; TWIDTH] };
        let mut i: usize = start;
        let mut col: usize = 0;
        while col < TWIDTH
            invariant
                col <= 8,
                i == start + 8 * col,
                start + 64 <= pixels.len(),
                tile.offx == offx,
                tile.offy == offy,
                forall|c: int, r: int|
                    0 <= c < col && 0 <= r < 8 ==> #[trigger] tile.at(c, r) == pixels[start + cell(
                        c,
                        r,
                    )],
            decreases 8 - col,
        {
            let mut row: usize = 0;
            while row < THEIGHT
                invariant
                    col < 8,
                    row <= 8,
                    i == start + 8 * col + row,
                    start + 64 <= pixels.len(),
                    tile.offx == offx,
                    tile.offy == offy,
                    forall|c: int, r: int|
                        in_tile(c, r) && (c < col || (c == col && r < row)) ==> #[trigger] tile.at(
                            c,
                            r,
                        ) == pixels[start + cell(c, r)],
                decreases 8 - row,
            {
                let ghost inner = tile;
                tile.pixels[col][row] = pixels[i];
                proof {
                    assert forall|c: int, r: int|
                        in_tile(c, r) && (c < col || (c == col && r < row + 1)) implies #[trigger] tile.at(
                        c,
                        r,
                    ) == pixels[start + cell(c, r)] by {
                        assert(tile.at(c, r) == if c == col && r == row {
                            pixels[i as int]
                        } else {
                            inner.at(c, r)
                        });
                    }
                }
                i += 1;
                row += 1;
            }
            col += 1;
        }
        proof {
            assert forall|j: int| 0 <= j < 64 implies tile@[j] == pixels@.subrange(
                start as int,
                start + 64,
            )[j] by {
                assert(in_tile(j / 8, j % 8));
                assert(tile.at(j / 8, j % 8) == pixels[start + cell(j / 8, j % 8)]);
            }
            assert(tile@ =~= pixels@.subrange(start as int, start + 64));
        }
        tile
    }

    /// Rotates every aligned 2×2 block a quarter turn counter-clockwise.
    pub fn rotate_blocks(&mut self)
        ensures
            final(self)@ == rotate_blocks(old(self)@),
            final(self).offx == old(self).offx,
            final(self).offy == old(self).offy,
    {
        let ghost before = *self;
        let mut col: usize = 0;
        while col < TWIDTH
            invariant
                col <= 8,
                col % 2 == 0,
                self.offx == before.offx,
                self.offy == before.offy,
                forall|c: int, r: int|
                    in_tile(c, r) ==> #[trigger] self.at(c, r) == if c < col {
                        before.at(rotate_from(c, r).0, rotate_from(c, r).1)
                    } else {
                        before.at(c, r)
                    },
            decreases 8 - col,
        {
            let mut row: usize = 0;
            while row < THEIGHT
                invariant
                    col < 8,
                    col % 2 == 0,
                    row <= 8,
                    row % 2 == 0,
                    self.offx == before.offx,
                    self.offy == before.offy,
                    forall|c: int, r: int|
                        in_tile(c, r) ==> #[trigger] self.at(c, r) == if c < col || (c < col + 2
                            && r < row) {
                            before.at(rotate_from(c, r).0, rotate_from(c, r).1)
                        } else {
                            before.at(c, r)
                        },
                decreases 8 - row,
            {
                let ghost inner = *self;
                let ul = self.pixels[col][row];
                let ur = self.pixels[col + 1][row];
                let dr = self.pixels[col + 1][row + 1];
                let dl = self.pixels[col][row + 1];

                self.pixels[col][row] = ur;
                self.pixels[col + 1][row] = dr;
                self.pixels[col + 1][row + 1] = dl;
                self.pixels[col][row + 1] = ul;
                proof {
                    assert forall|c: int, r: int| in_tile(c, r) implies #[trigger] self.at(c, r)
                        == if c < col || (c < col + 2 && r < row + 2) {
                        before.at(rotate_from(c, r).0, rotate_from(c, r).1)
                    } else {
                        before.at(c, r)
                    } by {
                        assert(self.at(c, r) == if c == col && r == row {
                            ur
                        } else if c == col + 1 && r == row {
                            dr
                        } else if c == col + 1 && r == row + 1 {
                            dl
                        } else if c == col && r == row + 1 {
                            ul
                        } else {
                            inner.at(c, r)
                        });
                        assert(inner.at(col as int, row as int) == before.at(col as int, row as int));
                        assert(inner.at(col + 1, row as int) == before.at(col + 1, row as int));
                        assert(inner.at(col + 1, row + 1) == before.at(col + 1, row + 1));
                        assert(inner.at(col as int, row + 1) == before.at(col as int, row + 1));
                    }
                }
                row += 2;
            }
            col += 2;
        }
        proof {
            lemma_rearranged(before, *self, |c: int, r: int| rotate_from(c, r));
        }
    }

    /// Swaps the upper-right 4×4 quadrant with the lower-left one.
    pub fn swap_quadrants(&mut self)
        ensures
            final(self)@ == swap_quadrants(old(self)@),
            final(self).offx == old(self).offx,
            final(self).offy == old(self).offy,
    {
        let ghost before = *self;
        let mut col: usize = TWIDTH / 2;
        while col < TWIDTH
            invariant
                4 <= col <= 8,
                self.offx == before.offx,
                self.offy == before.offy,
                forall|c: int, r: int|
                    in_tile(c, r) ==> #[trigger] self.at(c, r) == if (c >= 4 && r < 4 && c < col)
                        || (c < 4 && r >= 4 && c + 4 < col) {
                        before.at(quadrant_from(c, r).0, quadrant_from(c, r).1)
                    } else {
                        before.at(c, r)
                    },
            decreases 8 - col,
        {
            let mut row: usize = 0;
            while row < THEIGHT / 2
                invariant
                    4 <= col < 8,
                    row <= 4,
                    self.offx == before.offx,
                    self.offy == before.offy,
                    forall|c: int, r: int|
                        in_tile(c, r) ==> #[trigger] self.at(c, r) == if (c >= 4 && r < 4 && (c
                            < col || (c == col && r < row))) || (c < 4 && r >= 4 && (c + 4 < col
                            || (c + 4 == col && r - 4 < row))) {
                            before.at(quadrant_from(c, r).0, quadrant_from(c, r).1)
                        } else {
                            before.at(c, r)
                        },
                decreases 4 - row,
            {
                let ghost inner = *self;
                let other_col = col - TWIDTH / 2;
                let other_row = row + THEIGHT / 2;

                let tmp = self.pixels[col][row];
                let other = self.pixels[other_col][other_row];
                self.pixels[col][row] = other;
                self.pixels[other_col][other_row] = tmp;
                proof {
                    assert forall|c: int, r: int| in_tile(c, r) implies #[trigger] self.at(c, r)
                        == if (c >= 4 && r < 4 && (c < col || (c == col && r < row + 1))) || (c
                        < 4 && r >= 4 && (c + 4 < col || (c + 4 == col && r - 4 < row + 1))) {
                        before.at(quadrant_from(c, r).0, quadrant_from(c, r).1)
                    } else {
                        before.at(c, r)
                    } by {
                        assert(self.at(c, r) == if c == col && r == row {
                            other
                        } else if c == other_col && r == other_row {
                            tmp
                        } else {
                            inner.at(c, r)
                        });
                        assert(inner.at(col as int, row as int) == before.at(col as int, row as int));
                        assert(inner.at(other_col as int, other_row as int) == before.at(
                            other_col as int,
                            other_row as int,
                        ));
                    }
                }
                row += 1;
            }
            col += 1;
        }
        proof {
            lemma_rearranged(before, *self, |c: int, r: int| quadrant_from(c, r));
        }
    }

    /// Makes columns 2 and 3 trade places with columns 4 and 5 in every row.
    pub fn shuffle_columns(&mut self)
        ensures
            final(self)@ == shuffle_columns(old(self)@),
            final(self).offx == old(self).offx,
            final(self).offy == old(self).offy,
    {
        let ghost before = *self;
        let mut row: usize = 0;
        while row < THEIGHT
            invariant
                row <= 8,
                self.offx == before.offx,
                self.offy == before.offy,
                forall|c: int, r: int|
                    in_tile(c, r) ==> #[trigger] self.at(c, r) == if r < row {
                        before.at(column_from(c, r).0, column_from(c, r).1)
                    } else {
                        before.at(c, r)
                    },
            decreases 8 - row,
        {
            let ghost inner = *self;
            let column2 = self.pixels[2][row];
            let column3 = self.pixels[3][row];
            let column4 = self.pixels[4][row];
            let column5 = self.pixels[5][row];

            self.pixels[2][row] = column4;
            self.pixels[3][row] = column5;
            self.pixels[4][row] = column2;
            self.pixels[5][row] = column3;
            proof {
                assert forall|c: int, r: int| in_tile(c, r) implies #[trigger] self.at(c, r)
                    == if r < row + 1 {
                    before.at(column_from(c, r).0, column_from(c, r).1)
                } else {
                    before.at(c, r)
                } by {
                    assert(self.at(c, r) == if r != row {
                        inner.at(c, r)
                    } else if c == 2 {
                        column4
                    } else if c == 3 {
                        column5
                    } else if c == 4 {
                        column2
                    } else if c == 5 {
                        column3
                    } else {
                        inner.at(c, r)
                    });
                    assert(inner.at(2, row as int) == before.at(2, row as int));
                    assert(inner.at(3, row as int) == before.at(3, row as int));
                    assert(inner.at(4, row as int) == before.at(4, row as int));
                    assert(inner.at(5, row as int) == before.at(5, row as int));
                }
            }
            row += 1;
        }
        proof {
            lemma_rearranged(before, *self, |c: int, r: int| column_from(c, r));
        }
    }

    /// Reorders the rows of each half of the tile from `(r0, r1, r2, r3)` to
    /// `(r1, r3, r0, r2)`.
    pub fn shuffle_rows(&mut self)
        ensures
            final(self)@ == shuffle_rows(old(self)@),
            final(self).offx == old(self).offx,
            final(self).offy == old(self).offy,
    {
        let ghost before = *self;
        let mut col: usize = 0;
        while col < TWIDTH
            invariant
                col <= 8,
                self.offx == before.offx,
                self.offy == before.offy,
                forall|c: int, r: int|
                    in_tile(c, r) ==> #[trigger] self.at(c, r) == if c < col {
                        before.at(row_from(c, r).0, row_from(c, r).1)
                    } else {
                        before.at(c, r)
                    },
            decreases 8 - col,
        {
            let ghost inner = *self;
            let row0 = self.pixels[col][0];
            let row1 = self.pixels[col][1];
            let row2 = self.pixels[col][2];
            let row3 = self.pixels[col][3];

            self.pixels[col][0] = row1;
            self.pixels[col][1] = row3;
            self.pixels[col][2] = row0;
            self.pixels[col][3] = row2;

            let row4 = self.pixels[col][4];
            let row5 = self.pixels[col][5];
            let row6 = self.pixels[col][6];
            let row7 = self.pixels[col][7];
            proof {
                assert(row0 == inner.at(col as int, 0) && row1 == inner.at(col as int, 1));
                assert(row2 == inner.at(col as int, 2) && row3 == inner.at(col as int, 3));
                assert(row4 == inner.at(col as int, 4) && row5 == inner.at(col as int, 5));
                assert(row6 == inner.at(col as int, 6) && row7 == inner.at(col as int, 7));
            }

            self.pixels[col][4] = row5;
            self.pixels[col][5] = row7;
            self.pixels[col][6] = row4;
            self.pixels[col][7] = row6;
            proof {
                assert forall|c: int, r: int| in_tile(c, r) implies #[trigger] self.at(c, r)
                    == if c < col + 1 {
                    before.at(row_from(c, r).0, row_from(c, r).1)
                } else {
                    before.at(c, r)
                } by {
                    assert(self.at(c, r) == if c != col {
                        inner.at(c, r)
                    } else if r == 0 {
                        row1
                    } else if r == 1 {
                        row3
                    } else if r == 2 {
                        row0
                    } else if r == 3 {
                        row2
                    } else if r == 4 {
                        row5
                    } else if r == 5 {
                        row7
                    } else if r == 6 {
                        row4
                    } else {
                        row6
                    });
                }
            }
            col += 1;
        }
        proof {
            lemma_rearranged(before, *self, |c: int, r: int| row_from(c, r));
        }
    }

    /// Undoes the scrambling of the tile: block rotation, quadrant swap,
    /// column shuffle and row shuffle, in that order.
    pub fn unscramble(&mut self)
        ensures
            final(self)@ == unscramble(old(self)@),
            final(self).offx == old(self).offx,
            final(self).offy == old(self).offy,
    {
        self.rotate_blocks();
        self.swap_quadrants();
        self.shuffle_columns();
        self.shuffle_rows();
    }
}

} // verus!
