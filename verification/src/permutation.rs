use crate::tile::{
    cell, column_from, in_tile, quadrant_from, rearrange, rotate_blocks, rotate_from, row_from,
    shuffle_columns, shuffle_rows, swap_quadrants, unscramble,
};
use vstd::prelude::*;

verus! {

/// Where the pixel that the clockwise block rotation puts at `(col, row)`
/// comes from. It undoes `rotate_from`.
pub open spec fn rotate_back_from(col: int, row: int) -> (int, int) {
    if col % 2 == 0 && row % 2 == 0 {
        // the upper-left corner takes the lower-left one
        (col, row + 1)
    } else if col % 2 == 1 && row % 2 == 0 {
        // the upper-right corner takes the upper-left one
        (col - 1, row)
    } else if col % 2 == 1 && row % 2 == 1 {
        // the lower-right corner takes the upper-right one
        (col, row - 1)
    } else {
        // the lower-left corner takes the lower-right one
        (col + 1, row)
    }
}

/// Where the pixel that a half turn of every 2×2 block puts at `(col, row)`
/// comes from: the diagonally opposite corner of its block.
pub open spec fn half_turn_from(col: int, row: int) -> (int, int) {
    (col + 1 - 2 * (col % 2), row + 1 - 2 * (row % 2))
}

/// Where the pixel that the reverse row shuffle puts at `(col, row)` comes
/// from. It undoes `row_from`.
pub open spec fn row_back_from(col: int, row: int) -> (int, int) {
    if row % 4 == 0 {
        (col, row + 2)
    } else if row % 4 == 1 {
        (col, row - 1)
    } else if row % 4 == 2 {
        (col, row + 1)
    } else {
        (col, row - 2)
    }
}

/// Where the pixel that the whole unscrambling puts at `(col, row)` comes
/// from.
pub open spec fn unscramble_from(col: int, row: int) -> (int, int) {
    let rows = row_from(col, row);
    let columns = column_from(rows.0, rows.1);
    let quadrants = quadrant_from(columns.0, columns.1);
    rotate_from(quadrants.0, quadrants.1)
}

/// Where the pixel that the scrambling puts at `(col, row)` comes from. It
/// undoes `unscramble_from`.
pub open spec fn scramble_from(col: int, row: int) -> (int, int) {
    let blocks = rotate_back_from(col, row);
    let quadrants = quadrant_from(blocks.0, blocks.1);
    let columns = column_from(quadrants.0, quadrants.1);
    row_back_from(columns.0, columns.1)
}

/// The grid after a quarter turn clockwise of every 2×2 block.
pub open spec fn rotate_blocks_back(grid: Seq<u32>) -> Seq<u32> {
    rearrange(grid, |col: int, row: int| rotate_back_from(col, row))
}

/// The grid after a half turn of every 2×2 block.
pub open spec fn half_turn_blocks(grid: Seq<u32>) -> Seq<u32> {
    rearrange(grid, |col: int, row: int| half_turn_from(col, row))
}

/// The grid after the reverse row shuffle.
pub open spec fn shuffle_rows_back(grid: Seq<u32>) -> Seq<u32> {
    rearrange(grid, |col: int, row: int| row_back_from(col, row))
}

/// The grid that `unscramble` turns back into `grid`.
pub open spec fn scramble(grid: Seq<u32>) -> Seq<u32> {
    rotate_blocks_back(swap_quadrants(shuffle_columns(shuffle_rows_back(grid))))
}

/// Rearranging by `first` and then by `second` is rearranging by the
/// positions that `first` names for the positions that `second` names.
proof fn lemma_rearrange_twice(
    grid: Seq<u32>,
    first: spec_fn(int, int) -> (int, int),
    second: spec_fn(int, int) -> (int, int),
    both: spec_fn(int, int) -> (int, int),
)
    requires
        forall|c: int, r: int|
            in_tile(c, r) ==> in_tile(#[trigger] second(c, r).0, second(c, r).1) && both(c, r)
                == first(second(c, r).0, second(c, r).1),
    ensures
        rearrange(rearrange(grid, first), second) == rearrange(grid, both),
{
    let once = rearrange(grid, first);
    assert forall|i: int| 0 <= i < 64 implies rearrange(once, second)[i] == rearrange(
        grid,
        both,
    )[i] by {
        let c = i / 8;
        let r = i % 8;
        assert(in_tile(c, r));
        let mid = second(c, r);
        assert(in_tile(mid.0, mid.1));
        let j = cell(mid.0, mid.1);
        assert(j / 8 == mid.0 && j % 8 == mid.1);
    }
    assert(rearrange(once, second) =~= rearrange(grid, both));
}

/// Rearranging by the map that sends every position to itself changes
/// nothing.
proof fn lemma_rearrange_in_place(grid: Seq<u32>, from: spec_fn(int, int) -> (int, int))
    requires
        grid.len() == 64,
        forall|c: int, r: int| in_tile(c, r) ==> #[trigger] from(c, r) == (c, r),
    ensures
        rearrange(grid, from) == grid,
{
    assert forall|i: int| 0 <= i < 64 implies rearrange(grid, from)[i] == grid[i] by {
        assert(in_tile(i / 8, i % 8));
        assert(from(i / 8, i % 8) == (i / 8, i % 8));
    }
    assert(rearrange(grid, from) =~= grid);
}

/// Rearranging by `first` and then by a map that `first` undoes restores the
/// grid.
proof fn lemma_rearrange_undone(
    grid: Seq<u32>,
    first: spec_fn(int, int) -> (int, int),
    second: spec_fn(int, int) -> (int, int),
)
    requires
        grid.len() == 64,
        forall|c: int, r: int|
            in_tile(c, r) ==> in_tile(#[trigger] second(c, r).0, second(c, r).1) && first(
                second(c, r).0,
                second(c, r).1,
            ) == (c, r),
    ensures
        rearrange(rearrange(grid, first), second) == grid,
{
    let both = |c: int, r: int| first(second(c, r).0, second(c, r).1);
    lemma_rearrange_twice(grid, first, second, both);
    lemma_rearrange_in_place(grid, both);
}

/// Two sequences of which one lists the elements of the other in another
/// order hold the same elements, each as often as the other.
proof fn lemma_reordered_multiset<A>(
    a: Seq<A>,
    b: Seq<A>,
    from: spec_fn(int) -> int,
    to: spec_fn(int) -> int,
)
    requires
        a.len() == b.len(),
        forall|i: int|
            0 <= i < b.len() ==> 0 <= #[trigger] from(i) < a.len() && to(from(i)) == i && b[i]
                == a[from(i)],
        forall|j: int| 0 <= j < a.len() ==> 0 <= #[trigger] to(j) < b.len() && from(to(j)) == j,
    ensures
        a.to_multiset() == b.to_multiset(),
    decreases a.len(),
{
    broadcast use vstd::seq_lib::group_to_multiset_ensures;

    if a.len() == 0 {
        assert(a =~= b);
    } else {
        let last = b.len() - 1;
        let j = from(last);
        let rest_a = a.remove(j);
        let rest_b = b.drop_last();
        let rest_from = |i: int|
            if from(i) < j {
                from(i)
            } else {
                from(i) - 1
            };
        let rest_to = |k: int|
            if k < j {
                to(k)
            } else {
                to(k + 1)
            };
        assert forall|i: int| 0 <= i < rest_b.len() implies 0 <= #[trigger] rest_from(i)
            < rest_a.len() && rest_to(rest_from(i)) == i && rest_b[i] == rest_a[rest_from(i)] by {
            assert(to(from(i)) == i);
            assert(from(i) != j);
        }
        assert forall|k: int| 0 <= k < rest_a.len() implies 0 <= #[trigger] rest_to(k)
            < rest_b.len() && rest_from(rest_to(k)) == k by {
            if k < j {
                assert(from(to(k)) == k);
            } else {
                assert(from(to(k + 1)) == k + 1);
            }
        }
        lemma_reordered_multiset(rest_a, rest_b, rest_from, rest_to);
        assert(b =~= rest_b.push(b[last]));
        assert(b.to_multiset() =~= rest_b.to_multiset().insert(b[last]));
        assert(rest_a.to_multiset() == a.to_multiset().remove(a[j]));
        assert(a.contains(a[j]));
        assert(a.to_multiset().count(a[j]) > 0);
        assert(a.to_multiset() =~= a.to_multiset().remove(a[j]).insert(a[j]));
    }
}

/// Rearranging a grid by a map that has an inverse on the tile keeps every
/// value as often as it was there.
proof fn lemma_rearranged_multiset(
    grid: Seq<u32>,
    from: spec_fn(int, int) -> (int, int),
    back: spec_fn(int, int) -> (int, int),
)
    requires
        grid.len() == 64,
        forall|c: int, r: int|
            in_tile(c, r) ==> in_tile(#[trigger] from(c, r).0, from(c, r).1) && back(
                from(c, r).0,
                from(c, r).1,
            ) == (c, r),
        forall|c: int, r: int|
            in_tile(c, r) ==> in_tile(#[trigger] back(c, r).0, back(c, r).1) && from(
                back(c, r).0,
                back(c, r).1,
            ) == (c, r),
    ensures
        rearrange(grid, from).to_multiset() == grid.to_multiset(),
{
    let index_from = |i: int| cell(from(i / 8, i % 8).0, from(i / 8, i % 8).1);
    let index_back = |i: int| cell(back(i / 8, i % 8).0, back(i / 8, i % 8).1);
    let out = rearrange(grid, from);
    assert forall|i: int| 0 <= i < out.len() implies 0 <= #[trigger] index_from(i) < grid.len()
        && index_back(index_from(i)) == i && out[i] == grid[index_from(i)] by {
        assert(in_tile(i / 8, i % 8));
        let p = from(i / 8, i % 8);
        assert(in_tile(p.0, p.1));
        let j = cell(p.0, p.1);
        assert(j / 8 == p.0 && j % 8 == p.1);
        assert(back(p.0, p.1) == (i / 8, i % 8));
    }
    assert forall|j: int| 0 <= j < grid.len() implies 0 <= #[trigger] index_back(j) < out.len()
        && index_from(index_back(j)) == j by {
        assert(in_tile(j / 8, j % 8));
        let p = back(j / 8, j % 8);
        assert(in_tile(p.0, p.1));
        let i = cell(p.0, p.1);
        assert(i / 8 == p.0 && i % 8 == p.1);
        assert(from(p.0, p.1) == (j / 8, j % 8));
    }
    lemma_reordered_multiset(grid, out, index_from, index_back);
}

/// Rotating the blocks and then rotating them back restores the grid, and so
/// does rotating back first.
pub proof fn rotate_blocks_round_trip(grid: Seq<u32>)
    requires
        grid.len() == 64,
    ensures
        rotate_blocks_back(rotate_blocks(grid)) == grid,
        rotate_blocks(rotate_blocks_back(grid)) == grid,
{
    lemma_rearrange_undone(
        grid,
        |c: int, r: int| rotate_from(c, r),
        |c: int, r: int| rotate_back_from(c, r),
    );
    lemma_rearrange_undone(
        grid,
        |c: int, r: int| rotate_back_from(c, r),
        |c: int, r: int| rotate_from(c, r),
    );
}

/// Rotating the blocks twice is a half turn of every block, not the
/// identity; four rotations restore the grid.
pub proof fn rotate_blocks_twice(grid: Seq<u32>)
    requires
        grid.len() == 64,
    ensures
        rotate_blocks(rotate_blocks(grid)) == half_turn_blocks(grid),
        forall|c: int, r: int|
            in_tile(c, r) ==> #[trigger] half_turn_blocks(grid)[cell(c, r)] == grid[cell(
                c + 1 - 2 * (c % 2),
                r + 1 - 2 * (r % 2),
            )],
        rotate_blocks(rotate_blocks(rotate_blocks(rotate_blocks(grid)))) == grid,
{
    lemma_rearrange_twice(
        grid,
        |c: int, r: int| rotate_from(c, r),
        |c: int, r: int| rotate_from(c, r),
        |c: int, r: int| half_turn_from(c, r),
    );
    assert forall|c: int, r: int| in_tile(c, r) implies #[trigger] half_turn_blocks(grid)[cell(
        c,
        r,
    )] == grid[cell(c + 1 - 2 * (c % 2), r + 1 - 2 * (r % 2))] by {
        let i = cell(c, r);
        assert(i / 8 == c && i % 8 == r);
    }
    lemma_rearrange_undone(
        grid,
        |c: int, r: int| half_turn_from(c, r),
        |c: int, r: int| half_turn_from(c, r),
    );
    lemma_rearrange_twice(
        half_turn_blocks(grid),
        |c: int, r: int| rotate_from(c, r),
        |c: int, r: int| rotate_from(c, r),
        |c: int, r: int| half_turn_from(c, r),
    );
}

/// Swapping the quadrants twice restores the grid.
pub proof fn swap_quadrants_round_trip(grid: Seq<u32>)
    requires
        grid.len() == 64,
    ensures
        swap_quadrants(swap_quadrants(grid)) == grid,
{
    lemma_rearrange_undone(
        grid,
        |c: int, r: int| quadrant_from(c, r),
        |c: int, r: int| quadrant_from(c, r),
    );
}

/// Shuffling the middle columns twice restores the grid.
pub proof fn shuffle_columns_round_trip(grid: Seq<u32>)
    requires
        grid.len() == 64,
    ensures
        shuffle_columns(shuffle_columns(grid)) == grid,
{
    lemma_rearrange_undone(
        grid,
        |c: int, r: int| column_from(c, r),
        |c: int, r: int| column_from(c, r),
    );
}

/// Shuffling the rows and then shuffling them back restores the grid, and so
/// does shuffling back first.
pub proof fn shuffle_rows_round_trip(grid: Seq<u32>)
    requires
        grid.len() == 64,
    ensures
        shuffle_rows_back(shuffle_rows(grid)) == grid,
        shuffle_rows(shuffle_rows_back(grid)) == grid,
{
    lemma_rearrange_undone(
        grid,
        |c: int, r: int| row_from(c, r),
        |c: int, r: int| row_back_from(c, r),
    );
    lemma_rearrange_undone(
        grid,
        |c: int, r: int| row_back_from(c, r),
        |c: int, r: int| row_from(c, r),
    );
}

/// Unscrambling and then scrambling restores the grid, and so does
/// scrambling first.
pub proof fn unscramble_round_trip(grid: Seq<u32>)
    requires
        grid.len() == 64,
    ensures
        scramble(unscramble(grid)) == grid,
        unscramble(scramble(grid)) == grid,
{
    let rotated = rotate_blocks(grid);
    let swapped = swap_quadrants(rotated);
    let shuffled = shuffle_columns(swapped);
    shuffle_rows_round_trip(shuffled);
    shuffle_columns_round_trip(swapped);
    swap_quadrants_round_trip(rotated);
    rotate_blocks_round_trip(grid);

    let rows_back = shuffle_rows_back(grid);
    let columns_back = shuffle_columns(rows_back);
    let quadrants_back = swap_quadrants(columns_back);
    rotate_blocks_round_trip(quadrants_back);
    swap_quadrants_round_trip(columns_back);
    shuffle_columns_round_trip(rows_back);
    shuffle_rows_round_trip(grid);
}

/// The block rotation keeps a position on the tile, and the rotation back
/// undoes it; the same holds the other way round.
proof fn lemma_rotate_undone(c: int, r: int)
    requires
        in_tile(c, r),
    ensures
        in_tile(rotate_from(c, r).0, rotate_from(c, r).1),
        rotate_back_from(rotate_from(c, r).0, rotate_from(c, r).1) == (c, r),
        in_tile(rotate_back_from(c, r).0, rotate_back_from(c, r).1),
        rotate_from(rotate_back_from(c, r).0, rotate_back_from(c, r).1) == (c, r),
{
}

/// The quadrant swap and the column shuffle keep a position on the tile,
/// and each undoes itself.
proof fn lemma_swaps_undone(c: int, r: int)
    requires
        in_tile(c, r),
    ensures
        in_tile(quadrant_from(c, r).0, quadrant_from(c, r).1),
        quadrant_from(quadrant_from(c, r).0, quadrant_from(c, r).1) == (c, r),
        in_tile(column_from(c, r).0, column_from(c, r).1),
        column_from(column_from(c, r).0, column_from(c, r).1) == (c, r),
{
}

/// The row shuffle keeps a position on the tile, and the reverse shuffle
/// undoes it; the same holds the other way round.
proof fn lemma_rows_undone(c: int, r: int)
    requires
        in_tile(c, r),
    ensures
        in_tile(row_from(c, r).0, row_from(c, r).1),
        row_back_from(row_from(c, r).0, row_from(c, r).1) == (c, r),
        in_tile(row_back_from(c, r).0, row_back_from(c, r).1),
        row_from(row_back_from(c, r).0, row_back_from(c, r).1) == (c, r),
{
}

/// Every rearrangement keeps a position on the tile, and its reverse map
/// leads back to where it started.
proof fn lemma_maps_undone(c: int, r: int)
    requires
        in_tile(c, r),
    ensures
        in_tile(rotate_from(c, r).0, rotate_from(c, r).1),
        rotate_back_from(rotate_from(c, r).0, rotate_from(c, r).1) == (c, r),
        in_tile(rotate_back_from(c, r).0, rotate_back_from(c, r).1),
        rotate_from(rotate_back_from(c, r).0, rotate_back_from(c, r).1) == (c, r),
        in_tile(quadrant_from(c, r).0, quadrant_from(c, r).1),
        quadrant_from(quadrant_from(c, r).0, quadrant_from(c, r).1) == (c, r),
        in_tile(column_from(c, r).0, column_from(c, r).1),
        column_from(column_from(c, r).0, column_from(c, r).1) == (c, r),
        in_tile(row_from(c, r).0, row_from(c, r).1),
        row_back_from(row_from(c, r).0, row_from(c, r).1) == (c, r),
        in_tile(row_back_from(c, r).0, row_back_from(c, r).1),
        row_from(row_back_from(c, r).0, row_back_from(c, r).1) == (c, r),
{
    lemma_rotate_undone(c, r);
    lemma_swaps_undone(c, r);
    lemma_rows_undone(c, r);
}

/// On the tile, `scramble_from` and `unscramble_from` undo each other.
proof fn lemma_unscramble_from_undone(c: int, r: int)
    requires
        in_tile(c, r),
    ensures
        in_tile(unscramble_from(c, r).0, unscramble_from(c, r).1),
        scramble_from(unscramble_from(c, r).0, unscramble_from(c, r).1) == (c, r),
        in_tile(scramble_from(c, r).0, scramble_from(c, r).1),
        unscramble_from(scramble_from(c, r).0, scramble_from(c, r).1) == (c, r),
{
    let rows = row_from(c, r);
    lemma_maps_undone(c, r);
    let columns = column_from(rows.0, rows.1);
    lemma_maps_undone(rows.0, rows.1);
    let quadrants = quadrant_from(columns.0, columns.1);
    lemma_maps_undone(columns.0, columns.1);
    lemma_maps_undone(quadrants.0, quadrants.1);

    let blocks = rotate_back_from(c, r);
    let quadrants_back = quadrant_from(blocks.0, blocks.1);
    lemma_maps_undone(blocks.0, blocks.1);
    let columns_back = column_from(quadrants_back.0, quadrants_back.1);
    lemma_maps_undone(quadrants_back.0, quadrants_back.1);
    lemma_maps_undone(columns_back.0, columns_back.1);
}

/// The pixel that unscrambling puts at a position is the pixel that the grid
/// holds at the position `unscramble_from` names.
proof fn lemma_unscramble_pointwise(grid: Seq<u32>, c: int, r: int)
    requires
        in_tile(c, r),
    ensures
        unscramble(grid)[cell(c, r)] == grid[cell(
            unscramble_from(c, r).0,
            unscramble_from(c, r).1,
        )],
{
    let rotated = rotate_blocks(grid);
    let swapped = swap_quadrants(rotated);
    let shuffled = shuffle_columns(swapped);
    let i = cell(c, r);
    assert(i / 8 == c && i % 8 == r);
    let rows = row_from(c, r);
    lemma_maps_undone(c, r);
    let i3 = cell(rows.0, rows.1);
    assert(i3 / 8 == rows.0 && i3 % 8 == rows.1);
    let columns = column_from(rows.0, rows.1);
    lemma_maps_undone(rows.0, rows.1);
    let i2 = cell(columns.0, columns.1);
    assert(i2 / 8 == columns.0 && i2 % 8 == columns.1);
    let quadrants = quadrant_from(columns.0, columns.1);
    lemma_maps_undone(columns.0, columns.1);
    let i1 = cell(quadrants.0, quadrants.1);
    assert(i1 / 8 == quadrants.0 && i1 % 8 == quadrants.1);
    assert(shuffle_rows(shuffled)[i] == shuffled[i3]);
    assert(shuffled[i3] == swapped[i2]);
    assert(swapped[i2] == rotated[i1]);
}

/// Unscrambling keeps every value exactly as often as it was there.
proof fn lemma_unscramble_multiset(grid: Seq<u32>)
    requires
        grid.len() == 64,
    ensures
        unscramble(grid).to_multiset() == grid.to_multiset(),
{
    let rotated = rotate_blocks(grid);
    let swapped = swap_quadrants(rotated);
    let shuffled = shuffle_columns(swapped);
    assert forall|c: int, r: int| in_tile(c, r) implies in_tile(
        #[trigger] rotate_from(c, r).0,
        rotate_from(c, r).1,
    ) && rotate_back_from(rotate_from(c, r).0, rotate_from(c, r).1) == (c, r) by {
        lemma_maps_undone(c, r);
    }
    assert forall|c: int, r: int| in_tile(c, r) implies in_tile(
        #[trigger] rotate_back_from(c, r).0,
        rotate_back_from(c, r).1,
    ) && rotate_from(rotate_back_from(c, r).0, rotate_back_from(c, r).1) == (c, r) by {
        lemma_maps_undone(c, r);
    }
    assert forall|c: int, r: int| in_tile(c, r) implies in_tile(
        #[trigger] quadrant_from(c, r).0,
        quadrant_from(c, r).1,
    ) && quadrant_from(quadrant_from(c, r).0, quadrant_from(c, r).1) == (c, r) by {
        lemma_maps_undone(c, r);
    }
    assert forall|c: int, r: int| in_tile(c, r) implies in_tile(
        #[trigger] column_from(c, r).0,
        column_from(c, r).1,
    ) && column_from(column_from(c, r).0, column_from(c, r).1) == (c, r) by {
        lemma_maps_undone(c, r);
    }
    assert forall|c: int, r: int| in_tile(c, r) implies in_tile(
        #[trigger] row_from(c, r).0,
        row_from(c, r).1,
    ) && row_back_from(row_from(c, r).0, row_from(c, r).1) == (c, r) by {
        lemma_maps_undone(c, r);
    }
    assert forall|c: int, r: int| in_tile(c, r) implies in_tile(
        #[trigger] row_back_from(c, r).0,
        row_back_from(c, r).1,
    ) && row_from(row_back_from(c, r).0, row_back_from(c, r).1) == (c, r) by {
        lemma_maps_undone(c, r);
    }
    lemma_rearranged_multiset(
        grid,
        |c: int, r: int| rotate_from(c, r),
        |c: int, r: int| rotate_back_from(c, r),
    );
    lemma_rearranged_multiset(
        rotated,
        |c: int, r: int| quadrant_from(c, r),
        |c: int, r: int| quadrant_from(c, r),
    );
    lemma_rearranged_multiset(
        swapped,
        |c: int, r: int| column_from(c, r),
        |c: int, r: int| column_from(c, r),
    );
    lemma_rearranged_multiset(
        shuffled,
        |c: int, r: int| row_from(c, r),
        |c: int, r: int| row_back_from(c, r),
    );
}

/// Unscrambling is a permutation of the 64 positions of a tile: the pixel
/// at each position comes from the position that `unscramble_from` names,
/// `scramble_from` undoes that map on the tile, and so the unscrambled grid
/// holds every value exactly as often as the grid it was made from.
pub proof fn unscramble_is_permutation(grid: Seq<u32>)
    requires
        grid.len() == 64,
    ensures
        unscramble(grid).len() == 64,
        forall|c: int, r: int|
            in_tile(c, r) ==> #[trigger] unscramble(grid)[cell(c, r)] == grid[cell(
                unscramble_from(c, r).0,
                unscramble_from(c, r).1,
            )],
        forall|c: int, r: int|
            in_tile(c, r) ==> in_tile(#[trigger] unscramble_from(c, r).0, unscramble_from(c, r).1)
                && scramble_from(unscramble_from(c, r).0, unscramble_from(c, r).1) == (c, r),
        forall|c: int, r: int|
            in_tile(c, r) ==> in_tile(#[trigger] scramble_from(c, r).0, scramble_from(c, r).1)
                && unscramble_from(scramble_from(c, r).0, scramble_from(c, r).1) == (c, r),
        unscramble(grid).to_multiset() == grid.to_multiset(),
{
    assert forall|c: int, r: int| in_tile(c, r) implies #[trigger] unscramble(grid)[cell(c, r)]
        == grid[cell(unscramble_from(c, r).0, unscramble_from(c, r).1)] by {
        lemma_unscramble_pointwise(grid, c, r);
    }
    assert forall|c: int, r: int| in_tile(c, r) implies in_tile(
        #[trigger] unscramble_from(c, r).0,
        unscramble_from(c, r).1,
    ) && scramble_from(unscramble_from(c, r).0, unscramble_from(c, r).1) == (c, r) by {
        lemma_unscramble_from_undone(c, r);
    }
    assert forall|c: int, r: int| in_tile(c, r) implies in_tile(
        #[trigger] scramble_from(c, r).0,
        scramble_from(c, r).1,
    ) && unscramble_from(scramble_from(c, r).0, scramble_from(c, r).1) == (c, r) by {
        lemma_unscramble_from_undone(c, r);
    }
    lemma_unscramble_multiset(grid);
}

} // verus!
