//! How tiles are joined side by side: the model of the joined image and the
//! laws of the placement.
//!
//! Tiles are placed from right to left. The first tile takes the rightmost
//! columns of the joined image and the last tile the leftmost: this is the
//! order in which the level files store the screens of a level.

use vstd::prelude::*;
use vstd::arithmetic::div_mod::lemma_fundamental_div_mod_converse;
use crate::image::{ImageView, Size};

verus! {

/// The sum of the widths of `tiles`.
pub open spec fn total_width(tiles: Seq<ImageView>) -> nat
    decreases tiles.len(),
{
    if tiles.len() == 0 {
        0
    } else {
        tiles[0].size.width as nat + total_width(tiles.skip(1))
    }
}

/// The column of the joined image at which tile `i` starts: the tiles after
/// tile `i` lie to its left.
pub open spec fn left_of(tiles: Seq<ImageView>, i: int) -> nat {
    total_width(tiles.skip(i + 1))
}

/// Where the pixel at (`row`, `col`) of tile `i` stands in the joined image.
pub open spec fn placed_at(tiles: Seq<ImageView>, i: int, row: int, col: int) -> int {
    row * total_width(tiles) + left_of(tiles, i) + col
}

/// The pixel at (`row`, `col`) of tile `i`.
pub open spec fn source_at(tiles: Seq<ImageView>, i: int, row: int, col: int) -> u8 {
    tiles[i].pixels[row * tiles[i].size.width + col]
}

/// Tiles can be joined where there is at least one, all have the height of
/// the first, and the joined image fits the limits of its size and of memory.
pub open spec fn joinable(tiles: Seq<ImageView>) -> bool {
    &&& tiles.len() > 0
    &&& forall|i: int| 0 <= i < tiles.len() ==> (#[trigger] tiles[i]).size.height == tiles[0].size.height
    &&& total_width(tiles) <= u32::MAX
    &&& total_width(tiles) * tiles[0].size.height <= usize::MAX
}

/// Whether column `col` of the joined image belongs to tile `i`.
pub open spec fn owns_column(tiles: Seq<ImageView>, i: int, col: int) -> bool {
    0 <= i < tiles.len() && left_of(tiles, i) <= col < left_of(tiles, i) + tiles[i].size.width
}

/// Whether (`row`, `col`) is a pixel of tile `i` in a joined image of
/// `height` rows.
pub open spec fn in_tile(tiles: Seq<ImageView>, height: int, i: int, row: int, col: int) -> bool {
    0 <= i < tiles.len() && 0 <= row < height && 0 <= col < tiles[i].size.width
}

/// The tile that column `col` of the joined image belongs to.
pub open spec fn owner_of(tiles: Seq<ImageView>, col: int) -> int {
    choose|i: int| #[trigger] owns_column(tiles, i, col)
}

/// The pixel that stands at `place` in the joined image, counted row after
/// row from the top.
pub open spec fn joined_pixel(tiles: Seq<ImageView>, place: int) -> u8 {
    let total = total_width(tiles) as int;
    let row = place / total;
    let within = place % total;
    let i = owner_of(tiles, within);
    source_at(tiles, i, row, within - left_of(tiles, i))
}

/// The size of the joined image: as wide as all tiles together and as high
/// as the first.
pub open spec fn joined_size(tiles: Seq<ImageView>) -> Size {
    Size { width: total_width(tiles) as u32, height: tiles[0].size.height }
}

/// The joined image.
pub open spec fn joined(tiles: Seq<ImageView>) -> ImageView {
    ImageView {
        size: joined_size(tiles),
        pixels: Seq::new(joined_size(tiles).area(), |place: int| joined_pixel(tiles, place)),
    }
}

/// The tiles from `i` on are as wide as tile `i` and the tiles after it.
pub proof fn lemma_width_split(tiles: Seq<ImageView>, i: int)
    requires
        0 <= i < tiles.len(),
    ensures
        total_width(tiles.skip(i)) == tiles[i].size.width + left_of(tiles, i),
{
    assert(tiles.skip(i).skip(1) =~= tiles.skip(i + 1));
}

/// The tiles from `j` on are no wider than the tiles from `i` on, where `i`
/// comes first.
pub proof fn lemma_width_tail_le(tiles: Seq<ImageView>, i: int, j: int)
    requires
        0 <= i <= j <= tiles.len(),
    ensures
        total_width(tiles.skip(j)) <= total_width(tiles.skip(i)),
    decreases j - i,
{
    if i < j {
        lemma_width_split(tiles, i);
        lemma_width_tail_le(tiles, i + 1, j);
    }
}

/// The tiles from `i` on are no wider than all tiles.
pub proof fn lemma_width_skip_le(tiles: Seq<ImageView>, i: int)
    requires
        0 <= i <= tiles.len(),
    ensures
        total_width(tiles.skip(i)) <= total_width(tiles),
{
    assert(tiles.skip(0) =~= tiles);
    lemma_width_tail_le(tiles, 0, i);
}

/// Tiles of one width are together as wide as that width times their number.
pub proof fn lemma_width_of_equal_tiles(tiles: Seq<ImageView>, width: u32)
    requires
        forall|i: int| 0 <= i < tiles.len() ==> (#[trigger] tiles[i]).size.width == width,
    ensures
        total_width(tiles) == tiles.len() * width,
    decreases tiles.len(),
{
    if tiles.len() > 0 {
        lemma_width_of_equal_tiles(tiles.skip(1), width);
        assert(tiles.len() * width == width + (tiles.len() - 1) * width) by (nonlinear_arith);
    } else {
        assert(tiles.len() * width == 0) by (nonlinear_arith)
            requires
                tiles.len() == 0,
        ;
    }
}

/// Every pixel of every tile is placed inside its row of the joined image.
pub proof fn lemma_placed_in_row(tiles: Seq<ImageView>, i: int, row: int, col: int)
    requires
        0 <= i < tiles.len(),
        0 <= row,
        0 <= col < tiles[i].size.width,
    ensures
        row * total_width(tiles) <= placed_at(tiles, i, row, col) < (row + 1) * total_width(tiles),
        left_of(tiles, i) + col < total_width(tiles),
{
    lemma_width_split(tiles, i);
    lemma_width_skip_le(tiles, i);
    let total = total_width(tiles) as int;
    assert((row + 1) * total == row * total + total) by (nonlinear_arith);
}

/// Some tile from `from` on owns column `col`, where `col` lies in the
/// columns of those tiles.
proof fn lemma_owner_from(tiles: Seq<ImageView>, col: int, from: int)
    requires
        0 <= from <= tiles.len(),
        0 <= col < total_width(tiles.skip(from)),
    ensures
        exists|i: int| #[trigger] owns_column(tiles, i, col),
    decreases tiles.len() - from,
{
    if from == tiles.len() {
        assert(tiles.skip(from) =~= Seq::<ImageView>::empty());
    } else {
        lemma_width_split(tiles, from);
        if col >= left_of(tiles, from) {
            assert(owns_column(tiles, from, col));
        } else {
            lemma_owner_from(tiles, col, from + 1);
        }
    }
}

/// Every column of the joined image belongs to a tile.
pub proof fn lemma_column_has_owner(tiles: Seq<ImageView>, col: int)
    requires
        0 <= col < total_width(tiles),
    ensures
        owns_column(tiles, owner_of(tiles, col), col),
{
    assert(tiles.skip(0) =~= tiles);
    lemma_owner_from(tiles, col, 0);
}

/// No column of the joined image belongs to two tiles.
pub proof fn lemma_column_owner_unique(tiles: Seq<ImageView>, i: int, j: int, col: int)
    requires
        owns_column(tiles, i, col),
        owns_column(tiles, j, col),
    ensures
        i == j,
{
    if i < j {
        lemma_width_tail_le(tiles, i + 1, j);
        lemma_width_split(tiles, j);
    } else if j < i {
        lemma_width_tail_le(tiles, j + 1, i);
        lemma_width_split(tiles, i);
    }
}

/// No gaps: every pixel of the joined image is the place of a pixel of some
/// tile.
pub proof fn lemma_placement_covers(tiles: Seq<ImageView>, height: int, place: int)
    requires
        0 <= place < total_width(tiles) * height,
    ensures
        exists|i: int, row: int, col: int|
            in_tile(tiles, height, i, row, col) && #[trigger] placed_at(tiles, i, row, col)
                == place,
{
    let total = total_width(tiles) as int;
    assert(total > 0 && height > 0) by (nonlinear_arith)
        requires
            0 <= place < total * height,
            0 <= total,
    ;
    let row = place / total;
    let within = place % total;
    assert(place == total * row + within && 0 <= within < total) by (nonlinear_arith)
        requires
            total > 0,
            row == place / total,
            within == place % total,
    ;
    assert(0 <= row < height) by (nonlinear_arith)
        requires
            0 <= place < total * height,
            place == total * row + within,
            0 <= within < total,
    ;
    assert(total * row == row * total) by (nonlinear_arith);
    lemma_column_has_owner(tiles, within);
    let i = owner_of(tiles, within);
    let col = within - left_of(tiles, i);
    assert(in_tile(tiles, height, i, row, col));
    assert(placed_at(tiles, i, row, col) == place);
}

/// No overlaps: two pixels of the tiles that are placed at one pixel of the
/// joined image are the same pixel of the same tile.
pub proof fn lemma_placement_injective(
    tiles: Seq<ImageView>,
    height: int,
    i1: int,
    row1: int,
    col1: int,
    i2: int,
    row2: int,
    col2: int,
)
    requires
        in_tile(tiles, height, i1, row1, col1),
        in_tile(tiles, height, i2, row2, col2),
        placed_at(tiles, i1, row1, col1) == placed_at(tiles, i2, row2, col2),
    ensures
        i1 == i2,
        row1 == row2,
        col1 == col2,
{
    let total = total_width(tiles) as int;
    lemma_placed_in_row(tiles, i1, row1, col1);
    lemma_placed_in_row(tiles, i2, row2, col2);
    let within1 = left_of(tiles, i1) + col1;
    let within2 = left_of(tiles, i2) + col2;
    assert(row1 == row2) by (nonlinear_arith)
        requires
            row1 * total + within1 == row2 * total + within2,
            0 <= within1 < total,
            0 <= within2 < total,
    ;
    assert(within1 == within2);
    assert(owns_column(tiles, i1, within1));
    assert(owns_column(tiles, i2, within1));
    lemma_column_owner_unique(tiles, i1, i2, within1);
}

/// The joined image is as wide as all tiles together, and every pixel of
/// every tile stands in it at the place that the placement gives it.
pub proof fn lemma_joined_places(tiles: Seq<ImageView>, i: int, row: int, col: int)
    requires
        joinable(tiles),
        in_tile(tiles, tiles[0].size.height as int, i, row, col),
    ensures
        joined(tiles).size.width == total_width(tiles),
        0 <= placed_at(tiles, i, row, col) < joined(tiles).pixels.len(),
        joined(tiles).pixels[placed_at(tiles, i, row, col)] == source_at(tiles, i, row, col),
{
    let total = total_width(tiles) as int;
    let height = tiles[0].size.height as int;
    let within = left_of(tiles, i) + col;
    let place = placed_at(tiles, i, row, col);
    lemma_placed_in_row(tiles, i, row, col);
    assert((row + 1) * total <= height * total) by (nonlinear_arith)
        requires
            0 <= row < height,
            0 <= total,
    ;
    assert(height * total == total * height) by (nonlinear_arith);
    assert(0 <= row * total) by (nonlinear_arith)
        requires
            0 <= row,
            0 <= total,
    ;
    lemma_fundamental_div_mod_converse(place, total, row, within);
    lemma_column_has_owner(tiles, within);
    assert(owns_column(tiles, i, within));
    lemma_column_owner_unique(tiles, i, owner_of(tiles, within), within);
}

} // verus!
