//! The hit map of a level: one classification per pixel, its run-length
//! form, and the collision queries of the player's movement.
//!
//! Positions are fixed-point numbers: a coordinate counts sub-pixels, of
//! which `SUBPIXELS` make one pixel of the map.

use vstd::prelude::*;
use crate::error::DecodeError;
use crate::rle::{canonical, encode, expand, expand_pairs, run, run_len, run_value};
use crate::rle::{lemma_encode_canonical, lemma_round_trip};

verus! {

/// Classification of a pixel that the player passes through freely.
pub const KIND_NONE: u8 = 0;

/// Classification of a pixel that blocks the player.
pub const KIND_BLOCK: u8 = 1;

/// Classification of a pixel that kills the player.
pub const KIND_DEAD: u8 = 2;

/// Classification of a pixel that ends the level.
pub const KIND_NEXT_LEVEL: u8 = 3;

/// Palette indices below this one block the player.
pub const BLOCK_INDEX_LIMIT: u8 = 16;

/// The palette index of hazards.
pub const DEAD_INDEX: u8 = 53;

/// The palette index of the goal.
pub const NEXT_LEVEL_INDEX: u8 = 43;

/// Width of a level's hit map, in pixels: ten screens of 320 pixels.
pub const LEVEL_WIDTH: usize = 3200;

/// Sub-pixels per pixel.
pub const SUBPIXELS: i64 = 65536;

/// Half a pixel, in sub-pixels.
pub const HALF_PIXEL: i64 = 32768;

/// Width of the player's rectangle, in pixels.
pub const PLAYER_WIDTH: i64 = 10;

/// Height of the player's rectangle, in pixels.
pub const PLAYER_HEIGHT: i64 = 16;

/// The classification of a pixel with palette index `index`.
pub open spec fn kind_of(index: u8) -> u8 {
    if index < BLOCK_INDEX_LIMIT {
        KIND_BLOCK
    } else if index == DEAD_INDEX {
        KIND_DEAD
    } else if index == NEXT_LEVEL_INDEX {
        KIND_NEXT_LEVEL
    } else {
        KIND_NONE
    }
}

/// The classifications of a row of palette indices.
pub open spec fn kinds_of(indices: Seq<u8>) -> Seq<u8> {
    Seq::new(indices.len(), |i: int| kind_of(indices[i]))
}

/// The classification of a pixel with palette index `index`.
pub fn classify(index: u8) -> (kind: u8)
    ensures
        kind == kind_of(index),
{
    if index < BLOCK_INDEX_LIMIT {
        KIND_BLOCK
    } else if index == DEAD_INDEX {
        KIND_DEAD
    } else if index == NEXT_LEVEL_INDEX {
        KIND_NEXT_LEVEL
    } else {
        KIND_NONE
    }
}

/// The cell that a coordinate falls in: the nearest whole pixel, found by
/// adding half a pixel and dropping the fraction.
pub open spec fn cell_of(coord: int) -> int {
    (coord + HALF_PIXEL) / (SUBPIXELS as int)
}

/// The coordinate `pixels` whole pixels after `coord`.
pub open spec fn shifted(coord: int, pixels: int) -> int {
    coord + pixels * SUBPIXELS
}

/// The cell of the coordinate `pixels` whole pixels after `coord`, where it
/// is one of the cells `0` to `limit - 1`.
fn cell_below(coord: i64, pixels: i64, limit: usize) -> (cell: Option<usize>)
    requires
        0 <= pixels <= 16,
    ensures
        match cell {
            Some(c) => c == cell_of(shifted(coord as int, pixels as int)) && c < limit,
            None => !(0 <= cell_of(shifted(coord as int, pixels as int)) < limit),
        },
{
    let shift: i128 = (pixels as i128) * 65536;
    let wide: i128 = coord as i128 + shift + 32768;
    if wide < 0 {
        return None;
    }
    let cell: u128 = (wide as u128) / 65536;
    if cell < limit as u128 {
        Some(cell as usize)
    } else {
        None
    }
}

/// The cell (`px`, `py`) of a map with rows of `width` cells lies inside its
/// `len` cells where `py` is one of its whole rows.
proof fn lemma_cell_in_map(px: int, py: int, width: int, len: int)
    requires
        0 <= px < width,
        0 <= py < len / width,
        0 <= len,
    ensures
        0 <= py * width + px < len,
{
    assert(0 <= py * width && (py + 1) * width <= (len / width) * width) by (nonlinear_arith)
        requires
            0 <= py < len / width,
            0 < width,
    ;
    assert((len / width) * width <= len) by (nonlinear_arith)
        requires
            0 <= len,
            0 < width,
    ;
    assert((py + 1) * width == py * width + width) by (nonlinear_arith);
}

/// A point outside the map blocks, and neither kills nor ends the level.
pub proof fn lemma_outside_point(hit_map: &HitMap, x: int, y: int)
    requires
        hit_map.spec_kind_at(x, y) is None,
    ensures
        hit_map.spec_is_block(x, y),
        hit_map.spec_kind_at(x, y) != Some(KIND_DEAD),
        hit_map.spec_kind_at(x, y) != Some(KIND_NEXT_LEVEL),
{
}

/// A column of probe points blocks where one of its points falls outside
/// the map. The probes of the player's left and right edge are such columns.
pub proof fn lemma_outside_column(hit_map: &HitMap, x: int, y: int, k: int)
    requires
        0 <= k < PLAYER_HEIGHT,
        hit_map.spec_kind_at(x, shifted(y, k)) is None,
    ensures
        hit_map.blocks_column(x, y),
{
    assert(hit_map.blocks_below(x, y, k));
}

/// A row of probe points blocks where one of its points falls outside the
/// map. The probes of the player's top and bottom edge are such rows.
pub proof fn lemma_outside_row(hit_map: &HitMap, x: int, y: int, k: int)
    requires
        0 <= k < PLAYER_WIDTH,
        hit_map.spec_kind_at(shifted(x, k), y) is None,
    ensures
        hit_map.blocks_row(x, y),
{
    assert(hit_map.blocks_beside(x, y, k));
}

/// One classification per pixel, row after row from the top, and the width
/// of a row.
#[derive(Clone, Debug)]
pub struct HitMap {
    map: Vec<u8>,
    width: usize,
}

impl View for HitMap {
    type V = Seq<u8>;

    /// The classifications, row after row from the top.
    closed spec fn view(&self) -> Seq<u8> {
        self.map@
    }
}

impl HitMap {
    /// The number of pixels of a row.
    pub closed spec fn spec_width(&self) -> nat {
        self.width as nat
    }

    /// The number of whole rows.
    pub open spec fn spec_height(&self) -> nat {
        if self.spec_width() == 0 {
            0
        } else {
            self@.len() / self.spec_width()
        }
    }

    /// The classification of the cell that (`x`, `y`) falls in, or `None`
    /// where that cell lies outside the map.
    pub open spec fn spec_kind_at(&self, x: int, y: int) -> Option<u8> {
        let px = cell_of(x);
        let py = cell_of(y);
        if 0 <= px < self.spec_width() && 0 <= py < self.spec_height() {
            Some(self@[py * self.spec_width() + px])
        } else {
            None
        }
    }

    /// A point blocks where its cell is blocking or lies outside the map.
    pub open spec fn spec_is_block(&self, x: int, y: int) -> bool {
        self.spec_kind_at(x, y) == Some(KIND_BLOCK) || self.spec_kind_at(x, y) is None
    }

    /// Whether the point `k` pixels below (`x`, `y`) blocks.
    pub open spec fn blocks_below(&self, x: int, y: int, k: int) -> bool {
        self.spec_is_block(x, shifted(y, k))
    }

    /// Whether the point `k` pixels right of (`x`, `y`) blocks.
    pub open spec fn blocks_beside(&self, x: int, y: int, k: int) -> bool {
        self.spec_is_block(shifted(x, k), y)
    }

    /// Whether any point of the column of `PLAYER_HEIGHT` points that starts
    /// at (`x`, `y`) and runs down blocks.
    pub open spec fn blocks_column(&self, x: int, y: int) -> bool {
        exists|k: int| 0 <= k < PLAYER_HEIGHT && #[trigger] self.blocks_below(x, y, k)
    }

    /// Whether any point of the row of `PLAYER_WIDTH` points that starts at
    /// (`x`, `y`) and runs right blocks.
    pub open spec fn blocks_row(&self, x: int, y: int) -> bool {
        exists|k: int| 0 <= k < PLAYER_WIDTH && #[trigger] self.blocks_beside(x, y, k)
    }

    /// A hit map over `map` with rows of `width` pixels.
    pub fn new(map: Vec<u8>, width: usize) -> (hit_map: HitMap)
        ensures
            hit_map@ == map@,
            hit_map.spec_width() == width,
    {
        HitMap { map, width }
    }

    /// Expands a run-length stream of (length, classification) pairs into
    /// the hit map of a level, whose rows are `LEVEL_WIDTH` pixels wide. A
    /// last byte without a partner is ignored.
    pub fn from_rle_bytes(bytes: &[u8]) -> (hit_map: HitMap)
        ensures
            hit_map@ == expand(bytes@),
            hit_map.spec_width() == LEVEL_WIDTH,
    {
        HitMap::from_rle_bytes_with_width(bytes, LEVEL_WIDTH)
    }

    /// Expands a run-length stream of (length, classification) pairs into a
    /// hit map with rows of `width` pixels. A last byte without a partner is
    /// ignored.
    pub fn from_rle_bytes_with_width(bytes: &[u8], width: usize) -> (hit_map: HitMap)
        ensures
            hit_map@ == expand(bytes@),
            hit_map.spec_width() == width,
    {
        let mut map: Vec<u8> = Vec::new();
        let pairs = bytes.len() / 2;
        let mut k: usize = 0;
        while k < pairs
            invariant
                k <= pairs,
                pairs == bytes@.len() / 2,
                bytes@.len() <= usize::MAX,
                map@ == expand_pairs(bytes@, k as nat),
            decreases pairs - k,
        {
            let count = bytes[2 * k];
            let value = bytes[2 * k + 1];
            let ghost before = map@;
            let mut j: u8 = 0;
            proof {
                assert(before + run(0, value) =~= before);
            }
            while j < count
                invariant
                    j <= count,
                    map@ == before + run(j as nat, value),
                decreases count - j,
            {
                map.push(value);
                j += 1;
                proof {
                    assert(map@ =~= before + run(j as nat, value));
                }
            }
            proof {
                assert(run_len(bytes@, k as int) == count);
                assert(run_value(bytes@, k as int) == value);
            }
            k += 1;
        }
        HitMap { map, width }
    }

    /// The run-length stream that stands for the hit map: its pairs of
    /// (length, classification). Each run is as long as it can be, up to
    /// 255 pixels. A hit map without pixels is invalid input.
    pub fn save(&self) -> (res: Result<Vec<u8>, DecodeError>)
        ensures
            match res {
                Ok(bytes) => {
                    &&& self@.len() > 0
                    &&& bytes@ == encode(self@)
                    &&& canonical(bytes@)
                    &&& expand(bytes@) == self@
                },
                Err(e) => e == DecodeError::InvalidInput && self@.len() == 0,
            },
    {
        let n = self.map.len();
        if n == 0 {
            return Err(DecodeError::InvalidInput);
        }
        let mut out: Vec<u8> = Vec::new();
        let mut last_hit = self.map[0];
        let mut count: u8 = 1;
        let mut i: usize = 1;
        proof {
            let first = self@.take(1);
            assert(first.drop_last() =~= Seq::<u8>::empty());
            assert(encode(first.drop_last()).len() == 0);
            assert(encode(first) =~= out@ + seq![count, last_hit]);
        }
        while i < n
            invariant
                1 <= i <= n,
                n == self@.len(),
                1 <= count,
                out@ + seq![count, last_hit] == encode(self@.take(i as int)),
            decreases n - i,
        {
            let hit = self.map[i];
            let ghost head = encode(self@.take(i as int));
            let ghost before = out@;
            proof {
                let prefix = self@.take(i + 1);
                assert(prefix.drop_last() =~= self@.take(i as int));
                assert(prefix.last() == hit);
                assert(head.len() == before.len() + 2);
                assert(head[head.len() - 1] == last_hit);
                assert(head[head.len() - 2] == count);
            }
            if last_hit == hit && count < 255 {
                count += 1;
                proof {
                    assert(head.update(head.len() - 2, count) =~= out@ + seq![count, last_hit]);
                }
            } else {
                out.push(count);
                out.push(last_hit);
                last_hit = hit;
                count = 1;
                proof {
                    assert(head + seq![1u8, hit] =~= out@ + seq![count, last_hit]);
                }
            }
            i += 1;
        }
        let ghost before = out@;
        out.push(count);
        out.push(last_hit);
        proof {
            assert(out@ =~= before + seq![count, last_hit]);
            assert(self@.take(n as int) =~= self@);
            lemma_round_trip(self@);
            lemma_encode_canonical(self@);
        }
        Ok(out)
    }

    /// The classification of the cell that the point `dx` pixels right of
    /// and `dy` pixels below (`x`, `y`) falls in.
    fn kind_near(&self, x: i64, y: i64, dx: i64, dy: i64) -> (kind: Option<u8>)
        requires
            0 <= dx <= PLAYER_WIDTH,
            0 <= dy <= PLAYER_HEIGHT,
        ensures
            kind == self.spec_kind_at(shifted(x as int, dx as int), shifted(y as int, dy as int)),
    {
        let height = self.height();
        let px = match cell_below(x, dx, self.width) {
            Some(cell) => cell,
            None => {
                return None;
            },
        };
        let py = match cell_below(y, dy, height) {
            Some(cell) => cell,
            None => {
                return None;
            },
        };
        let len = self.map.len();
        proof {
            lemma_cell_in_map(px as int, py as int, self.width as int, len as int);
        }
        Some(self.map[py * self.width + px])
    }

    /// The classification of the cell that (`x`, `y`) falls in, or `None`
    /// where that cell lies outside the map. The cell of a coordinate is the
    /// nearest whole pixel.
    pub fn kind_at(&self, x: i64, y: i64) -> (kind: Option<u8>)
        ensures
            kind == self.spec_kind_at(x as int, y as int),
    {
        self.kind_near(x, y, 0, 0)
    }

    /// Whether the point (`x`, `y`) blocks: its cell is blocking or lies
    /// outside the map.
    pub fn is_block(&self, x: i64, y: i64) -> (blocked: bool)
        ensures
            blocked == self.spec_is_block(x as int, y as int),
    {
        match self.kind_near(x, y, 0, 0) {
            Some(kind) => kind == KIND_BLOCK,
            None => true,
        }
    }

    /// Whether any of the `PLAYER_HEIGHT` points from (`x + dx`, `y`) down
    /// blocks.
    fn column_blocked(&self, x: i64, y: i64, dx: i64) -> (blocked: bool)
        requires
            0 <= dx <= PLAYER_WIDTH,
        ensures
            blocked == self.blocks_column(shifted(x as int, dx as int), y as int),
    {
        let mut k: i64 = 0;
        while k < PLAYER_HEIGHT
            invariant
                0 <= k <= PLAYER_HEIGHT,
                0 <= dx <= PLAYER_WIDTH,
                forall|j: int|
                    0 <= j < k ==> !#[trigger] self.blocks_below(
                        shifted(x as int, dx as int),
                        y as int,
                        j,
                    ),
            decreases PLAYER_HEIGHT - k,
        {
            let blocked = match self.kind_near(x, y, dx, k) {
                Some(kind) => kind == KIND_BLOCK,
                None => true,
            };
            if blocked {
                proof {
                    assert(self.blocks_below(shifted(x as int, dx as int), y as int, k as int));
                }
                return true;
            }
            k += 1;
        }
        false
    }

    /// Whether any of the `PLAYER_WIDTH` points from (`x`, `y + dy`) to the
    /// right blocks.
    fn row_blocked(&self, x: i64, y: i64, dy: i64) -> (blocked: bool)
        requires
            0 <= dy <= PLAYER_HEIGHT,
        ensures
            blocked == self.blocks_row(x as int, shifted(y as int, dy as int)),
    {
        let mut k: i64 = 0;
        while k < PLAYER_WIDTH
            invariant
                0 <= k <= PLAYER_WIDTH,
                0 <= dy <= PLAYER_HEIGHT,
                forall|j: int|
                    0 <= j < k ==> !#[trigger] self.blocks_beside(
                        x as int,
                        shifted(y as int, dy as int),
                        j,
                    ),
            decreases PLAYER_WIDTH - k,
        {
            let blocked = match self.kind_near(x, y, k, dy) {
                Some(kind) => kind == KIND_BLOCK,
                None => true,
            };
            if blocked {
                proof {
                    assert(self.blocks_beside(x as int, shifted(y as int, dy as int), k as int));
                }
                return true;
            }
            k += 1;
        }
        false
    }

    /// Whether the player's left edge is blocked at (`x`, `y`): any of the
    /// `PLAYER_HEIGHT` points from (`x`, `y`) down blocks.
    pub fn check_left(&self, x: i64, y: i64) -> (blocked: bool)
        ensures
            blocked == self.blocks_column(x as int, y as int),
    {
        self.column_blocked(x, y, 0)
    }

    /// Whether the player's right edge is blocked at (`x`, `y`): the same
    /// column of points, `PLAYER_WIDTH - 1` pixels to the right.
    pub fn check_right(&self, x: i64, y: i64) -> (blocked: bool)
        ensures
            blocked == self.blocks_column(shifted(x as int, PLAYER_WIDTH - 1), y as int),
    {
        self.column_blocked(x, y, PLAYER_WIDTH - 1)
    }

    /// Whether the player's top edge is blocked at (`x`, `y`): any of the
    /// `PLAYER_WIDTH` points from (`x`, `y`) to the right blocks.
    pub fn check_top(&self, x: i64, y: i64) -> (blocked: bool)
        ensures
            blocked == self.blocks_row(x as int, y as int),
    {
        self.row_blocked(x, y, 0)
    }

    /// Whether the player's bottom edge is blocked at (`x`, `y`): the same
    /// row of points, `PLAYER_HEIGHT - 1` pixels down.
    pub fn check_bottom(&self, x: i64, y: i64) -> (blocked: bool)
        ensures
            blocked == self.blocks_row(x as int, shifted(y as int, PLAYER_HEIGHT - 1)),
    {
        self.row_blocked(x, y, PLAYER_HEIGHT - 1)
    }

    /// Whether the cell of (`x`, `y`) is deadly. A point outside the map is
    /// not.
    pub fn check_dead(&self, x: i64, y: i64) -> (dead: bool)
        ensures
            dead == (self.spec_kind_at(x as int, y as int) == Some(KIND_DEAD)),
    {
        match self.kind_near(x, y, 0, 0) {
            Some(kind) => kind == KIND_DEAD,
            None => false,
        }
    }

    /// Whether the cell of (`x`, `y`) ends the level. A point outside the
    /// map does not.
    pub fn check_next_level(&self, x: i64, y: i64) -> (next: bool)
        ensures
            next == (self.spec_kind_at(x as int, y as int) == Some(KIND_NEXT_LEVEL)),
    {
        match self.kind_near(x, y, 0, 0) {
            Some(kind) => kind == KIND_NEXT_LEVEL,
            None => false,
        }
    }

    /// The classifications, row after row from the top.
    pub fn map(&self) -> (map: &[u8])
        ensures
            map@ == self@,
    {
        self.map.as_slice()
    }

    /// The number of pixels of a row.
    pub fn width(&self) -> (width: usize)
        ensures
            width == self.spec_width(),
    {
        self.width
    }

    /// The number of whole rows.
    pub fn height(&self) -> (height: usize)
        ensures
            height == self.spec_height(),
    {
        if self.width == 0 {
            0
        } else {
            self.map.len() / self.width
        }
    }
}

} // verus!
