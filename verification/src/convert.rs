//! The two conversions of the asset pipeline: a level file into the images
//! and the hit map of a level, and the player's sprite sheet into one image.

use vstd::prelude::*;
use crate::compositor::{joinable, joined, lemma_width_of_equal_tiles, total_width};
use crate::error::DecodeError;
use crate::hit_map::kinds_of;
use crate::image::{colors_of, pixels_of, sized, views, Image, ImageView, Size};
use crate::palette::{entries_of, Palette, PALETTE_BYTES};
use crate::rle::{encode, raw_tiles, tiles};
use crate::tga::file32;

verus! {

/// Width of a screen, in pixels.
pub const SCREEN_WIDTH: u32 = 320;

/// Height of a screen, in pixels.
pub const SCREEN_HEIGHT: u32 = 192;

/// Number of screens that make the foreground of a level.
pub const SCREEN_COUNT: usize = 10;

/// Number of tiles of a level file: the screens of the foreground and one
/// screen of background.
pub const LEVEL_TILES: usize = 11;

/// The transparent palette index of a level.
pub const LEVEL_TRANSPARENT: u8 = 255;

/// Width of a sprite of the player, in pixels.
pub const SPRITE_WIDTH: u32 = 10;

/// Height of a sprite of the player, in pixels.
pub const SPRITE_HEIGHT: u32 = 16;

/// Number of sprites of the player.
pub const SPRITE_COUNT: usize = 18;

/// The transparent palette index of the player's sprites.
pub const SPRITE_TRANSPARENT: u8 = 0;

/// The size of a screen.
pub open spec fn screen() -> Size {
    Size { width: SCREEN_WIDTH, height: SCREEN_HEIGHT }
}

/// The size of a sprite of the player.
pub open spec fn sprite() -> Size {
    Size { width: SPRITE_WIDTH, height: SPRITE_HEIGHT }
}

/// The foreground of a level: the first `SCREEN_COUNT` of its tiles, joined.
pub open spec fn foreground_of(rows: Seq<Seq<u8>>) -> ImageView {
    joined(sized(rows.take(SCREEN_COUNT as int), screen()))
}

/// The files of a level.
#[derive(Clone, Debug)]
pub struct LevelFiles {
    /// The image of the foreground, at 32 bits per pixel.
    pub foreground: Vec<u8>,
    /// The image of the background, at 32 bits per pixel.
    pub background: Vec<u8>,
    /// The hit map of the foreground, run-length encoded.
    pub hit_map: Vec<u8>,
}

/// Tiles of one size can be joined where their sizes allow it.
proof fn lemma_equal_tiles_joinable(tiles: Seq<ImageView>, size: Size)
    requires
        tiles.len() > 0,
        forall|i: int| 0 <= i < tiles.len() ==> (#[trigger] tiles[i]).size == size,
        tiles.len() * size.width <= u32::MAX,
        tiles.len() * size.width * size.height <= usize::MAX,
    ensures
        joinable(tiles),
        total_width(tiles) == tiles.len() * size.width,
{
    lemma_width_of_equal_tiles(tiles, size.width);
}

/// Converts a level file into the files of the level.
///
/// The level file is a run-length stream of `LEVEL_TILES` screens. The
/// first `SCREEN_COUNT` of them are joined into the foreground, from which
/// the hit map is derived; the last one is the background. The palette
/// resource and the level file must both be complete.
pub fn convert_level(palette: &[u8], level: &[u8]) -> (res: Result<LevelFiles, DecodeError>)
    ensures
        match res {
            Ok(files) => {
                &&& palette@.len() >= PALETTE_BYTES
                &&& tiles(level@, screen().area(), LEVEL_TILES as nat) matches Some(rows)
                &&& files.foreground@ == file32(
                    foreground_of(rows).size,
                    colors_of(foreground_of(rows).pixels, entries_of(palette@, LEVEL_TRANSPARENT)),
                )
                &&& files.hit_map@ == encode(kinds_of(foreground_of(rows).pixels))
                &&& files.background@ == file32(
                    screen(),
                    colors_of(rows[SCREEN_COUNT as int], entries_of(palette@, LEVEL_TRANSPARENT)),
                )
            },
            Err(e) => {
                &&& e == DecodeError::TruncatedInput
                &&& palette@.len() < PALETTE_BYTES || tiles(
                    level@,
                    screen().area(),
                    LEVEL_TILES as nat,
                ) is None
            },
        },
{
    let palette = match Palette::load(palette, LEVEL_TRANSPARENT) {
        Ok(p) => p,
        Err(e) => {
            return Err(e);
        },
    };
    let size = Size::new(SCREEN_WIDTH, SCREEN_HEIGHT);
    assert(size.area() == 61440) by (nonlinear_arith)
        requires
            size.width == 320,
            size.height == 192,
            size.area() == (size.width * size.height) as nat,
    ;
    let images = match Image::load_ob5(level, size, LEVEL_TILES) {
        Ok(images) => images,
        Err(e) => {
            return Err(e);
        },
    };
    let ghost rows = pixels_of(images@);
    let screens = vstd::slice::slice_subrange(images.as_slice(), 0, SCREEN_COUNT);
    proof {
        assert(views(screens@) =~= sized(rows.take(SCREEN_COUNT as int), size));
        assert(10 * size.width * size.height == 614400) by (nonlinear_arith)
            requires
                size.width == 320,
                size.height == 192,
        ;
        lemma_equal_tiles_joinable(views(screens@), size);
    }
    let joined = match Image::join_horizontal(screens) {
        Ok(joined) => joined,
        Err(e) => {
            return Err(e);
        },
    };
    proof {
        assert(joined@.size.area() == 614400) by (nonlinear_arith)
            requires
                joined@.size.width == 3200,
                joined@.size.height == 192,
                joined@.size.area() == (joined@.size.width * joined@.size.height) as nat,
        ;
    }
    let foreground = joined.save_tga(&palette);
    let hit_map = match joined.hit_map().save() {
        Ok(bytes) => bytes,
        Err(e) => {
            return Err(e);
        },
    };
    let background = images[SCREEN_COUNT].save_tga(&palette);
    Ok(LevelFiles { foreground, background, hit_map })
}

/// Converts the player's sprite sheet into one image at 32 bits per pixel.
///
/// The sprite sheet holds `SPRITE_COUNT` sprites, one palette index per
/// pixel. The sprites are joined side by side. The palette resource and the
/// sprite sheet must both be complete.
pub fn convert_player(palette: &[u8], sprites: &[u8]) -> (res: Result<Vec<u8>, DecodeError>)
    ensures
        match res {
            Ok(file) => {
                &&& palette@.len() >= PALETTE_BYTES
                &&& raw_tiles(sprites@, sprite().area(), SPRITE_COUNT as nat) matches Some(rows)
                &&& file@ == file32(
                    joined(sized(rows, sprite())).size,
                    colors_of(
                        joined(sized(rows, sprite())).pixels,
                        entries_of(palette@, SPRITE_TRANSPARENT),
                    ),
                )
            },
            Err(e) => {
                &&& e == DecodeError::TruncatedInput
                &&& palette@.len() < PALETTE_BYTES || raw_tiles(
                    sprites@,
                    sprite().area(),
                    SPRITE_COUNT as nat,
                ) is None
            },
        },
{
    let palette = match Palette::load(palette, SPRITE_TRANSPARENT) {
        Ok(p) => p,
        Err(e) => {
            return Err(e);
        },
    };
    let size = Size::new(SPRITE_WIDTH, SPRITE_HEIGHT);
    assert(size.area() == 160) by (nonlinear_arith)
        requires
            size.width == 10,
            size.height == 16,
            size.area() == (size.width * size.height) as nat,
    ;
    let images = match Image::load_art(sprites, size, SPRITE_COUNT) {
        Ok(images) => images,
        Err(e) => {
            return Err(e);
        },
    };
    proof {
        assert(views(images@) =~= sized(pixels_of(images@), size));
        assert(18 * size.width * size.height == 2880) by (nonlinear_arith)
            requires
                size.width == 10,
                size.height == 16,
        ;
        lemma_equal_tiles_joinable(views(images@), size);
    }
    let joined = match Image::join_horizontal(images.as_slice()) {
        Ok(joined) => joined,
        Err(e) => {
            return Err(e);
        },
    };
    proof {
        assert(joined@.size.area() == 2880) by (nonlinear_arith)
            requires
                joined@.size.width == 180,
                joined@.size.height == 16,
                joined@.size.area() == (joined@.size.width * joined@.size.height) as nat,
        ;
    }
    Ok(joined.save_tga(&palette))
}

} // verus!
