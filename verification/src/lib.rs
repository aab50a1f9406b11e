//! Asset pipeline and collision queries of a 2D side-scrolling platformer.
//!
//! The crate decodes palette-indexed sprite sheets, stitches tiles into
//! level-sized images, encodes them as uncompressed true-colour images,
//! derives the run-length-encoded hit map of a level and answers the
//! collision queries that drive the player's movement.
//!
//! - [`palette`]: colours and the 256-entry palette table.
//! - [`rle`]: the model of the run-length code and its laws.
//! - [`image`]: palette-indexed images and the two sprite-sheet decoders.
//! - [`compositor`]: the model of joining tiles side by side and its laws.
//! - [`tga`]: the encoder of the image file format.
//! - [`truecolor`]: images that hold a colour per pixel.
//! - [`hit_map`]: the hit map, its run-length form and its queries.
//! - [`player`]: the player's movement through a hit map.
//! - [`session`]: a level in play, advanced step by step.
//! - [`convert`]: the conversions from level files and sprite sheets.
//! - [`error`]: the errors of all of these.

pub mod compositor;
pub mod convert;
pub mod error;
pub mod hit_map;
pub mod image;
pub mod palette;
pub mod player;
pub mod rle;
pub mod session;
pub mod tga;
pub mod truecolor;
