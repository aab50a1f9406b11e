use the_mouse::error::DecodeError;
use the_mouse::image::{Image, Size};

fn image_of(width: u32, height: u32, index: &[u8]) -> Image {
    Image::new(Size::new(width, height), index.to_vec()).unwrap()
}

#[test]
fn size_count_is_width_times_height() {
    let size = Size::new(320, 192);
    assert_eq!(size.width, 320);
    assert_eq!(size.height, 192);
    assert_eq!(size.count(), 61440);
    assert_eq!(size.checked_count(), Some(61440));
    assert_eq!(Size::new(0, 7).count(), 0);
    assert_eq!(Size::new(65536, 65536).checked_count(), Some(4294967296));
}

#[test]
fn image_new_wants_one_index_per_pixel() {
    let image = image_of(3, 2, &[1, 2, 3, 4, 5, 6]);
    assert_eq!(image.size(), Size::new(3, 2));
    assert_eq!(image.index(), &[1, 2, 3, 4, 5, 6]);
    assert_eq!(Image::new(Size::new(3, 2), vec![1, 2, 3]).err(), Some(DecodeError::InvalidInput));
    assert_eq!(Image::new(Size::new(1, 1), vec![]).err(), Some(DecodeError::InvalidInput));
    assert!(Image::new(Size::new(0, 5), vec![]).is_ok());
}

#[test]
fn load_ob5_expands_pairs_into_tiles() {
    let bytes = [3, 7, 1, 9, 2, 5, 2, 6];
    let images = Image::load_ob5(&bytes, Size::new(2, 2), 2).unwrap();
    assert_eq!(images.len(), 2);
    assert_eq!(images[0].index(), &[7, 7, 7, 9]);
    assert_eq!(images[1].index(), &[5, 5, 6, 6]);
    assert_eq!(images[0].size(), Size::new(2, 2));
    assert_eq!(images[1].size(), Size::new(2, 2));
}

#[test]
fn load_ob5_cuts_a_run_at_the_end_of_a_tile() {
    // The run of six crosses the end of the first tile: two of its pixels
    // are dropped, and the second tile starts with the next pair.
    let bytes = [6, 7, 4, 8];
    let images = Image::load_ob5(&bytes, Size::new(2, 2), 2).unwrap();
    assert_eq!(images[0].index(), &[7, 7, 7, 7]);
    assert_eq!(images[1].index(), &[8, 8, 8, 8]);
}

#[test]
fn load_ob5_skips_empty_runs() {
    let bytes = [0, 1, 2, 3, 0, 4, 2, 5];
    let images = Image::load_ob5(&bytes, Size::new(4, 1), 1).unwrap();
    assert_eq!(images[0].index(), &[3, 3, 5, 5]);
}

#[test]
fn load_ob5_reads_full_runs() {
    let bytes = [255, 1, 255, 2, 2, 3];
    let images = Image::load_ob5(&bytes, Size::new(512, 1), 1).unwrap();
    let index = images[0].index();
    assert!(index[..255].iter().all(|&p| p == 1));
    assert!(index[255..510].iter().all(|&p| p == 2));
    assert_eq!(&index[510..], &[3, 3]);
}

#[test]
fn load_ob5_ignores_bytes_after_the_last_tile() {
    let bytes = [4, 7, 1, 2, 3];
    let images = Image::load_ob5(&bytes, Size::new(2, 2), 1).unwrap();
    assert_eq!(images.len(), 1);
    assert_eq!(images[0].index(), &[7, 7, 7, 7]);
}

#[test]
fn load_ob5_of_a_short_stream_is_truncated() {
    let size = Size::new(2, 2);
    assert_eq!(Image::load_ob5(&[3, 7], size, 1).err(), Some(DecodeError::TruncatedInput));
    assert_eq!(Image::load_ob5(&[3, 7, 1], size, 1).err(), Some(DecodeError::TruncatedInput));
    assert_eq!(Image::load_ob5(&[], size, 1).err(), Some(DecodeError::TruncatedInput));
    assert_eq!(Image::load_ob5(&[4, 7], size, 2).err(), Some(DecodeError::TruncatedInput));
    assert_eq!(Image::load_ob5(&[4, 7, 3, 1], size, 2).err(), Some(DecodeError::TruncatedInput));
}

#[test]
fn load_ob5_of_no_tiles_reads_nothing() {
    assert_eq!(Image::load_ob5(&[], Size::new(2, 2), 0).unwrap().len(), 0);
    assert_eq!(Image::load_ob5(&[1], Size::new(2, 2), 0).unwrap().len(), 0);
}

#[test]
fn load_ob5_of_empty_tiles_reads_nothing() {
    let images = Image::load_ob5(&[], Size::new(0, 4), 3).unwrap();
    assert_eq!(images.len(), 3);
    assert!(images.iter().all(|image| image.index().is_empty()));
}

#[test]
fn load_art_reads_one_byte_per_pixel() {
    let bytes = [1, 2, 3, 4, 5, 6, 7, 8];
    let images = Image::load_art(&bytes, Size::new(2, 2), 2).unwrap();
    assert_eq!(images.len(), 2);
    assert_eq!(images[0].index(), &[1, 2, 3, 4]);
    assert_eq!(images[1].index(), &[5, 6, 7, 8]);
    assert_eq!(images[1].size(), Size::new(2, 2));
}

#[test]
fn load_art_ignores_bytes_after_the_last_tile() {
    let images = Image::load_art(&[1, 2, 3, 4, 5], Size::new(2, 2), 1).unwrap();
    assert_eq!(images.len(), 1);
    assert_eq!(images[0].index(), &[1, 2, 3, 4]);
}

#[test]
fn load_art_of_a_short_stream_is_truncated() {
    let size = Size::new(2, 2);
    assert_eq!(Image::load_art(&[1, 2, 3], size, 1).err(), Some(DecodeError::TruncatedInput));
    assert_eq!(
        Image::load_art(&[1, 2, 3, 4, 5, 6, 7], size, 2).err(),
        Some(DecodeError::TruncatedInput)
    );
    assert_eq!(Image::load_art(&[], size, 1).err(), Some(DecodeError::TruncatedInput));
    assert!(Image::load_art(&[], size, 0).unwrap().is_empty());
}

#[test]
fn join_horizontal_places_the_first_tile_rightmost() {
    let a = image_of(2, 2, &[1, 2, 3, 4]);
    let b = image_of(2, 2, &[5, 6, 7, 8]);
    let c = image_of(2, 2, &[9, 10, 11, 12]);
    let joined = Image::join_horizontal(&[a, b, c]).unwrap();
    assert_eq!(joined.size(), Size::new(6, 2));
    assert_eq!(joined.index(), &[9, 10, 5, 6, 1, 2, 11, 12, 7, 8, 3, 4]);
}

#[test]
fn join_horizontal_adds_up_different_widths() {
    let a = image_of(1, 2, &[1, 2]);
    let b = image_of(3, 2, &[3, 4, 5, 6, 7, 8]);
    let c = image_of(2, 2, &[9, 10, 11, 12]);
    let joined = Image::join_horizontal(&[a, b, c]).unwrap();
    assert_eq!(joined.size(), Size::new(6, 2));
    assert_eq!(joined.index(), &[9, 10, 3, 4, 5, 1, 11, 12, 6, 7, 8, 2]);
}

#[test]
fn join_horizontal_holds_every_source_pixel_once() {
    let widths = [3u32, 1, 4, 2];
    let height = 3u32;
    let mut tiles = Vec::new();
    let mut next = 0u8;
    for &width in &widths {
        let mut index = Vec::new();
        for _ in 0..width * height {
            index.push(next);
            next += 1;
        }
        tiles.push(Image::new(Size::new(width, height), index).unwrap());
    }
    let joined = Image::join_horizontal(&tiles).unwrap();
    assert_eq!(joined.size().width, 10);
    assert_eq!(joined.size().height, 3);
    let mut seen = joined.index().to_vec();
    seen.sort();
    let all: Vec<u8> = (0..30u8).collect();
    assert_eq!(seen, all);
    // tile `i` starts at the column after the tiles that follow it
    let starts = [7usize, 6, 2, 0];
    for (i, tile) in tiles.iter().enumerate() {
        let width = widths[i] as usize;
        for row in 0..height as usize {
            for col in 0..width {
                assert_eq!(
                    joined.index()[row * 10 + starts[i] + col],
                    tile.index()[row * width + col]
                );
            }
        }
    }
}

#[test]
fn join_horizontal_of_one_tile_is_that_tile() {
    let joined = Image::join_horizontal(&[image_of(2, 2, &[1, 2, 3, 4])]).unwrap();
    assert_eq!(joined.size(), Size::new(2, 2));
    assert_eq!(joined.index(), &[1, 2, 3, 4]);
}

#[test]
fn join_horizontal_of_nothing_is_invalid_input() {
    assert_eq!(Image::join_horizontal(&[]).err(), Some(DecodeError::InvalidInput));
}

#[test]
fn join_horizontal_of_different_heights_is_invalid_input() {
    let a = image_of(2, 2, &[1, 2, 3, 4]);
    let b = image_of(2, 1, &[5, 6]);
    assert_eq!(
        Image::join_horizontal(&[a.clone(), b.clone()]).err(),
        Some(DecodeError::InvalidInput)
    );
    assert_eq!(Image::join_horizontal(&[b, a]).err(), Some(DecodeError::InvalidInput));
}

#[test]
fn join_horizontal_of_too_wide_tiles_is_invalid_input() {
    let wide = Image::new(Size::new(u32::MAX, 0), Vec::new()).unwrap();
    assert_eq!(
        Image::join_horizontal(&[wide.clone(), wide]).err(),
        Some(DecodeError::InvalidInput)
    );
}

#[test]
fn join_horizontal_of_tiles_without_rows_is_empty() {
    let a = Image::new(Size::new(3, 0), Vec::new()).unwrap();
    let b = Image::new(Size::new(4, 0), Vec::new()).unwrap();
    let joined = Image::join_horizontal(&[a, b]).unwrap();
    assert_eq!(joined.size(), Size::new(7, 0));
    assert!(joined.index().is_empty());
}

#[test]
fn image_clone_keeps_size_and_pixels() {
    let image = image_of(3, 2, &[1, 2, 3, 4, 5, 6]);
    let copy = image.clone();
    assert_eq!(copy.size(), image.size());
    assert_eq!(copy.index(), image.index());
}
