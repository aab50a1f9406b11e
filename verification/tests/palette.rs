use the_mouse::error::DecodeError;
use the_mouse::palette::{Palette, Rgb, Rgba, PALETTE_BYTES, PALETTE_SIZE};

fn palette_bytes() -> Vec<u8> {
    (0..768usize).map(|k| (k * 7 % 251) as u8).collect()
}

#[test]
fn palette_sizes() {
    assert_eq!(PALETTE_SIZE, 256);
    assert_eq!(PALETTE_BYTES, 768);
}

#[test]
fn palette_load_reads_rgb_triples() {
    let bytes = palette_bytes();
    let palette = Palette::load(&bytes, 255).unwrap();
    for index in 0..=255u8 {
        let at = 3 * index as usize;
        let color = palette.get(index);
        assert_eq!((color.r, color.g, color.b), (bytes[at], bytes[at + 1], bytes[at + 2]));
    }
    assert_eq!(palette.get(1), Rgba { r: 21, g: 28, b: 35, a: 255 });
}

#[test]
fn palette_alpha_is_zero_only_for_the_transparent_index() {
    for &transparent in &[0u8, 7, 255] {
        let palette = Palette::load(&palette_bytes(), transparent).unwrap();
        assert_eq!(palette.transparent_index(), transparent);
        for index in 0..=255u8 {
            let expected = if index == transparent { 0 } else { 255 };
            assert_eq!(palette.get(index).a, expected, "index {}", index);
        }
    }
}

#[test]
fn palette_load_of_a_short_resource_is_truncated() {
    let bytes = palette_bytes();
    assert_eq!(Palette::load(&bytes[..767], 0).err(), Some(DecodeError::TruncatedInput));
    assert_eq!(Palette::load(&[], 0).err(), Some(DecodeError::TruncatedInput));
    assert!(Palette::load(&bytes[..768], 0).is_ok());
}

#[test]
fn palette_load_ignores_bytes_past_the_table() {
    let mut bytes = palette_bytes();
    bytes.extend_from_slice(&[9, 9, 9, 9]);
    let palette = Palette::load(&bytes, 3).unwrap();
    assert_eq!(palette.get(255), Rgba { r: bytes[765], g: bytes[766], b: bytes[767], a: 255 });
}

#[test]
fn rgb_set_overwrites_all_channels() {
    let mut color = Rgb::black();
    assert_eq!(color, Rgb { r: 0, g: 0, b: 0 });
    color.set(1, 2, 3);
    assert_eq!(color, Rgb { r: 1, g: 2, b: 3 });
}

#[test]
fn rgba_rgb_drops_alpha() {
    assert_eq!(Rgba { r: 4, g: 5, b: 6, a: 0 }.rgb(), Rgb { r: 4, g: 5, b: 6 });
}

#[test]
fn error_messages_differ() {
    assert!(!DecodeError::TruncatedInput.message().is_empty());
    assert_ne!(DecodeError::TruncatedInput.message(), DecodeError::InvalidInput.message());
}

#[test]
fn palette_clone_keeps_every_entry() {
    let palette = Palette::load(&palette_bytes(), 9).unwrap();
    let copy = palette.clone();
    assert_eq!(copy.transparent_index(), 9);
    for index in 0..=255u8 {
        assert_eq!(copy.get(index), palette.get(index));
    }
}
