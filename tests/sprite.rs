use png2wasm4src::lookup::convert_sprite_file;
use png2wasm4src::sprite::{compute_palette_mapping, convert_decoded_sprite, extract_palette, quadruple_to_value};
use png2wasm4src::{convert_png_to_rust_variables, Flags, PngToWasm4SrcError};

const BLACK: [u8; 3] = [0, 0, 0];
const DARK: [u8; 3] = [85, 85, 85];
const LIGHT: [u8; 3] = [170, 170, 170];
const WHITE: [u8; 3] = [255, 255, 255];

fn indexed_png(width: u32, height: u32, palette: &[[u8; 3]], indices: &[u8]) -> Vec<u8> {
    let mut raw_palette = Vec::new();
    for color in palette {
        raw_palette.extend_from_slice(color);
    }
    let mut bytes = Vec::new();
    {
        let mut encoder = png::Encoder::new(&mut bytes, width, height);
        encoder.set_color(png::ColorType::Indexed);
        encoder.set_depth(png::BitDepth::Eight);
        encoder.set_palette(raw_palette);
        let mut writer = encoder.write_header().unwrap();
        writer.write_image_data(indices).unwrap();
    }
    bytes
}

fn rgb_png(width: u32, height: u32, pixels: &[u8]) -> Vec<u8> {
    let mut bytes = Vec::new();
    {
        let mut encoder = png::Encoder::new(&mut bytes, width, height);
        encoder.set_color(png::ColorType::Rgb);
        encoder.set_depth(png::BitDepth::Eight);
        let mut writer = encoder.write_header().unwrap();
        writer.write_image_data(pixels).unwrap();
    }
    bytes
}

fn rgba_of(palette: &[[u8; 3]], indices: &[u8]) -> Vec<u8> {
    let mut rgba = Vec::new();
    for index in indices {
        let color = palette[*index as usize];
        rgba.extend_from_slice(&color);
        rgba.push(255);
    }
    rgba
}

fn key(color: [u8; 3]) -> u32 {
    quadruple_to_value(color[0], color[1], color[2], 0)
}

#[test]
fn colour_key_ignores_alpha() {
    assert_eq!(quadruple_to_value(1, 2, 3, 4), 0x01020300);
    assert_eq!(quadruple_to_value(1, 2, 3, 200), 0x01020300);
    assert_eq!(quadruple_to_value(255, 255, 255, 255), 0xffffff00);
}

#[test]
fn palette_mapping_keeps_last_position_of_repeated_colour() {
    let mapping = compute_palette_mapping(&vec![7, 9, 7]);
    assert_eq!(mapping.len(), 2);
    assert_eq!(mapping.get(&7), Some(&2));
    assert_eq!(mapping.get(&9), Some(&1));
}

#[test]
fn four_colour_sprite_packs_two_bits_per_pixel() {
    let indices = [1, 1, 2, 2, 1, 1, 2, 2, 3, 3, 0, 0, 3, 3, 0, 0];
    let bytes = indexed_png(4, 4, &[BLACK, DARK, LIGHT, WHITE], &indices);
    let sprite = convert_png_to_rust_variables("player", &bytes).unwrap();
    assert_eq!(sprite.name(), "player");
    assert_eq!(sprite.width(), 4);
    assert_eq!(sprite.height(), 4);
    assert_eq!(sprite.flags(), Flags::TwoBitsPerPixel);
    assert_eq!(sprite.data(), &[0x5a, 0x5a, 0xf0, 0xf0][..]);
}

#[test]
fn two_colour_sprite_packs_one_bit_per_pixel() {
    let indices = [1, 0, 0, 0, 0, 0, 0, 1, 0, 1, 1, 1, 1, 1, 1, 0];
    let bytes = indexed_png(8, 2, &[BLACK, WHITE], &indices);
    let sprite = convert_png_to_rust_variables("bits", &bytes).unwrap();
    assert_eq!(sprite.flags(), Flags::OneBitPerPixel);
    assert_eq!(sprite.data(), &[0x81, 0x7e][..]);
}

#[test]
fn packed_length_rounds_up() {
    let indices = [0u8; 9];
    let one_bit = indexed_png(3, 3, &[BLACK, WHITE], &indices);
    assert_eq!(convert_png_to_rust_variables("a", &one_bit).unwrap().data().len(), 2);
    let two_bits = indexed_png(3, 3, &[BLACK, DARK, LIGHT, WHITE], &indices);
    assert_eq!(convert_png_to_rust_variables("b", &two_bits).unwrap().data().len(), 3);
    let single = indexed_png(1, 1, &[BLACK, WHITE], &[1]);
    assert_eq!(convert_png_to_rust_variables("c", &single).unwrap().data(), &[0x80][..]);
}

#[test]
fn packing_round_trips_each_pixel() {
    let palette = [BLACK, DARK, LIGHT, WHITE];
    let indices: Vec<u8> = (0..32u32).map(|i| ((i * 7 + i / 5) % 4) as u8).collect();
    let rgba = rgba_of(&palette, &indices);
    let keys: Vec<u32> = palette.iter().map(|c| key(*c)).collect();
    let sprite = convert_decoded_sprite("rt", &keys, 8, 4, &rgba).unwrap();
    for (n, index) in indices.iter().enumerate() {
        let byte = sprite.data()[n / 4];
        let shift = 6 - 2 * (n % 4);
        assert_eq!((byte >> shift) & 3, *index);
    }
}

#[test]
fn odd_width_uses_column_for_bit_position() {
    let indices = [1, 0, 0, 0, 1, 0, 0, 0, 1];
    let rgba = rgba_of(&[BLACK, WHITE], &indices);
    let keys = vec![key(BLACK), key(WHITE)];
    let sprite = convert_decoded_sprite("diag", &keys, 3, 3, &rgba).unwrap();
    assert_eq!(sprite.data(), &[0x00, 0x20][..]);
}

#[test]
fn palette_of_three_colours_is_rejected() {
    let bytes = indexed_png(2, 1, &[BLACK, DARK, WHITE], &[0, 2]);
    match convert_png_to_rust_variables("three", &bytes) {
        Err(PngToWasm4SrcError::InvalidPaletteSize(n)) => assert_eq!(n, 3),
        other => panic!("unexpected result {:?}", other),
    }
    let rgba = rgba_of(&[BLACK, DARK, WHITE], &[0, 2]);
    let keys = vec![key(BLACK), key(DARK), key(WHITE)];
    match convert_decoded_sprite("three", &keys, 2, 1, &rgba) {
        Err(PngToWasm4SrcError::InvalidPaletteSize(n)) => assert_eq!(n, 3),
        other => panic!("unexpected result {:?}", other),
    }
}

#[test]
fn repeated_palette_colour_counts_once() {
    let rgba = rgba_of(&[BLACK, WHITE], &[0, 1]);
    let keys = vec![key(BLACK), key(WHITE), key(BLACK)];
    let sprite = convert_decoded_sprite("dup", &keys, 2, 1, &rgba).unwrap();
    assert_eq!(sprite.flags(), Flags::OneBitPerPixel);
    assert_eq!(sprite.data(), &[0x40][..]);
}

#[test]
fn pixel_outside_palette_is_not_indexed() {
    let rgba = rgba_of(&[BLACK, DARK, WHITE], &[0, 1]);
    let keys = vec![key(BLACK), key(WHITE)];
    assert!(matches!(
        convert_decoded_sprite("odd", &keys, 2, 1, &rgba),
        Err(PngToWasm4SrcError::NotIndexedPng)
    ));
}

#[test]
fn bytes_that_are_not_png_fail_decoding() {
    assert!(matches!(
        convert_png_to_rust_variables("junk", b"definitely not a png"),
        Err(PngToWasm4SrcError::PngDecoding(_))
    ));
}

#[test]
fn image_without_palette_is_not_indexed() {
    let bytes = rgb_png(1, 1, &[10, 20, 30]);
    assert!(matches!(extract_palette(&bytes), Err(PngToWasm4SrcError::NotIndexedPng)));
    assert!(matches!(
        convert_png_to_rust_variables("rgb", &bytes),
        Err(PngToWasm4SrcError::NotIndexedPng)
    ));
}

#[test]
fn palette_is_read_in_order() {
    let bytes = indexed_png(1, 1, &[WHITE, BLACK], &[0]);
    assert_eq!(extract_palette(&bytes).unwrap(), vec![0xffffff00, 0x00000000]);
}

#[test]
fn truncated_pixel_data_fails_image_decoding() {
    let indices = [0u8; 64];
    let bytes = indexed_png(8, 8, &[BLACK, WHITE], &indices);
    let truncated = &bytes[..bytes.len() - 20];
    assert!(matches!(
        convert_png_to_rust_variables("cut", truncated),
        Err(PngToWasm4SrcError::Image(_))
    ));
}

#[test]
fn sprite_file_is_named_after_its_stem() {
    let bytes = indexed_png(1, 1, &[BLACK, WHITE], &[1]);
    let sprite = convert_sprite_file(&"some/dir/hero-2.png".to_string(), &bytes).unwrap();
    assert_eq!(sprite.name(), "hero-2");
    assert_eq!(
        sprite.to_string(),
        "const HERO_2_WIDTH: u32 = 1;
const HERO_2_HEIGHT: u32 = 1;
const HERO_2_FLAGS: u32 = 0; // BLIT_1BPP
const HERO_2: [u8; 1] = [0x80];\n"
    );
}

#[test]
fn path_without_stem_is_an_error() {
    let bytes = indexed_png(1, 1, &[BLACK, WHITE], &[1]);
    assert!(matches!(
        convert_sprite_file(&"/".to_string(), &bytes),
        Err(PngToWasm4SrcError::FileWithoutStem)
    ));
}
