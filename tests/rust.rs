use png2wasm4src::{Flags, RustVariables};

#[test]
fn to_string() {
    let rust_variables = RustVariables::new(
        "some_name".to_string(),
        10,
        12,
        Flags::OneBitPerPixel,
        vec![0x01, 0x02, 0x04, 0x1f],
    );
    let rust_code = rust_variables.to_string();

    let expected = "const SOME_NAME_WIDTH: u32 = 10;
const SOME_NAME_HEIGHT: u32 = 12;
const SOME_NAME_FLAGS: u32 = 0; // BLIT_1BPP
const SOME_NAME: [u8; 4] = [0x01, 0x02, 0x04, 0x1f];\n";

    assert_eq!(rust_code, expected);
}

#[test]
fn to_string_two_bits_per_pixel() {
    let rust_variables = RustVariables::new(
        "some_name".to_string(),
        10,
        12,
        Flags::TwoBitsPerPixel,
        vec![0x01, 0x02, 0x04, 0x1f],
    );
    let rust_code = rust_variables.to_string();

    let expected = "const SOME_NAME_WIDTH: u32 = 10;
const SOME_NAME_HEIGHT: u32 = 12;
const SOME_NAME_FLAGS: u32 = 1; // BLIT_2BPP
const SOME_NAME: [u8; 4] = [0x01, 0x02, 0x04, 0x1f];\n";

    assert_eq!(rust_code, expected);
}

#[test]
fn format() {
    let rust_variables = RustVariables::new(
        "some_name".to_string(),
        10,
        12,
        Flags::OneBitPerPixel,
        vec![0x01, 0x02, 0x04, 0x1f],
    );
    let rust_code = rust_variables.format(false);

    let expected = "const SOME_NAME_WIDTH: u32 = 10;
const SOME_NAME_HEIGHT: u32 = 12;
const SOME_NAME_FLAGS: u32 = 0; // BLIT_1BPP
const SOME_NAME: [u8; 4] = [0x01, 0x02, 0x04, 0x1f];\n";

    assert_eq!(rust_code, expected);
}

#[test]
fn format_alternate() {
    let rust_variables = RustVariables::new(
        "some_name".to_string(),
        10,
        12,
        Flags::OneBitPerPixel,
        vec![0x01, 0x02, 0x04, 0x1f],
    );
    let rust_code = rust_variables.format(true);

    let expected = "const SOME_NAME_WIDTH: u32 = 10;
const SOME_NAME_HEIGHT: u32 = 12;
const SOME_NAME_FLAGS: u32 = 0; // BLIT_1BPP
const SOME_NAME: [u8; 4] = [0b00000001, 0b00000010, 0b00000100, 0b00011111];\n";

    assert_eq!(rust_code, expected);
}

#[test]
fn format_every_bit_pattern() {
    let variables = RustVariables::new(
        "name".to_string(),
        16,
        24,
        Flags::OneBitPerPixel,
        vec![0x00, 0x01, 0x02, 0x04, 0x08, 0x10, 0x20, 0x40, 0x80, 0xff],
    );
    assert_eq!(
        variables.format(false),
        "const NAME_WIDTH: u32 = 16;
const NAME_HEIGHT: u32 = 24;
const NAME_FLAGS: u32 = 0; // BLIT_1BPP
const NAME: [u8; 10] = [0x00, 0x01, 0x02, 0x04, 0x08, 0x10, 0x20, 0x40, 0x80, 0xff];\n",
    );
    assert_eq!(
        variables.format(true),
        "const NAME_WIDTH: u32 = 16;
const NAME_HEIGHT: u32 = 24;
const NAME_FLAGS: u32 = 0; // BLIT_1BPP
const NAME: [u8; 10] = [0b00000000, 0b00000001, 0b00000010, 0b00000100, 0b00001000, 0b00010000, 0b00100000, 0b01000000, 0b10000000, 0b11111111];\n",
    );
}

#[test]
fn format_empty_data_and_large_numbers() {
    let variables = RustVariables::new("x".to_string(), 4294967295, 0, Flags::TwoBitsPerPixel, vec![]);
    assert_eq!(
        variables.to_string(),
        "const X_WIDTH: u32 = 4294967295;
const X_HEIGHT: u32 = 0;
const X_FLAGS: u32 = 1; // BLIT_2BPP
const X: [u8; 0] = [];\n",
    );
}

#[test]
fn accessors_return_fields() {
    let variables = RustVariables::new("a-b".to_string(), 3, 5, Flags::TwoBitsPerPixel, vec![7, 9]);
    assert_eq!(variables.name(), "a-b");
    assert_eq!(variables.width(), 3);
    assert_eq!(variables.height(), 5);
    assert_eq!(variables.flags(), Flags::TwoBitsPerPixel);
    assert_eq!(variables.data(), &[7u8, 9u8][..]);
}

#[test]
fn flag_values() {
    assert_eq!(Flags::OneBitPerPixel.value(), 0);
    assert_eq!(Flags::TwoBitsPerPixel.value(), 1);
    assert_eq!(Flags::OneBitPerPixel.human_readable_value(), "BLIT_1BPP");
    assert_eq!(Flags::TwoBitsPerPixel.human_readable_value(), "BLIT_2BPP");
}
