//! Converts indexed-palette PNG sprites into packed 1- or 2-bit-per-pixel data
//! and renders them, grouped in a module tree that mirrors a directory of
//! sprites, as Rust constant declarations.
pub mod error;
pub mod flags;
pub mod lookup;
pub mod order;
pub mod rust;
pub mod sanitization;
pub mod sprite;
pub mod text;

pub use error::PngToWasm4SrcError;
pub use flags::Flags;
pub use lookup::{Module, ParsedModule};
pub use rust::RustVariables;
pub use sanitization::sanitize_variable_name;
pub use sprite::convert_png_to_rust_variables;
