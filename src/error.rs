//! Errors of the conversion from PNG sprites to Rust source code.
use vstd::prelude::*;

verus! {

#[verifier::external_type_specification]
#[verifier::external_body]
pub struct ExIoError(std::io::Error);

#[verifier::external_type_specification]
#[verifier::external_body]
pub struct ExFmtError(std::fmt::Error);

#[verifier::external_type_specification]
#[verifier::external_body]
pub struct ExDecodingError(png::DecodingError);

#[verifier::external_type_specification]
#[verifier::external_body]
pub struct ExImageError(image::ImageError);

/// Error occurred when converting from PNG to Rust source code.
#[derive(Debug)]
pub enum PngToWasm4SrcError {
    /// An IO error occurred
    IoError(std::io::Error),
    /// Could not format text
    FmtError(std::fmt::Error),
    /// The input image is not encoded in PNG format
    PngDecoding(png::DecodingError),
    /// The image processing failed
    Image(image::ImageError),
    /// The input PNG image is not indexed
    NotIndexedPng,
    /// The input indexed PNG image has a palette of invalid size (only 2 or 4
    /// colours are supported)
    InvalidPaletteSize(usize),
    /// A file does not have a stem (the part of its name before the extension)
    FileWithoutStem,
    /// A file or directory path is not valid UTF-8
    NonUtf8Path,
}

} // verus!
