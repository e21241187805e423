//! Converting an indexed PNG image to a sprite record: palette extraction,
//! palette lookup and packing of the pixels at one or two bits per pixel.
use vstd::prelude::*;
use std::collections::HashMap;
use crate::error::PngToWasm4SrcError;
use crate::flags::Flags;
use crate::rust::RustVariables;

verus! {

broadcast use vstd::std_specs::hash::group_hash_axioms;

/// What PNG decoding reads from the header of `bytes`: `None` if it cannot be
/// read, else the raw palette (three bytes per colour) if the image has one.
pub uninterp spec fn png_header_palette(bytes: Seq<u8>) -> Option<Option<Seq<u8>>>;

/// What decoding `bytes` as a PNG image and converting it to 8-bit RGBA gives:
/// `None` on failure, else width, height and the pixels' bytes row by row.
pub uninterp spec fn png_rgba(bytes: Seq<u8>) -> Option<(u32, u32, Seq<u8>)>;

pub open spec fn palette_outcome(r: Result<Option<Vec<u8>>, png::DecodingError>) -> Option<Option<Seq<u8>>> {
    match r {
        Ok(Some(p)) => Some(Some(p@)),
        Ok(None) => Some(None),
        Err(_) => None,
    }
}

pub open spec fn rgba_outcome(r: Result<(u32, u32, Vec<u8>), image::ImageError>) -> Option<(u32, u32, Seq<u8>)> {
    match r {
        Ok((w, h, d)) => Some((w, h, d@)),
        Err(_) => None,
    }
}

/// Relies on `png::Decoder::read_info` and `png::Info::palette`: reads the
/// header chunks of a PNG stream and hands out the raw PLTE palette, if any.
#[verifier::external_body]
fn read_png_palette(bytes: &[u8]) -> (r: Result<Option<Vec<u8>>, png::DecodingError>)
    ensures
        palette_outcome(r) == png_header_palette(bytes@),
{
    let reader = png::Decoder::new(bytes).read_info()?;
    Ok(reader.info().palette.as_ref().map(|p| p.to_vec()))
}

/// Relies on `image::io::Reader::decode` with the PNG format and on
/// `DynamicImage::into_rgba8`: the result holds at least four bytes for each
/// of the width times height pixels.
#[verifier::external_body]
fn read_rgba_image(bytes: &[u8]) -> (r: Result<(u32, u32, Vec<u8>), image::ImageError>)
    ensures
        rgba_outcome(r) == png_rgba(bytes@),
        r matches Ok((w, h, d)) ==> 4 * (w * h) <= d@.len(),
{
    let mut reader = image::io::Reader::new(std::io::Cursor::new(bytes));
    reader.set_format(image::ImageFormat::Png);
    let image = reader.decode()?.into_rgba8();
    Ok((image.width(), image.height(), image.into_raw()))
}

/// The 32-bit key of a colour: red, green and blue in the three high bytes,
/// the low byte (alpha) zero.
pub open spec fn color_key(r: u8, g: u8, b: u8) -> u32 {
    ((r as u32) << 24u32) | ((g as u32) << 16u32) | ((b as u32) << 8u32)
}

/// Colour keys of a raw palette, one per complete triple of bytes.
pub open spec fn palette_colors(raw: Seq<u8>) -> Seq<u32> {
    Seq::new(raw.len() / 3, |i: int| color_key(raw[3 * i], raw[3 * i + 1], raw[3 * i + 2]))
}

/// Maps each colour of `palette` to its position; a colour listed twice maps
/// to its last position.
pub open spec fn palette_mapping(palette: Seq<u32>) -> Map<u32, usize>
    decreases palette.len(),
{
    if palette.len() == 0 {
        Map::empty()
    } else {
        palette_mapping(palette.drop_last()).insert(palette.last(), (palette.len() - 1) as usize)
    }
}

/// Combines colour channels into a colour key; alpha is ignored.
pub fn quadruple_to_value(r: u8, g: u8, b: u8, _a: u8) -> (v: u32)
    ensures
        v == color_key(r, g, b),
{
    ((r as u32) << 24u32) | ((g as u32) << 16u32) | ((b as u32) << 8u32)
}

/// The colour keys of a raw palette.
fn palette_values(raw: &Vec<u8>) -> (r: Vec<u32>)
    ensures
        r@ == palette_colors(raw@),
{
    let len = raw.len();
    let count = len / 3;
    let mut r: Vec<u32> = Vec::new();
    let mut i: usize = 0;
    while i < count
        invariant
            count == raw@.len() / 3,
            len == raw@.len(),
            i <= count,
            r@ == palette_colors(raw@).subrange(0, i as int),
        decreases count - i,
    {
        proof {
            vstd::arithmetic::div_mod::lemma_fundamental_div_mod(raw@.len() as int, 3);
            vstd::arithmetic::div_mod::lemma_mod_bound(raw@.len() as int, 3);
            assert(3 * count <= raw@.len());
            assert(3 * i + 3 <= raw@.len());
        }
        let v = quadruple_to_value(raw[3 * i], raw[3 * i + 1], raw[3 * i + 2], 0);
        r.push(v);
        assert(r@ =~= palette_colors(raw@).subrange(0, i + 1));
        i = i + 1;
    }
    assert(r@ =~= palette_colors(raw@));
    r
}

/// Maps each palette colour to its index in the palette.
pub fn compute_palette_mapping(palette: &Vec<u32>) -> (m: HashMap<u32, usize>)
    ensures
        m@ == palette_mapping(palette@),
{
    let mut m: HashMap<u32, usize> = HashMap::new();
    let mut i: usize = 0;
    while i < palette.len()
        invariant
            i <= palette@.len(),
            m@ == palette_mapping(palette@.subrange(0, i as int)),
        decreases palette.len() - i,
    {
        m.insert(palette[i], i);
        let ghost next = palette@.subrange(0, i + 1);
        assert(next.drop_last() =~= palette@.subrange(0, i as int));
        i = i + 1;
    }
    assert(palette@.subrange(0, palette@.len() as int) =~= palette@);
    m
}

/// Number of pixels that share one byte.
pub open spec fn pixels_per_byte(two_bits: bool) -> nat {
    if two_bits {
        4
    } else {
        8
    }
}

/// Index of the byte that holds pixel `n` (pixels counted row by row).
pub open spec fn pixel_byte(n: nat, two_bits: bool) -> int {
    (n / pixels_per_byte(two_bits)) as int
}

/// Left shift of pixel `n` within its byte, taken from its column in an image
/// `width` pixels wide: the leftmost column of a group goes to the high bits.
pub open spec fn pixel_shift(n: nat, width: nat, two_bits: bool) -> u8 {
    let x = n % width;
    if two_bits {
        (6 - 2 * (x % 4)) as u8
    } else {
        (7 - x % 8) as u8
    }
}

/// The bits of a byte that a pixel at `shift` occupies.
pub open spec fn pixel_mask(shift: u8, two_bits: bool) -> u8 {
    if two_bits {
        3u8 << shift
    } else {
        1u8 << shift
    }
}

/// Colour key of pixel `n` of 8-bit RGBA data.
pub open spec fn pixel_color(rgba: Seq<u8>, n: int) -> u32 {
    color_key(rgba[4 * n], rgba[4 * n + 1], rgba[4 * n + 2])
}

/// Palette index of pixel `n`, as a byte.
pub open spec fn pixel_index(rgba: Seq<u8>, mapping: Map<u32, usize>, n: int) -> u8 {
    mapping[pixel_color(rgba, n)] as u8
}

/// Every one of the first `count` pixels has its colour in the mapping.
pub open spec fn colors_known(rgba: Seq<u8>, mapping: Map<u32, usize>, count: nat) -> bool {
    forall|n: int| 0 <= n < count ==> mapping.contains_key(#[trigger] pixel_color(rgba, n))
}

/// The bytes after writing the first `count` pixels, one after the other:
/// each write appends a zero byte when its byte is not there yet, then
/// replaces the pixel's bits of that byte with its palette index.
pub open spec fn packed(rgba: Seq<u8>, mapping: Map<u32, usize>, width: nat, two_bits: bool, count: nat) -> Seq<u8>
    decreases count,
{
    if count == 0 {
        seq![]
    } else {
        let n = (count - 1) as nat;
        let prev = packed(rgba, mapping, width, two_bits, n);
        let byte = pixel_byte(n, two_bits);
        let shift = pixel_shift(n, width, two_bits);
        let grown = if prev.len() <= byte {
            prev.push(0u8)
        } else {
            prev
        };
        grown.update(byte, (pixel_index(rgba, mapping, n as int) << shift) | (grown[byte] & !pixel_mask(shift, two_bits)))
    }
}

/// Packing `count` pixels takes `count` divided by the pixels per byte,
/// rounded up, bytes.
pub proof fn lemma_packed_len(rgba: Seq<u8>, mapping: Map<u32, usize>, width: nat, two_bits: bool, count: nat)
    ensures
        packed(rgba, mapping, width, two_bits, count).len() == (count + pixels_per_byte(two_bits) - 1) as nat
            / pixels_per_byte(two_bits),
    decreases count,
{
    if count > 0 {
        lemma_packed_len(rgba, mapping, width, two_bits, (count - 1) as nat);
    }
}

/// Packs the pixels of a `width` by `height` RGBA image by their palette
/// indices, two bits per pixel if `two_bits` is set, else one; `None` if a
/// pixel's colour is not in the palette.
fn encode_image(width: u32, height: u32, rgba: &Vec<u8>, palette: &HashMap<u32, usize>, two_bits: bool) -> (r: Option<Vec<u8>>)
    requires
        4 * (width * height) <= rgba@.len(),
    ensures
        r is Some <==> colors_known(rgba@, palette@, (width * height) as nat),
        r matches Some(v) ==> v@ == packed(rgba@, palette@, width as nat, two_bits, (width * height) as nat),
{
    let len = rgba.len();
    let total: usize = width as usize * height as usize;
    let mut bytes: Vec<u8> = Vec::new();
    let mut n: usize = 0;
    let mut x: u32 = 0;
    let ghost mut y: int = 0;
    while n < total
        invariant
            len == rgba@.len(),
            total == width * height,
            4 * total <= len,
            n <= total,
            n < total ==> width > 0,
            width > 0 ==> x < width && n == y * width + x,
            bytes@ == packed(rgba@, palette@, width as nat, two_bits, n as nat),
            colors_known(rgba@, palette@, n as nat),
        decreases total - n,
    {
        let color = quadruple_to_value(rgba[4 * n], rgba[4 * n + 1], rgba[4 * n + 2], rgba[4 * n + 3]);
        let index = match palette.get(&color) {
            Some(i) => *i,
            None => {
                assert(!palette@.contains_key(pixel_color(rgba@, n as int)));
                return None;
            },
        };
        proof {
            vstd::arithmetic::div_mod::lemma_fundamental_div_mod_converse_mod(n as int, width as int, y, x as int);
            lemma_packed_len(rgba@, palette@, width as nat, two_bits, n as nat);
            vstd::arithmetic::div_mod::lemma_div_is_ordered(n as int, n + 3, 4);
            vstd::arithmetic::div_mod::lemma_div_is_ordered(n as int, n + 7, 8);
        }
        let byte: usize;
        let shift: u8;
        let mask: u8;
        if two_bits {
            byte = n / 4;
            shift = 6 - 2 * ((x % 4) as u8);
            mask = 3u8 << shift;
        } else {
            byte = n / 8;
            shift = 7 - ((x % 8) as u8);
            mask = 1u8 << shift;
        }
        if bytes.len() <= byte {
            bytes.push(0);
        }
        let value = ((index as u8) << shift) | (bytes[byte] & !mask);
        bytes.set(byte, value);
        n = n + 1;
        x = x + 1;
        if x == width {
            x = 0;
            proof {
                y = y + 1;
                assert(n == y * width + x) by (nonlinear_arith)
                    requires
                        n == (y - 1) * width + width,
                        x == 0,
                ;
            }
        }
    }
    Some(bytes)
}

/// Packs the image at one bit per pixel.
fn encode_1bpp_image(width: u32, height: u32, rgba: &Vec<u8>, palette: &HashMap<u32, usize>) -> (r: Option<Vec<u8>>)
    requires
        4 * (width * height) <= rgba@.len(),
    ensures
        r is Some <==> colors_known(rgba@, palette@, (width * height) as nat),
        r matches Some(v) ==> v@ == packed(rgba@, palette@, width as nat, false, (width * height) as nat),
{
    encode_image(width, height, rgba, palette, false)
}

/// Packs the image at two bits per pixel.
fn encode_2bpp_image(width: u32, height: u32, rgba: &Vec<u8>, palette: &HashMap<u32, usize>) -> (r: Option<Vec<u8>>)
    requires
        4 * (width * height) <= rgba@.len(),
    ensures
        r is Some <==> colors_known(rgba@, palette@, (width * height) as nat),
        r matches Some(v) ==> v@ == packed(rgba@, palette@, width as nat, true, (width * height) as nat),
{
    encode_image(width, height, rgba, palette, true)
}

/// The outcome of making the sprite `name` from its palette and its decoded
/// `width` by `height` RGBA pixels: an invalid palette size (counting distinct
/// colours), then a pixel whose colour is not in the palette, are errors; else
/// the record holds the image packed at one bit per pixel for two colours and
/// at two bits for four.
pub open spec fn decoded_outcome(
    name: Seq<char>,
    palette: Seq<u32>,
    width: u32,
    height: u32,
    rgba: Seq<u8>,
    r: Result<RustVariables, PngToWasm4SrcError>,
) -> bool {
    let mapping = palette_mapping(palette);
    let k = mapping.len();
    if k != 2 && k != 4 {
        r matches Err(PngToWasm4SrcError::InvalidPaletteSize(n)) && n == k
    } else if !colors_known(rgba, mapping, (width * height) as nat) {
        r matches Err(PngToWasm4SrcError::NotIndexedPng)
    } else {
        &&& r matches Ok(v)
        &&& v.spec_name() == name
        &&& v.spec_width() == width
        &&& v.spec_height() == height
        &&& v.spec_flags() == if k == 2 {
            Flags::OneBitPerPixel
        } else {
            Flags::TwoBitsPerPixel
        }
        &&& v.spec_data() == packed(rgba, mapping, width as nat, k == 4, (width * height) as nat)
    }
}

/// Makes the sprite `name` from its palette colours and its decoded pixels.
pub fn convert_decoded_sprite(name: &str, palette: &Vec<u32>, width: u32, height: u32, rgba: &Vec<u8>) -> (r: Result<
    RustVariables,
    PngToWasm4SrcError,
>)
    requires
        4 * (width * height) <= rgba@.len(),
    ensures
        decoded_outcome(name@, palette@, width, height, rgba@, r),
{
    let mapping = compute_palette_mapping(palette);
    let k = mapping.len();
    let (data, flags) = if k == 2 {
        (encode_1bpp_image(width, height, rgba, &mapping), Flags::OneBitPerPixel)
    } else if k == 4 {
        (encode_2bpp_image(width, height, rgba, &mapping), Flags::TwoBitsPerPixel)
    } else {
        return Err(PngToWasm4SrcError::InvalidPaletteSize(k));
    };
    match data {
        Some(data) => Ok(RustVariables::new(name.to_owned(), width, height, flags, data)),
        None => Err(PngToWasm4SrcError::NotIndexedPng),
    }
}

/// The colour keys of the palette of a PNG image.
pub fn extract_palette(bytes: &[u8]) -> (r: Result<Vec<u32>, PngToWasm4SrcError>)
    ensures
        match png_header_palette(bytes@) {
            None => r matches Err(PngToWasm4SrcError::PngDecoding(_)),
            Some(None) => r matches Err(PngToWasm4SrcError::NotIndexedPng),
            Some(Some(raw)) => r matches Ok(p) && p@ == palette_colors(raw),
        },
{
    match read_png_palette(bytes) {
        Err(e) => Err(PngToWasm4SrcError::PngDecoding(e)),
        Ok(None) => Err(PngToWasm4SrcError::NotIndexedPng),
        Ok(Some(raw)) => Ok(palette_values(&raw)),
    }
}

/// The outcome of converting the PNG image `bytes` to the sprite `name`:
/// a header that cannot be read, a missing palette, then pixels that cannot be
/// decoded are errors; else it is that of making the sprite from the decoded
/// palette and pixels.
pub open spec fn conversion_outcome(name: Seq<char>, bytes: Seq<u8>, r: Result<RustVariables, PngToWasm4SrcError>) -> bool {
    match png_header_palette(bytes) {
        None => r matches Err(PngToWasm4SrcError::PngDecoding(_)),
        Some(None) => r matches Err(PngToWasm4SrcError::NotIndexedPng),
        Some(Some(raw)) => match png_rgba(bytes) {
            None => r matches Err(PngToWasm4SrcError::Image(_)),
            Some((w, h, d)) => decoded_outcome(name, palette_colors(raw), w, h, d, r),
        },
    }
}

/// Converts the PNG image `bytes` to the sprite record `name`: its palette
/// is read first, then its pixels, then they are packed by palette index.
pub fn convert_png_to_rust_variables(name: &str, bytes: &[u8]) -> (r: Result<RustVariables, PngToWasm4SrcError>)
    ensures
        conversion_outcome(name@, bytes@, r),
{
    let palette = extract_palette(bytes)?;
    match read_rgba_image(bytes) {
        Err(e) => Err(PngToWasm4SrcError::Image(e)),
        Ok((width, height, rgba)) => convert_decoded_sprite(name, &palette, width, height, &rgba),
    }
}

/// Number of palette indices that the bits of one pixel can hold.
pub open spec fn index_limit(two_bits: bool) -> nat {
    if two_bits {
        4
    } else {
        2
    }
}

/// Reads back the palette index of pixel `n` from packed bytes.
pub open spec fn unpacked(bytes: Seq<u8>, n: nat, width: nat, two_bits: bool) -> u8 {
    (bytes[pixel_byte(n, two_bits)] >> pixel_shift(n, width, two_bits)) & (if two_bits {
        3u8
    } else {
        1u8
    })
}

proof fn lemma_one_bit(v: u8, g: u8, s: u8, t: u8)
    by (bit_vector)
    requires
        v <= 1,
        s < 8,
        t < 8,
    ensures
        (((v << s) | (g & !(1u8 << s))) >> s) & 1u8 == v,
        s != t ==> (((v << s) | (g & !(1u8 << s))) >> t) & 1u8 == (g >> t) & 1u8,
{
}

proof fn lemma_two_bits(v: u8, g: u8, s: u8, t: u8)
    by (bit_vector)
    requires
        v <= 3,
        s < 8,
        t < 8,
        s & 1u8 == 0,
        t & 1u8 == 0,
    ensures
        (((v << s) | (g & !(3u8 << s))) >> s) & 3u8 == v,
        s != t ==> (((v << s) | (g & !(3u8 << s))) >> t) & 3u8 == (g >> t) & 3u8,
{
}

/// When the width is a multiple of the pixels per byte, the shift of a pixel
/// depends on its position in the whole pixel sequence only.
proof fn lemma_shift_of_position(n: nat, width: nat, two_bits: bool)
    requires
        width > 0,
        width % pixels_per_byte(two_bits) == 0,
    ensures
        (n % width) % pixels_per_byte(two_bits) == n % pixels_per_byte(two_bits),
{
    let p = pixels_per_byte(two_bits) as int;
    let q = width as int / p;
    vstd::arithmetic::div_mod::lemma_fundamental_div_mod(width as int, p);
    assert(width as int == p * q);
    assert(q > 0) by (nonlinear_arith)
        requires
            width as int == p * q,
            width > 0,
            p > 0,
    ;
    vstd::arithmetic::div_mod::lemma_mod_mod(n as int, p, q);
    assert(q * p == p * q) by (nonlinear_arith);
}

/// Packing loses no pixel: when the width is a multiple of the pixels per
/// byte and every palette index fits in the bits of a pixel, reading pixel
/// `n` back from the packed bytes gives its palette index.
pub proof fn lemma_packed_round_trip(
    rgba: Seq<u8>,
    mapping: Map<u32, usize>,
    width: nat,
    two_bits: bool,
    count: nat,
    n: nat,
)
    requires
        width > 0,
        width % pixels_per_byte(two_bits) == 0,
        n < count,
        forall|k: int| 0 <= k < count ==> (#[trigger] pixel_index(rgba, mapping, k)) < index_limit(two_bits),
    ensures
        unpacked(packed(rgba, mapping, width, two_bits, count), n, width, two_bits) == pixel_index(rgba, mapping, n as int),
    decreases count,
{
    let c = (count - 1) as nat;
    let p = pixels_per_byte(two_bits);
    let prev = packed(rgba, mapping, width, two_bits, c);
    let b = pixel_byte(c, two_bits);
    let sc = pixel_shift(c, width, two_bits);
    let sn = pixel_shift(n, width, two_bits);
    let grown = if prev.len() <= b {
        prev.push(0u8)
    } else {
        prev
    };
    let v = pixel_index(rgba, mapping, c as int);
    lemma_packed_len(rgba, mapping, width, two_bits, c);
    lemma_shift_of_position(n, width, two_bits);
    lemma_shift_of_position(c, width, two_bits);
    if two_bits {
        let cm = ((c % width) % 4) as u8;
        let nm = ((n % width) % 4) as u8;
        assert(sc & 1u8 == 0 && sn & 1u8 == 0) by (bit_vector)
            requires
                sc == 6 - 2 * cm,
                sn == 6 - 2 * nm,
                cm < 4,
                nm < 4,
        ;
        lemma_two_bits(v, grown[b], sc, sn);
    } else {
        lemma_one_bit(v, grown[b], sc, sn);
    }
    if n < c {
        lemma_packed_round_trip(rgba, mapping, width, two_bits, c, n);
        let bn = pixel_byte(n, two_bits);
        vstd::arithmetic::div_mod::lemma_fundamental_div_mod(n as int, p as int);
        vstd::arithmetic::div_mod::lemma_fundamental_div_mod(c as int, p as int);
        assert(bn < prev.len());
        if bn == b {
            assert(n % p != c % p);
            assert(sn != sc);
        }
    }
}

/// A sprite made of a 2-colour palette holds `width * height / 8` bytes,
/// rounded up, and one made of a 4-colour palette `width * height / 4`.
pub proof fn lemma_sprite_data_len(
    name: Seq<char>,
    palette: Seq<u32>,
    width: u32,
    height: u32,
    rgba: Seq<u8>,
    v: RustVariables,
)
    requires
        decoded_outcome(name, palette, width, height, rgba, Ok(v)),
    ensures
        palette_mapping(palette).len() == 2 ==> v.spec_flags() == Flags::OneBitPerPixel
            && v.spec_data().len() == (width * height + 7) / 8,
        palette_mapping(palette).len() == 4 ==> v.spec_flags() == Flags::TwoBitsPerPixel
            && v.spec_data().len() == (width * height + 3) / 4,
{
    let k = palette_mapping(palette).len();
    lemma_packed_len(rgba, palette_mapping(palette), width as nat, k == 4, (width * height) as nat);
}

} // verus!
