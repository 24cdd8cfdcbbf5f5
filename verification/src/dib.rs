//! Decoding of Windows device-independent bitmaps (`CF_DIB` / `CF_DIBV5`)
//! into top-down RGBA pixels.
use vstd::prelude::*;
use vstd::std_specs::bits::u32_trailing_zeros;

use crate::le_bytes::{le_i32, le_u16, le_u32, read_i32, read_u16, read_u32};
use crate::writer::{bgra_of, dib_v5_header, dib_v5_write_result, le_u32_bytes, ClipboardWriterError};

verus! {

/// Largest clipboard memory block the listener copies.
pub const MAX_CLIPBOARD_BLOCK_BYTES: usize = 134_217_728;
/// Widest image the history accepts.
pub const MAX_IMAGE_WIDTH: u32 = 16_384;
/// Tallest image the history accepts.
pub const MAX_IMAGE_HEIGHT: u32 = 16_384;
/// Largest pixel count the history accepts.
pub const MAX_IMAGE_PIXELS: u64 = 40_000_000;
/// Largest RGBA buffer the history accepts.
pub const MAX_RGBA_BYTES: usize = 160_000_000;

/// Uncompressed RGB pixel rows.
pub const BI_RGB: u32 = 0;
/// Pixels described by explicit channel masks.
pub const BI_BITFIELDS: u32 = 3;
/// `LCS_PROFILE_LINKED` colour-space tag.
pub const PROFILE_LINKED: u32 = 0x4c49_4e4b;
/// `LCS_PROFILE_EMBEDDED` colour-space tag.
pub const PROFILE_EMBEDDED: u32 = 0x4d42_4544;

/// A decoded clipboard image: `rgba` holds `width * height` top-down RGBA pixels.
#[derive(Debug, Clone, PartialEq, Eq)]
pub struct ClipboardImage {
    pub width: u32,
    pub height: u32,
    pub rgba: Vec<u8>,
}

// ---------------------------------------------------------------------------
// Header fields.

pub open spec fn dib_header_size(b: Seq<u8>) -> int {
    le_u32(b, 0)
}

pub open spec fn dib_raw_width(b: Seq<u8>) -> int {
    le_i32(b, 4)
}

pub open spec fn dib_raw_height(b: Seq<u8>) -> int {
    le_i32(b, 8)
}

pub open spec fn dib_bit_count(b: Seq<u8>) -> int {
    le_u16(b, 14)
}

pub open spec fn dib_compression(b: Seq<u8>) -> int {
    le_u32(b, 16)
}

/// Image width in pixels.
pub open spec fn dib_width(b: Seq<u8>) -> int {
    dib_raw_width(b)
}

/// Image height in pixels; a negative stored height marks a top-down bitmap.
pub open spec fn dib_height(b: Seq<u8>) -> int {
    if dib_raw_height(b) < 0 {
        -dib_raw_height(b)
    } else {
        dib_raw_height(b)
    }
}

/// Whether the stored rows run from the bottom of the image upwards.
pub open spec fn dib_bottom_up(b: Seq<u8>) -> bool {
    dib_raw_height(b) > 0
}

/// Bytes per stored row: rows are padded to a multiple of four bytes.
pub open spec fn dib_stride(b: Seq<u8>) -> int {
    ((dib_width(b) * dib_bit_count(b) + 31) / 32) * 4
}

/// Offset of the first pixel row.  With 40-byte headers the three colour
/// masks follow the header.
pub open spec fn dib_pixel_offset(b: Seq<u8>) -> int {
    if dib_compression(b) == BI_BITFIELDS && dib_header_size(b) < 52 {
        52
    } else {
        dib_header_size(b)
    }
}

pub open spec fn dib_red_mask(b: Seq<u8>) -> u32 {
    le_u32(b, 40) as u32
}

pub open spec fn dib_green_mask(b: Seq<u8>) -> u32 {
    le_u32(b, 44) as u32
}

pub open spec fn dib_blue_mask(b: Seq<u8>) -> u32 {
    le_u32(b, 48) as u32
}

pub open spec fn dib_alpha_mask(b: Seq<u8>) -> u32 {
    if dib_header_size(b) >= 56 {
        le_u32(b, 52) as u32
    } else {
        0
    }
}

/// A mask is a single run of set bits (or empty).
pub open spec fn contiguous_mask(mask: u32) -> bool {
    mask == 0 || {
        let shifted = mask >> u32_trailing_zeros(mask);
        shifted == 0xffff_ffffu32 || shifted & ((shifted + 1) as u32) == 0
    }
}

/// The rules a set of `BI_BITFIELDS` channel masks must follow.
pub open spec fn masks_valid(red: u32, green: u32, blue: u32, alpha: u32, bits: int) -> bool {
    let valid_bits: u32 = if bits == 32 {
        0xffff_ffffu32
    } else {
        0x00ff_ffffu32
    };
    &&& red != 0 && green != 0 && blue != 0
    &&& red & green == 0 && red & blue == 0 && green & blue == 0
    &&& alpha & (red | green | blue) == 0
    &&& (red | green | blue | alpha) & !valid_bits == 0
    &&& contiguous_mask(red) && contiguous_mask(green) && contiguous_mask(blue)
        && contiguous_mask(alpha)
}

/// The header describes a bitmap this decoder supports, and the buffer holds
/// every pixel row it announces.
pub open spec fn dib_accepts(b: Seq<u8>) -> bool {
    let hs = dib_header_size(b);
    &&& 40 <= b.len() <= MAX_CLIPBOARD_BLOCK_BYTES
    &&& (hs == 40 || hs == 52 || hs == 56 || hs == 108 || hs == 124)
    &&& hs <= b.len()
    &&& dib_raw_width(b) > 0
    &&& dib_raw_height(b) != 0
    &&& dib_width(b) <= MAX_IMAGE_WIDTH
    &&& dib_height(b) <= MAX_IMAGE_HEIGHT
    &&& dib_width(b) * dib_height(b) <= MAX_IMAGE_PIXELS
    &&& le_u16(b, 12) == 1
    &&& (dib_bit_count(b) == 24 || dib_bit_count(b) == 32)
    &&& (dib_compression(b) == BI_RGB || dib_compression(b) == BI_BITFIELDS)
    &&& le_u32(b, 32) == 0
    &&& (hs >= 124 ==> le_u32(b, 56) != PROFILE_LINKED && le_u32(b, 56) != PROFILE_EMBEDDED
        && le_u32(b, 112) == 0 && le_u32(b, 116) == 0)
    &&& (dib_compression(b) == BI_BITFIELDS ==> b.len() >= 52 && masks_valid(
        dib_red_mask(b),
        dib_green_mask(b),
        dib_blue_mask(b),
        dib_alpha_mask(b),
        dib_bit_count(b),
    ))
    &&& dib_pixel_offset(b) + dib_stride(b) * dib_height(b) <= b.len()
    &&& dib_width(b) * dib_height(b) * 4 <= MAX_RGBA_BYTES
}

/// Scales the bits of `raw` selected by `mask` to the range `0..=255`,
/// rounding to nearest.
pub open spec fn mask_component_value(raw: u32, mask: u32) -> int {
    let shift = u32_trailing_zeros(mask);
    let maximum = (mask >> shift) as int;
    let value = ((raw & mask) >> shift) as int;
    (value * 255 + maximum / 2) / maximum
}

/// Offset of the stored pixel that becomes output pixel (`x`, `y`).
pub open spec fn dib_source_offset(b: Seq<u8>, x: int, y: int) -> int {
    let source_y = if dib_bottom_up(b) {
        dib_height(b) - 1 - y
    } else {
        y
    };
    dib_pixel_offset(b) + source_y * dib_stride(b) + x * (dib_bit_count(b) / 8)
}

/// The stored pixel word that `BI_BITFIELDS` masks select from.
pub open spec fn dib_raw_pixel(b: Seq<u8>, offset: int) -> u32 {
    if dib_bit_count(b) == 32 {
        le_u32(b, offset) as u32
    } else {
        (b[offset] as int + 256 * b[offset + 1] as int + 65536 * b[offset + 2] as int) as u32
    }
}

/// Channel `c` (0 red, 1 green, 2 blue, 3 alpha) of output pixel (`x`, `y`).
pub open spec fn dib_channel(b: Seq<u8>, x: int, y: int, c: int) -> u8 {
    dib_channel_at(b, dib_source_offset(b, x, y), c)
}

/// Channel `c` of the stored pixel at byte `offset`.
pub open spec fn dib_channel_at(b: Seq<u8>, offset: int, c: int) -> u8 {
    if dib_compression(b) == BI_BITFIELDS {
        let raw = dib_raw_pixel(b, offset);
        if c == 0 {
            mask_component_value(raw, dib_red_mask(b)) as u8
        } else if c == 1 {
            mask_component_value(raw, dib_green_mask(b)) as u8
        } else if c == 2 {
            mask_component_value(raw, dib_blue_mask(b)) as u8
        } else if dib_alpha_mask(b) == 0 {
            255
        } else {
            mask_component_value(raw, dib_alpha_mask(b)) as u8
        }
    } else if c == 0 {
        b[offset + 2]
    } else if c == 1 {
        b[offset + 1]
    } else if c == 2 {
        b[offset]
    } else {
        255
    }
}

/// The decoded image: top-down rows of RGBA pixels.
pub open spec fn dib_rgba(b: Seq<u8>) -> Seq<u8> {
    let w = dib_width(b);
    Seq::new(
        (4 * w * dib_height(b)) as nat,
        |k: int| dib_channel(b, (k / 4) % w, (k / 4) / w, k % 4),
    )
}

/// Channel `c` of the pixel in column `x` of the `row`-th row as stored:
/// rows follow one another from the pixel offset, each `dib_stride` bytes.
pub open spec fn dib_stored_channel(b: Seq<u8>, row: int, x: int, c: int) -> u8 {
    dib_channel_at(b, dib_pixel_offset(b) + row * dib_stride(b) + x * (dib_bit_count(b) / 8), c)
}

/// The sign of the stored height decides the row order, at every bit depth
/// and compression: with a positive height the last stored row is the top
/// of the image (output row `y` is stored row `height - 1 - y`), with a
/// negative height the first one is (output row `y` is stored row `y`).
pub proof fn lemma_dib_row_order_follows_height_sign(b: Seq<u8>, x: int, y: int, c: int)
    requires
        dib_accepts(b),
        0 <= x < dib_width(b),
        0 <= y < dib_height(b),
        0 <= c < 4,
    ensures
        4 * (y * dib_width(b) + x) + c < dib_rgba(b).len(),
        dib_rgba(b)[4 * (y * dib_width(b) + x) + c] == dib_stored_channel(
            b,
            if le_i32(b, 8) > 0 {
                dib_height(b) - 1 - y
            } else {
                y
            },
            x,
            c,
        ),
{
    lemma_pixel_index(dib_width(b), dib_height(b), x, y, c);
}

/// An uncompressed (`BI_RGB`) DIB decodes pixel by pixel from its stored
/// blue, green, red bytes: the pixel in column `x` of output row `y` is read
/// at `header size + row * stride + x * bytes per pixel`, where rows are
/// padded to four bytes and `row` is `height - 1 - y` for a positive stored
/// height and `y` for a negative one; alpha is opaque.
pub proof fn lemma_dib_rgb_pixels(b: Seq<u8>, x: int, y: int)
    requires
        dib_accepts(b),
        le_u32(b, 16) == 0,
        0 <= x < le_i32(b, 4),
        0 <= y < (if le_i32(b, 8) < 0 { -le_i32(b, 8) } else { le_i32(b, 8) }),
    ensures
        ({
            let w = le_i32(b, 4);
            let h = if le_i32(b, 8) < 0 { -le_i32(b, 8) } else { le_i32(b, 8) };
            let bits = le_u16(b, 14);
            let row = if le_i32(b, 8) > 0 { h - 1 - y } else { y };
            let o = le_u32(b, 0) + row * (((w * bits + 31) / 32) * 4) + x * (bits / 8);
            let k = 4 * (y * w + x);
            &&& k + 3 < dib_rgba(b).len()
            &&& 0 <= o && o + 2 < b.len()
            &&& dib_rgba(b)[k] == b[o + 2]
            &&& dib_rgba(b)[k + 1] == b[o + 1]
            &&& dib_rgba(b)[k + 2] == b[o]
            &&& dib_rgba(b)[k + 3] == 255
        }),
{
    let w = dib_width(b);
    let h = dib_height(b);
    lemma_pixel_index(w, h, x, y, 0);
    lemma_pixel_index(w, h, x, y, 1);
    lemma_pixel_index(w, h, x, y, 2);
    lemma_pixel_index(w, h, x, y, 3);
    let row = if le_i32(b, 8) > 0 { h - 1 - y } else { y };
    lemma_row_fits(w, dib_bit_count(b), dib_stride(b), x);
    lemma_rows_fit(h, dib_stride(b), row);
    assert(0 <= x * (dib_bit_count(b) / 8)) by (nonlinear_arith)
        requires
            0 <= x,
            dib_bit_count(b) == 24 || dib_bit_count(b) == 32,
    ;
    assert(h * dib_stride(b) == dib_stride(b) * h) by (nonlinear_arith);
    let o = dib_pixel_offset(b) + row * dib_stride(b) + x * (dib_bit_count(b) / 8);
    assert(o + 2 < b.len());
    assert(dib_source_offset(b, x, y) == o);
    let k = 4 * (y * w + x);
    assert(dib_rgba(b)[k] == dib_channel(b, x, y, 0));
    assert(dib_rgba(b)[k + 1] == dib_channel(b, x, y, 1));
    assert(dib_rgba(b)[k + 2] == dib_channel(b, x, y, 2));
    assert(dib_rgba(b)[k + 3] == dib_channel(b, x, y, 3));
}

// ---------------------------------------------------------------------------
// Arithmetic facts.

proof fn lemma_pixel_index(w: int, h: int, x: int, y: int, c: int)
    requires
        0 <= x < w,
        0 <= y < h,
        0 <= c < 4,
    ensures
        ({
            let k = 4 * (y * w + x) + c;
            &&& 0 <= k < 4 * w * h
            &&& k / 4 == y * w + x
            &&& k % 4 == c
            &&& (k / 4) % w == x
            &&& (k / 4) / w == y
        }),
{
    let k = 4 * (y * w + x) + c;
    assert(0 <= y * w + x < w * h) by (nonlinear_arith)
        requires
            0 <= x < w,
            0 <= y < h,
    ;
    assert(4 * w * h == 4 * (w * h)) by (nonlinear_arith);
    vstd::arithmetic::div_mod::lemma_fundamental_div_mod_converse_div(k, 4, y * w + x, c);
    vstd::arithmetic::div_mod::lemma_fundamental_div_mod_converse_mod(k, 4, y * w + x, c);
    assert(y * w + x == y * w + x);
    vstd::arithmetic::div_mod::lemma_fundamental_div_mod_converse_div(y * w + x, w, y, x);
    vstd::arithmetic::div_mod::lemma_fundamental_div_mod_converse_mod(y * w + x, w, y, x);
    assert(y * w == w * y) by (nonlinear_arith);
}

proof fn lemma_row_fits(w: int, bits: int, stride: int, x: int)
    requires
        0 <= x < w,
        bits == 24 || bits == 32,
        stride == ((w * bits + 31) / 32) * 4,
    ensures
        x * (bits / 8) + bits / 8 <= stride,
{
    assert(x * (bits / 8) + bits / 8 <= w * (bits / 8)) by (nonlinear_arith)
        requires
            0 <= x < w,
            bits == 24 || bits == 32,
    ;
    assert(w * (bits / 8) * 8 == w * bits) by (nonlinear_arith)
        requires
            bits == 24 || bits == 32,
    ;
    let q = (w * bits + 31) / 32;
    assert(w * bits <= q * 32) by (nonlinear_arith)
        requires
            q == (w * bits + 31) / 32,
            w >= 0,
            bits >= 0,
    ;
    assert(w * (bits / 8) <= q * 4) by (nonlinear_arith)
        requires
            w * (bits / 8) * 8 == w * bits,
            w * bits <= q * 32,
    ;
}

proof fn lemma_rows_fit(h: int, stride: int, y: int)
    requires
        0 <= y < h,
        stride >= 0,
    ensures
        y * stride + stride <= h * stride,
        0 <= y * stride,
{
    assert(y * stride + stride <= h * stride) by (nonlinear_arith)
        requires
            0 <= y < h,
            stride >= 0,
    ;
    assert(0 <= y * stride) by (nonlinear_arith)
        requires
            0 <= y,
            stride >= 0,
    ;
}

// ---------------------------------------------------------------------------
// Mask helpers.

/// Scales the masked bits of `raw` to a byte, rounding to nearest.
pub fn mask_component(raw: u32, mask: u32) -> (result: Result<u8, ()>)
    ensures
        mask == 0 <==> result is Err,
        result matches Ok(value) ==> value as int == mask_component_value(raw, mask),
{
    if mask == 0 {
        return Err(());
    }
    let shift = mask.trailing_zeros();
    proof {
        vstd::std_specs::bits::axiom_u32_trailing_zeros(mask);
    }
    let maximum = mask >> shift;
    let value = (raw & mask) >> shift;
    assert(maximum != 0) by (bit_vector)
        requires
            shift < 32,
            (mask >> shift) & 1u32 == 1u32,
            maximum == mask >> shift,
    ;
    assert(value <= maximum) by (bit_vector)
        requires
            value == (raw & mask) >> shift,
            maximum == mask >> shift,
    ;
    let scaled = (value as u64 * 255 + maximum as u64 / 2) / maximum as u64;
    assert(scaled <= 255) by (nonlinear_arith)
        requires
            scaled as int == (value as int * 255 + maximum as int / 2) / maximum as int,
            value <= maximum,
            maximum > 0,
    ;
    Ok(scaled as u8)
}

/// Whether `mask` is one run of set bits (or empty).
fn is_contiguous_mask(mask: u32) -> (result: bool)
    ensures
        result == contiguous_mask(mask),
{
    if mask == 0 {
        return true;
    }
    let shifted = mask >> mask.trailing_zeros();
    if shifted == 0xffff_ffffu32 {
        return true;
    }
    shifted & (shifted + 1) == 0
}

/// Checks `BI_BITFIELDS` channel masks: non-empty, disjoint colour masks, an
/// alpha mask outside them, no bits beyond the pixel width, and each mask a
/// single run of bits.
pub fn validate_masks(red: u32, green: u32, blue: u32, alpha: u32, bits: u16) -> (result: Result<
    (),
    (),
>)
    requires
        bits == 24 || bits == 32,
    ensures
        result is Ok <==> masks_valid(red, green, blue, alpha, bits as int),
{
    if red == 0 || green == 0 || blue == 0 || red & green != 0 || red & blue != 0 || green & blue
        != 0 || alpha & (red | green | blue) != 0 {
        return Err(());
    }
    let valid_bits: u32 = if bits == 32 {
        0xffff_ffffu32
    } else {
        0x00ff_ffffu32
    };
    if (red | green | blue | alpha) & !valid_bits != 0 {
        return Err(());
    }
    if !is_contiguous_mask(red) || !is_contiguous_mask(green) || !is_contiguous_mask(blue)
        || !is_contiguous_mask(alpha) {
        return Err(());
    }
    Ok(())
}

// ---------------------------------------------------------------------------
// The decoder.

/// Decodes a `CF_DIB` / `CF_DIBV5` block into top-down RGBA.
///
/// Supported are uncompressed 24- and 32-bit pixels and `BI_BITFIELDS`
/// masks; colour tables, linked or embedded colour profiles, oversized
/// dimensions and truncated pixel data are rejected.
pub fn parse_dib(bytes: Vec<u8>) -> (result: Result<ClipboardImage, ()>)
    ensures
        result is Ok <==> dib_accepts(bytes@),
        result matches Ok(image) ==> {
            &&& image.width as int == dib_width(bytes@)
            &&& image.height as int == dib_height(bytes@)
            &&& image.rgba@ == dib_rgba(bytes@)
        },
{
    let ghost b = bytes@;
    if bytes.len() < 40 || bytes.len() > MAX_CLIPBOARD_BLOCK_BYTES {
        return Err(());
    }
    let header_size = match read_u32(&bytes, 0) {
        Some(value) => value,
        None => return Err(()),
    };
    if !(header_size == 40 || header_size == 52 || header_size == 56 || header_size == 108
        || header_size == 124) || header_size as usize > bytes.len() {
        return Err(());
    }
    let width_i = match read_i32(&bytes, 4) {
        Some(value) => value,
        None => return Err(()),
    };
    let height_i = match read_i32(&bytes, 8) {
        Some(value) => value,
        None => return Err(()),
    };
    if width_i <= 0 || height_i == 0 {
        return Err(());
    }
    let width = width_i as u32;
    let height: u32 = if height_i < 0 {
        if height_i == i32::MIN {
            2_147_483_648u32
        } else {
            (-height_i) as u32
        }
    } else {
        height_i as u32
    };
    assert(height as int == dib_height(b));
    if width > MAX_IMAGE_WIDTH || height > MAX_IMAGE_HEIGHT {
        return Err(());
    }
    assert(width as int * height as int <= 16_384 * 16_384) by (nonlinear_arith)
        requires
            width <= 16_384,
            height <= 16_384,
    ;
    let pixels = width as u64 * height as u64;
    if pixels > MAX_IMAGE_PIXELS {
        return Err(());
    }
    match read_u16(&bytes, 12) {
        Some(planes) => {
            if planes != 1 {
                return Err(());
            }
        },
        None => return Err(()),
    }
    let bit_count = match read_u16(&bytes, 14) {
        Some(value) => value,
        None => return Err(()),
    };
    if bit_count != 24 && bit_count != 32 {
        return Err(());
    }
    let compression = match read_u32(&bytes, 16) {
        Some(value) => value,
        None => return Err(()),
    };
    if compression != BI_RGB && compression != BI_BITFIELDS {
        return Err(());
    }
    match read_u32(&bytes, 32) {
        Some(colors_used) => {
            if colors_used != 0 {
                return Err(());
            }
        },
        None => return Err(()),
    }
    if header_size >= 124 {
        let color_space_type = match read_u32(&bytes, 56) {
            Some(value) => value,
            None => return Err(()),
        };
        let profile_offset = match read_u32(&bytes, 112) {
            Some(value) => value,
            None => return Err(()),
        };
        let profile_size = match read_u32(&bytes, 116) {
            Some(value) => value,
            None => return Err(()),
        };
        if color_space_type == PROFILE_LINKED || color_space_type == PROFILE_EMBEDDED
            || profile_offset != 0 || profile_size != 0 {
            return Err(());
        }
    }
    let mut pixel_offset = header_size as usize;
    let mut red: u32 = 0;
    let mut green: u32 = 0;
    let mut blue: u32 = 0;
    let mut alpha: u32 = 0;
    if compression == BI_BITFIELDS {
        if bytes.len() < 52 {
            return Err(());
        }
        if header_size < 52 {
            pixel_offset = 52;
        }
        red = read_u32(&bytes, 40).unwrap();
        green = read_u32(&bytes, 44).unwrap();
        blue = read_u32(&bytes, 48).unwrap();
        if header_size >= 56 {
            alpha = read_u32(&bytes, 52).unwrap();
        }
        if validate_masks(red, green, blue, alpha, bit_count).is_err() {
            return Err(());
        }
    }
    assert(pixel_offset as int == dib_pixel_offset(b));
    assert(width as int * bit_count as int <= 16_384 * 32) by (nonlinear_arith)
        requires
            width <= 16_384,
            bit_count <= 32,
    ;
    let row_bits = width as u64 * bit_count as u64;
    let stride = ((row_bits + 31) / 32) * 4;
    assert(stride as int == dib_stride(b));
    assert(stride <= 65_536 && stride as int * height as int <= 65_536 * 16_384) by (nonlinear_arith)
        requires
            stride as int == ((row_bits as int + 31) / 32) * 4,
            row_bits <= 16_384 * 32,
            height <= 16_384,
    ;
    let data_size = stride * height as u64;
    if pixel_offset as u64 + data_size > bytes.len() as u64 {
        return Err(());
    }
    let rgba_len = pixels * 4;
    if rgba_len > MAX_RGBA_BYTES as u64 {
        return Err(());
    }
    assert(dib_accepts(b));
    let bytes_per_pixel = (bit_count / 8) as u64;
    let bottom_up = height_i > 0;
    let mut rgba: Vec<u8> = Vec::with_capacity(rgba_len as usize);
    let mut y: u32 = 0;
    while y < height
        invariant
            b == bytes@,
            dib_accepts(b),
            width as int == dib_width(b),
            height as int == dib_height(b),
            bottom_up == dib_bottom_up(b),
            bit_count as int == dib_bit_count(b),
            bytes_per_pixel == bit_count / 8,
            stride as int == dib_stride(b),
            pixel_offset as int == dib_pixel_offset(b),
            compression as int == dib_compression(b),
            compression == BI_BITFIELDS ==> red == dib_red_mask(b) && green == dib_green_mask(b)
                && blue == dib_blue_mask(b) && alpha == dib_alpha_mask(b),
            y <= height,
            rgba@.len() == 4 * (y * width),
            forall|k: int| 0 <= k < rgba@.len() ==> rgba@[k] == dib_rgba(b)[k],
        decreases height - y,
    {
        let source_y = if bottom_up {
            height - 1 - y
        } else {
            y
        };
        proof {
            lemma_rows_fit(height as int, stride as int, source_y as int);
        }
        let row = pixel_offset as u64 + source_y as u64 * stride;
        let mut x: u32 = 0;
        while x < width
            invariant
                b == bytes@,
                dib_accepts(b),
                width as int == dib_width(b),
                height as int == dib_height(b),
                bottom_up == dib_bottom_up(b),
                bit_count as int == dib_bit_count(b),
                bytes_per_pixel == bit_count / 8,
                stride as int == dib_stride(b),
                pixel_offset as int == dib_pixel_offset(b),
                compression as int == dib_compression(b),
                compression == BI_BITFIELDS ==> red == dib_red_mask(b) && green == dib_green_mask(
                    b,
                ) && blue == dib_blue_mask(b) && alpha == dib_alpha_mask(b),
                y < height,
                source_y as int == (if bottom_up {
                    height - 1 - y
                } else {
                    y as int
                }),
                row as int == pixel_offset + source_y * stride,
                source_y * stride + stride <= height * stride,
                x <= width,
                rgba@.len() == 4 * (y * width + x),
                forall|k: int| 0 <= k < rgba@.len() ==> rgba@[k] == dib_rgba(b)[k],
            decreases width - x,
        {
            proof {
                lemma_row_fits(width as int, bit_count as int, stride as int, x as int);
            }
            let offset = (row + x as u64 * bytes_per_pixel) as usize;
            assert(offset as int == dib_source_offset(b, x as int, y as int));
            assert(offset + bytes_per_pixel <= bytes@.len());
            let mut channels: [u8; 4] = [0, 0, 0, 255];
            if compression == BI_BITFIELDS {
                let raw: u32 = if bit_count == 32 {
                    read_u32(&bytes, offset).unwrap()
                } else {
                    bytes[offset] as u32 + 256 * (bytes[offset + 1] as u32) + 65536 * (
                    bytes[offset + 2] as u32)
                };
                assert(raw == dib_raw_pixel(b, offset as int));
                let r = mask_component(raw, red).unwrap();
                let g = mask_component(raw, green).unwrap();
                let bl = mask_component(raw, blue).unwrap();
                let a = if alpha == 0 {
                    255u8
                } else {
                    mask_component(raw, alpha).unwrap()
                };
                channels = [r, g, bl, a];
            } else {
                channels = [bytes[offset + 2], bytes[offset + 1], bytes[offset], 255];
            }
            let mut c: usize = 0;
            while c < 4
                invariant
                    b == bytes@,
                    width as int == dib_width(b),
                    height as int == dib_height(b),
                    x < width,
                    y < height,
                    c <= 4,
                    forall|j: int| 0 <= j < 4 ==> channels@[j] == dib_channel(b, x as int, y as int, j),
                    rgba@.len() == 4 * (y * width + x) + c,
                    forall|k: int| 0 <= k < rgba@.len() ==> rgba@[k] == dib_rgba(b)[k],
                decreases 4 - c,
            {
                proof {
                    lemma_pixel_index(width as int, height as int, x as int, y as int, c as int);
                }
                rgba.push(channels[c]);
                c += 1;
            }
            x += 1;
        }
        assert(4 * (y * width + width) == 4 * ((y + 1) * width)) by (nonlinear_arith);
        y += 1;
    }
    proof {
        assert(rgba@.len() == dib_rgba(b).len()) by (nonlinear_arith)
            requires
                rgba@.len() == 4 * (height * width),
                dib_rgba(b).len() == 4 * width * height,
        ;
        assert(rgba@ =~= dib_rgba(b));
    }
    Ok(ClipboardImage { width, height, rgba })
}

// ---------------------------------------------------------------------------
// `CF_BITMAP` pixels read back as 32-bit top-down rows.

/// The size of a `CF_BITMAP` object: its width and height when both are
/// positive and within the image limits.
pub open spec fn bitmap_size(width: i32, height: i32) -> Option<(u32, u32)> {
    if 0 < width && 0 < height && width <= MAX_IMAGE_WIDTH && height <= MAX_IMAGE_HEIGHT && width * height
        <= MAX_IMAGE_PIXELS && width * height * 4 <= MAX_RGBA_BYTES {
        Some((width as u32, height as u32))
    } else {
        None
    }
}

/// The size of a `CF_BITMAP` object, when the history can hold its pixels.
pub fn bitmap_dimensions(width: i32, height: i32) -> (result: Option<(u32, u32)>)
    ensures
        result == bitmap_size(width, height),
{
    if width <= 0 || height <= 0 {
        return None;
    }
    let w = width as u32;
    let h = height as u32;
    if w > MAX_IMAGE_WIDTH || h > MAX_IMAGE_HEIGHT {
        return None;
    }
    assert((w as u64) * (h as u64) <= 16_384 * 16_384) by (nonlinear_arith)
        requires
            w <= 16_384,
            h <= 16_384,
    ;
    let pixels = (w as u64) * (h as u64);
    assert(pixels == width * height) by (nonlinear_arith)
        requires
            pixels == w * h,
            w == width,
            h == height,
    ;
    if pixels > MAX_IMAGE_PIXELS || pixels * 4 > MAX_RGBA_BYTES as u64 {
        return None;
    }
    Some((w, h))
}

/// One byte of the RGBA form of BGRA pixels: blue and red trade places, and
/// a zero alpha (a bitmap without alpha) becomes opaque.
pub open spec fn bitmap_rgba_byte(bgra: Seq<u8>, pixel: int, channel: int) -> u8 {
    let base = 4 * pixel;
    if channel == 0 {
        bgra[base + 2]
    } else if channel == 2 {
        bgra[base]
    } else if channel == 3 && bgra[base + 3] == 0 {
        255
    } else {
        bgra[base + channel]
    }
}

/// Each pixel's bytes, equal for equal positions.
pub open spec fn pixels_converted(rgba: Seq<u8>, bgra: Seq<u8>, pixels: int) -> bool {
    forall|p: int, c: int| 0 <= p < pixels && 0 <= c < 4 ==> #[trigger] rgba[4 * p + c] == bitmap_rgba_byte(bgra, p, c)
}

/// BGRA pixels read back from a bitmap, converted in place to RGBA.
pub fn bitmap_bgra_to_rgba(bgra: Vec<u8>) -> (rgba: Vec<u8>)
    requires
        bgra.len() % 4 == 0,
    ensures
        rgba.len() == bgra.len(),
        pixels_converted(rgba@, bgra@, (bgra.len() / 4) as int),
{
    let ghost source = bgra@;
    let mut rgba = bgra;
    let pixels = rgba.len() / 4;
    let mut p: usize = 0;
    while p < pixels
        invariant
            rgba@.len() == source.len(),
            source.len() == 4 * pixels,
            source.len() <= usize::MAX,
            p <= pixels,
            pixels_converted(rgba@, source, p as int),
            forall|k: int| 4 * p <= k < source.len() ==> rgba@[k] == source[k],
        decreases pixels - p,
    {
        let base = 4 * p;
        let blue = rgba[base];
        let red = rgba[base + 2];
        rgba.set(base, red);
        rgba.set(base + 2, blue);
        if rgba[base + 3] == 0 {
            rgba.set(base + 3, 255);
        }
        proof {
            assert forall|q: int, c: int| 0 <= q < p + 1 && 0 <= c < 4 implies #[trigger] rgba@[4 * q + c]
                == bitmap_rgba_byte(source, q, c) by {
                if q < p {
                    assert(4 * q + c < 4 * p);
                }
            }
        }
        p += 1;
    }
    rgba
}

/// The image of a `CF_BITMAP` whose `height` top-down BGRA rows of `width`
/// pixels were read back.
pub fn bitmap_image_from_bgra(width: u32, height: u32, bgra: Vec<u8>) -> (result: Option<ClipboardImage>)
    ensures
        match result {
            Some(image) => bgra.len() == 4 * width * height && image.width == width && image.height == height
                && image.rgba.len() == bgra.len() && pixels_converted(image.rgba@, bgra@, width * height),
            None => bgra.len() != 4 * width * height,
        },
{
    assert(4 * (width as u128) * (height as u128) <= 4 * 0xffff_ffffu128 * 0xffff_ffffu128) by (nonlinear_arith)
        requires
            width <= 0xffff_ffffu32,
            height <= 0xffff_ffffu32,
    ;
    let expected = 4 * (width as u128) * (height as u128);
    if bgra.len() as u128 != expected {
        return None;
    }
    let ghost source = bgra@;
    let ghost pixels: int = width * height;
    assert(bgra.len() == 4 * pixels) by (nonlinear_arith)
        requires
            bgra.len() == 4 * width * height,
            pixels == width * height,
    ;
    assert(bgra.len() % 4 == 0 && bgra.len() / 4 == pixels);
    let rgba = bitmap_bgra_to_rgba(bgra);
    Some(ClipboardImage { width, height, rgba })
}

// ---------------------------------------------------------------------------
// A written `CF_DIBV5` image decodes back to its pixels.

/// The four little-endian bytes of `value` read back as `value`.
proof fn lemma_le_u32_bytes(value: u32)
    ensures
        le_u32(le_u32_bytes(value), 0) == value,
{
    let b = le_u32_bytes(value);
    assert(b[0] == value % 256 && b[1] == (value / 256) % 256 && b[2] == (value / 65536) % 256 && b[3] == value
        / 16777216);
}

/// The header fields of a written `BITMAPV5HEADER`.
proof fn lemma_written_header(width: u32, height: u32, size: u32, pixels: Seq<u8>)
    requires
        0 < height <= 0x7fff_ffff,
    ensures
        ({
            let b = dib_v5_header(width, height, size) + pixels;
            &&& dib_v5_header(width, height, size).len() == 124
            &&& le_u32(b, 0) == 124
            &&& le_u32(b, 4) == width
            &&& le_u32(b, 8) == 0x1_0000_0000 - height
            &&& le_u16(b, 12) == 1
            &&& le_u16(b, 14) == 32
            &&& le_u32(b, 16) == 3
            &&& le_u32(b, 32) == 0
            &&& le_u32(b, 40) == 0x00ff_0000
            &&& le_u32(b, 44) == 0x0000_ff00
            &&& le_u32(b, 48) == 0x0000_00ff
            &&& le_u32(b, 52) == 0xff00_0000
            &&& le_u32(b, 56) == 0x7352_4742
            &&& le_u32(b, 112) == 0
            &&& le_u32(b, 116) == 0
            &&& forall|j: int| 0 <= j < pixels.len() ==> #[trigger] b[124 + j] == pixels[j]
        }),
{
    let header = dib_v5_header(width, height, size);
    let b = header + pixels;
    lemma_le_u32_bytes(124);
    lemma_le_u32_bytes(width);
    lemma_le_u32_bytes((0x1_0000_0000 - height) as u32);
    lemma_le_u32_bytes(3);
    lemma_le_u32_bytes(0x00ff_0000);
    lemma_le_u32_bytes(0x0000_ff00);
    lemma_le_u32_bytes(0x0000_00ff);
    lemma_le_u32_bytes(0xff00_0000);
    lemma_le_u32_bytes(0x7352_4742);
    assert(header.len() == 124);
    assert forall|i: int| 0 <= i < 4 implies b[i] == le_u32_bytes(124)[i] && b[4 + i] == le_u32_bytes(width)[i]
        && b[8 + i] == le_u32_bytes((0x1_0000_0000 - height) as u32)[i] && b[16 + i] == le_u32_bytes(3)[i]
        && b[32 + i] == 0 && b[40 + i] == le_u32_bytes(0x00ff_0000)[i] && b[44 + i] == le_u32_bytes(
        0x0000_ff00,
    )[i] && b[48 + i] == le_u32_bytes(0x0000_00ff)[i] && b[52 + i] == le_u32_bytes(0xff00_0000)[i] && b[56
        + i] == le_u32_bytes(0x7352_4742)[i] && b[112 + i] == 0 && b[116 + i] == 0 by {
    }
    assert(b[12] == 1 && b[13] == 0 && b[14] == 32 && b[15] == 0);
}

/// The trailing zeros of a mask whose lowest set bit is `t`.
proof fn lemma_trailing_zeros_at(mask: u32, t: u32)
    requires
        t < 32,
        (mask >> t) & 1u32 == 1u32,
        forall|j: u32| j < t ==> #[trigger] ((mask >> j) & 1u32) == 0u32,
    ensures
        u32_trailing_zeros(mask) == t,
{
    vstd::std_specs::bits::axiom_u32_trailing_zeros(mask);
    let z = u32_trailing_zeros(mask);
    assert(mask != 0) by (bit_vector)
        requires
            (mask >> t) & 1u32 == 1u32,
    ;
    if z < t {
        assert((mask >> z) & 1u32 == 0u32);
    } else if z > t {
        assert((mask >> t) & 1u32 == 0u32);
    }
}

/// The channel masks the writer uses: where each starts, and that they are
/// masks the decoder accepts.
proof fn lemma_written_masks()
    ensures
        u32_trailing_zeros(0x00ff_0000u32) == 16,
        u32_trailing_zeros(0x0000_ff00u32) == 8,
        u32_trailing_zeros(0x0000_00ffu32) == 0,
        u32_trailing_zeros(0xff00_0000u32) == 24,
        masks_valid(0x00ff_0000u32, 0x0000_ff00u32, 0x0000_00ffu32, 0xff00_0000u32, 32),
{
    assert(forall|j: u32| j < 16 ==> #[trigger] ((0x00ff_0000u32 >> j) & 1u32) == 0u32) by (bit_vector);
    assert((0x00ff_0000u32 >> 16u32) & 1u32 == 1u32) by (bit_vector);
    lemma_trailing_zeros_at(0x00ff_0000u32, 16);
    assert(forall|j: u32| j < 8 ==> #[trigger] ((0x0000_ff00u32 >> j) & 1u32) == 0u32) by (bit_vector);
    assert((0x0000_ff00u32 >> 8u32) & 1u32 == 1u32) by (bit_vector);
    lemma_trailing_zeros_at(0x0000_ff00u32, 8);
    assert(forall|j: u32| j < 0 ==> #[trigger] ((0x0000_00ffu32 >> j) & 1u32) == 0u32);
    assert((0x0000_00ffu32 >> 0u32) & 1u32 == 1u32) by (bit_vector);
    lemma_trailing_zeros_at(0x0000_00ffu32, 0);
    assert(forall|j: u32| j < 24 ==> #[trigger] ((0xff00_0000u32 >> j) & 1u32) == 0u32) by (bit_vector);
    assert((0xff00_0000u32 >> 24u32) & 1u32 == 1u32) by (bit_vector);
    lemma_trailing_zeros_at(0xff00_0000u32, 24);
    assert((0x00ff_0000u32 >> 16u32) == 0xffu32) by (bit_vector);
    assert((0x0000_ff00u32 >> 8u32) == 0xffu32) by (bit_vector);
    assert((0x0000_00ffu32 >> 0u32) == 0xffu32) by (bit_vector);
    assert((0xff00_0000u32 >> 24u32) == 0xffu32) by (bit_vector);
    assert(0xffu32 & ((0xffu32 + 1) as u32) == 0) by (bit_vector);
    assert(0x00ff_0000u32 & 0x0000_ff00u32 == 0 && 0x00ff_0000u32 & 0x0000_00ffu32 == 0 && 0x0000_ff00u32
        & 0x0000_00ffu32 == 0 && 0xff00_0000u32 & (0x00ff_0000u32 | 0x0000_ff00u32 | 0x0000_00ffu32) == 0
        && (0x00ff_0000u32 | 0x0000_ff00u32 | 0x0000_00ffu32 | 0xff00_0000u32) & !0xffff_ffffu32 == 0)
        by (bit_vector);
}

/// The channels a `BI_BITFIELDS` decoder reads from a pixel stored as
/// blue, green, red, alpha bytes with the writer's masks.
proof fn lemma_written_pixel(blue: u8, green: u8, red: u8, alpha: u8)
    ensures
        ({
            let raw = (blue as int + 256 * green as int + 65536 * red as int + 16777216 * alpha as int) as u32;
            &&& mask_component_value(raw, 0x00ff_0000u32) == red
            &&& mask_component_value(raw, 0x0000_ff00u32) == green
            &&& mask_component_value(raw, 0x0000_00ffu32) == blue
            &&& mask_component_value(raw, 0xff00_0000u32) == alpha
        }),
{
    lemma_written_masks();
    let raw = (blue as int + 256 * green as int + 65536 * red as int + 16777216 * alpha as int) as u32;
    assert(raw == (blue as u32) | ((green as u32) << 8u32) | ((red as u32) << 16u32) | ((alpha as u32) << 24u32))
        by (bit_vector)
        requires
            raw == (blue as int + 256 * green as int + 65536 * red as int + 16777216 * alpha as int) as u32,
    ;
    assert(((raw & 0x00ff_0000u32) >> 16u32) == red as u32 && ((raw & 0x0000_ff00u32) >> 8u32) == green as u32
        && ((raw & 0x0000_00ffu32) >> 0u32) == blue as u32 && ((raw & 0xff00_0000u32) >> 24u32) == alpha as u32)
        by (bit_vector)
        requires
            raw == (blue as u32) | ((green as u32) << 8u32) | ((red as u32) << 16u32) | ((alpha as u32) << 24u32),
    ;
    assert((0x00ff_0000u32 >> 16u32) == 0xffu32 && (0x0000_ff00u32 >> 8u32) == 0xffu32 && (0x0000_00ffu32
        >> 0u32) == 0xffu32 && (0xff00_0000u32 >> 24u32) == 0xffu32) by (bit_vector);
    lemma_scale_byte(red as int);
    lemma_scale_byte(green as int);
    lemma_scale_byte(blue as int);
    lemma_scale_byte(alpha as int);
}

/// A full 8-bit channel scales to itself.
proof fn lemma_scale_byte(v: int)
    by (nonlinear_arith)
    requires
        0 <= v <= 255,
    ensures
        (v * 255 + 127) / 255 == v,
{
}

/// Where output byte `k` of a `width`-pixel-wide image comes from.
proof fn lemma_byte_position(w: int, h: int, k: int)
    requires
        w > 0,
        h > 0,
        0 <= k < 4 * w * h,
    ensures
        ({
            let p = k / 4;
            let x = p % w;
            let y = p / w;
            &&& 0 <= x < w
            &&& 0 <= y < h
            &&& k == 4 * p + k % 4
            &&& 0 <= k % 4 < 4
            &&& y * (4 * w) + x * 4 == 4 * p
            &&& 0 <= p < w * h
        }),
{
    let p = k / 4;
    vstd::arithmetic::div_mod::lemma_fundamental_div_mod(k, 4);
    vstd::arithmetic::div_mod::lemma_fundamental_div_mod(p, w);
    vstd::arithmetic::div_mod::lemma_mod_pos_bound(p, w);
    assert(p < w * h) by (nonlinear_arith)
        requires
            p == k / 4,
            0 <= k < 4 * w * h,
    ;
    assert(0 <= p / w < h) by (nonlinear_arith)
        requires
            0 <= p < w * h,
            w > 0,
    ;
    assert((p / w) * (4 * w) + (p % w) * 4 == 4 * (w * (p / w) + p % w)) by (nonlinear_arith);
}

/// A `CF_DIBV5` image the writer produces decodes back to the same RGBA
/// pixels, for every image within the decoder's limits.
pub proof fn lemma_written_dib_decodes_back(width: u32, height: u32, rgba: Seq<u8>)
    requires
        0 < width <= MAX_IMAGE_WIDTH,
        0 < height <= MAX_IMAGE_HEIGHT,
        width * height <= MAX_IMAGE_PIXELS,
        rgba.len() == 4 * width * height,
        124 + rgba.len() <= MAX_CLIPBOARD_BLOCK_BYTES,
    ensures
        dib_v5_write_result(width, height, rgba) matches Ok(bytes) && dib_accepts(bytes) && dib_rgba(bytes) == rgba,
{
    assert(width * height <= 16_384 * 16_384) by (nonlinear_arith)
        requires
            width <= 16_384,
            height <= 16_384,
    ;
    let pixels = bgra_of(rgba);
    let header = dib_v5_header(width, height, (rgba.len() % 0x1_0000_0000) as u32);
    let b = header + pixels;
    assert(dib_v5_write_result(width, height, rgba) == Ok::<Seq<u8>, ClipboardWriterError>(b));
    lemma_written_header(width, height, (rgba.len() % 0x1_0000_0000) as u32, pixels);
    lemma_written_masks();
    let w = width as int;
    let h = height as int;
    assert(dib_width(b) == w);
    assert(dib_height(b) == h);
    assert(dib_stride(b) == 4 * w) by {
        assert((w * 32 + 31) / 32 == w);
    }
    assert(dib_stride(b) * dib_height(b) == 4 * w * h) by (nonlinear_arith)
        requires
            dib_stride(b) == 4 * w,
            dib_height(b) == h,
    ;
    assert(dib_accepts(b));
    assert forall|k: int| 0 <= k < rgba.len() implies #[trigger] dib_rgba(b)[k] == rgba[k] by {
        lemma_byte_position(w, h, k);
        let p = k / 4;
        let offset = 124 + 4 * p;
        assert(dib_source_offset(b, p % w, p / w) == offset);
        assert(rgba.len() == 4 * (w * h)) by (nonlinear_arith)
            requires
                rgba.len() == 4 * w * h,
        ;
        assert(4 * p + 3 < rgba.len());
        assert((4 * p) % 4 == 0 && (4 * p + 1) % 4 == 1 && (4 * p + 2) % 4 == 2 && (4 * p + 3) % 4 == 3);
        assert(b[124 + 4 * p] == pixels[4 * p]);
        assert(b[124 + (4 * p + 1)] == pixels[4 * p + 1]);
        assert(b[124 + (4 * p + 2)] == pixels[4 * p + 2]);
        assert(b[124 + (4 * p + 3)] == pixels[4 * p + 3]);
        assert(b[offset] == rgba[4 * p + 2]);
        assert(b[offset + 1] == rgba[4 * p + 1]);
        assert(b[offset + 2] == rgba[4 * p]);
        assert(b[offset + 3] == rgba[4 * p + 3]);
        lemma_written_pixel(rgba[4 * p + 2], rgba[4 * p + 1], rgba[4 * p], rgba[4 * p + 3]);
    }
    assert(dib_rgba(b) =~= rgba);
}

} // verus!
