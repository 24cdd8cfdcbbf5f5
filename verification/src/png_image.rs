//! Registered "PNG" clipboard blocks: the `png` crate decodes, the library
//! bounds the image and converts its pixels to RGBA.
use vstd::prelude::*;

use crate::history::ImageError;
use crate::dib::{ClipboardImage, MAX_CLIPBOARD_BLOCK_BYTES, MAX_IMAGE_HEIGHT, MAX_IMAGE_PIXELS,
    MAX_IMAGE_WIDTH, MAX_RGBA_BYTES};

verus! {

/// The colour layout of a decoded PNG frame.
#[derive(Debug, Clone, Copy, PartialEq, Eq, Structural)]
pub enum PngColor {
    Grayscale,
    Rgb,
    Indexed,
    GrayscaleAlpha,
    Rgba,
}

/// Width and height from the header of the PNG in `bytes`, or `None` when
/// its header does not decode.
pub uninterp spec fn png_dimensions(bytes: Seq<u8>) -> Option<(u32, u32)>;

/// Bytes the decoder needs for one expanded, 8-bit frame of the PNG in `bytes`.
pub uninterp spec fn png_output_size(bytes: Seq<u8>) -> nat;

/// The first frame of the PNG in `bytes`, expanded to 8 bits per sample, or
/// `None` when it does not decode.
pub uninterp spec fn png_frame(bytes: Seq<u8>) -> Option<(PngColor, Seq<u8>)>;

/// Reads the header of a PNG with `png::Decoder::read_info`, decoding with
/// `EXPAND | STRIP_16`; gives the header's width and height.
#[verifier::external_body]
fn png_read_dimensions(bytes: &[u8]) -> (result: Option<(u32, u32)>)
    ensures
        result == png_dimensions(bytes@),
{
    let mut decoder = png::Decoder::new(bytes);
    decoder.set_transformations(png::Transformations::EXPAND | png::Transformations::STRIP_16);
    let reader = decoder.read_info().ok()?;
    let info = reader.info();
    Some((info.width, info.height))
}

/// `png::Reader::output_buffer_size` of the PNG, for a header whose
/// dimensions are small enough that the size cannot overflow.
#[verifier::external_body]
fn png_read_output_size(bytes: &[u8]) -> (result: usize)
    requires
        png_dimensions(bytes@) matches Some((w, h)) && w <= MAX_IMAGE_WIDTH && h <= MAX_IMAGE_HEIGHT,
    ensures
        result == png_output_size(bytes@),
{
    let mut decoder = png::Decoder::new(bytes);
    decoder.set_transformations(png::Transformations::EXPAND | png::Transformations::STRIP_16);
    match decoder.read_info() {
        Ok(reader) => reader.output_buffer_size(),
        Err(_) => 0,
    }
}

/// Decodes the first frame with `png::Reader::next_frame` into a buffer of
/// `output_size` bytes and keeps the frame's `buffer_size()` bytes and colour type.
#[verifier::external_body]
fn png_read_frame(bytes: &[u8], output_size: usize) -> (result: Option<(PngColor, Vec<u8>)>)
    requires
        png_dimensions(bytes@) matches Some((w, h)) && w <= MAX_IMAGE_WIDTH && h <= MAX_IMAGE_HEIGHT,
        output_size == png_output_size(bytes@),
    ensures
        match result {
            Some((color, data)) => png_frame(bytes@) == Some((color, data@)),
            None => png_frame(bytes@) is None,
        },
{
    let mut decoder = png::Decoder::new(bytes);
    decoder.set_transformations(png::Transformations::EXPAND | png::Transformations::STRIP_16);
    let mut reader = decoder.read_info().ok()?;
    let mut decoded = vec![0_u8; output_size];
    let output = reader.next_frame(&mut decoded).ok()?;
    decoded.truncate(output.buffer_size());
    let color = match output.color_type {
        png::ColorType::Grayscale => PngColor::Grayscale,
        png::ColorType::Rgb => PngColor::Rgb,
        png::ColorType::Indexed => PngColor::Indexed,
        png::ColorType::GrayscaleAlpha => PngColor::GrayscaleAlpha,
        png::ColorType::Rgba => PngColor::Rgba,
    };
    Some((color, decoded))
}

/// The RGBA pixels of a decoded frame (whole pixels only); `None` for an
/// indexed frame, which expansion should never leave behind.
pub open spec fn png_pixels_rgba(color: PngColor, data: Seq<u8>) -> Option<Seq<u8>> {
    match color {
        PngColor::Rgba => Some(data),
        PngColor::Rgb => Some(
            Seq::new(
                (data.len() / 3 * 4) as nat,
                |i: int| if i % 4 == 3 { 255u8 } else { data[i / 4 * 3 + i % 4] },
            ),
        ),
        PngColor::Grayscale => Some(
            Seq::new(
                (data.len() * 4) as nat,
                |i: int| if i % 4 == 3 { 255u8 } else { data[i / 4] },
            ),
        ),
        PngColor::GrayscaleAlpha => Some(
            Seq::new(
                (data.len() / 2 * 4) as nat,
                |i: int| if i % 4 == 3 { data[i / 4 * 2 + 1] } else { data[i / 4 * 2] },
            ),
        ),
        PngColor::Indexed => None,
    }
}

/// The image a decoded frame makes: its RGBA pixels when they are exactly
/// `width * height` pixels.
pub open spec fn png_frame_image(width: u32, height: u32, color: PngColor, data: Seq<u8>) -> Option<
    Seq<u8>,
> {
    if data.len() > MAX_RGBA_BYTES {
        None
    } else {
    match png_pixels_rgba(color, data) {
        Some(rgba) => if rgba.len() == 4 * width * height {
            Some(rgba)
        } else {
            None
        },
        None => None,
    }
    }
}

/// The image a registered PNG block decodes to, or `None` when it is out of
/// size bounds, does not decode or has the wrong pixel count.
pub open spec fn png_image(bytes: Seq<u8>) -> Option<(u32, u32, Seq<u8>)> {
    if bytes.len() < 8 || bytes.len() > MAX_CLIPBOARD_BLOCK_BYTES {
        None
    } else {
        match png_dimensions(bytes) {
            None => None,
            Some((w, h)) => if w > MAX_IMAGE_WIDTH || h > MAX_IMAGE_HEIGHT || w * h
                > MAX_IMAGE_PIXELS {
                None
            } else if png_output_size(bytes) > MAX_RGBA_BYTES {
                None
            } else {
                match png_frame(bytes) {
                    None => None,
                    Some((color, data)) => match png_frame_image(w, h, color, data) {
                        Some(rgba) => Some((w, h, rgba)),
                        None => None,
                    },
                }
            },
        }
    }
}

/// Converts a decoded frame of `width` x `height` pixels to an RGBA image.
pub fn png_frame_to_rgba(width: u32, height: u32, color: PngColor, data: Vec<u8>) -> (result: Result<
    ClipboardImage,
    (),
>)
    requires
        width <= MAX_IMAGE_WIDTH,
        height <= MAX_IMAGE_HEIGHT,
    ensures
        match png_frame_image(width, height, color, data@) {
            Some(rgba) => result matches Ok(image) && image.width == width && image.height
                == height && image.rgba@ == rgba,
            None => result is Err,
        },
{
    let ghost d = data@;
    if data.len() > MAX_RGBA_BYTES {
        return Err(());
    }
    let rgba: Vec<u8> = match color {
        PngColor::Rgba => data,
        PngColor::Rgb => {
            let mut out: Vec<u8> = Vec::new();
            let mut p: usize = 0;
            while p < data.len() / 3
                invariant
                    p <= data@.len() / 3,
                    data@ == d,
                    out@.len() == 4 * p,
                    forall|i: int| 0 <= i < 4 * p ==> out@[i] == (if i % 4 == 3 { 255u8 } else {
                        d[i / 4 * 3 + i % 4]
                    }),
                decreases data.len() / 3 - p,
            {
                out.push(data[3 * p]);
                out.push(data[3 * p + 1]);
                out.push(data[3 * p + 2]);
                out.push(255);
                p += 1;
            }
            out
        },
        PngColor::Grayscale => {
            let mut out: Vec<u8> = Vec::new();
            let mut p: usize = 0;
            while p < data.len()
                invariant
                    p <= data@.len(),
                    data@ == d,
                    data@.len() <= MAX_RGBA_BYTES,
                    out@.len() == 4 * p,
                    forall|i: int| 0 <= i < 4 * p ==> out@[i] == (if i % 4 == 3 { 255u8 } else {
                        d[i / 4]
                    }),
                decreases data.len() - p,
            {
                let value = data[p];
                out.push(value);
                out.push(value);
                out.push(value);
                out.push(255);
                p += 1;
            }
            out
        },
        PngColor::GrayscaleAlpha => {
            let mut out: Vec<u8> = Vec::new();
            let mut p: usize = 0;
            while p < data.len() / 2
                invariant
                    p <= data@.len() / 2,
                    data@ == d,
                    out@.len() == 4 * p,
                    forall|i: int| 0 <= i < 4 * p ==> out@[i] == (if i % 4 == 3 { d[i / 4 * 2 + 1] } else {
                        d[i / 4 * 2]
                    }),
                decreases data.len() / 2 - p,
            {
                let value = data[2 * p];
                out.push(value);
                out.push(value);
                out.push(value);
                out.push(data[2 * p + 1]);
                p += 1;
            }
            out
        },
        PngColor::Indexed => {
            return Err(());
        },
    };
    assert((width as u64) * (height as u64) <= 16384 * 16384) by (nonlinear_arith)
        requires
            width <= 16384,
            height <= 16384,
    ;
    let expected: u64 = (width as u64) * (height as u64) * 4;
    assert(expected as int == 4 * width * height) by (nonlinear_arith)
        requires
            expected == (width as u64) * (height as u64) * 4,
    ;
    proof {
        assert(rgba@ =~= png_pixels_rgba(color, d).unwrap());
    }
    if rgba.len() as u64 != expected {
        return Err(());
    }
    proof {
        assert(rgba@ =~= png_pixels_rgba(color, d).unwrap());
    }
    Ok(ClipboardImage { width, height, rgba })
}

/// Decodes a registered PNG clipboard block into an RGBA image.
pub fn parse_png(bytes: &[u8]) -> (result: Result<ClipboardImage, ()>)
    ensures
        match png_image(bytes@) {
            Some((w, h, rgba)) => result matches Ok(image) && image.width == w && image.height == h
                && image.rgba@ == rgba,
            None => result is Err,
        },
        result matches Ok(image) ==> image.rgba@.len() == 4 * image.width * image.height,
{
    if bytes.len() < 8 || bytes.len() > MAX_CLIPBOARD_BLOCK_BYTES {
        return Err(());
    }
    let (width, height) = match png_read_dimensions(bytes) {
        Some(size) => size,
        None => {
            return Err(());
        },
    };
    assert((width as u64) * (height as u64) <= 0xffff_ffff * 0xffff_ffff) by (nonlinear_arith);
    let pixels: u64 = (width as u64) * (height as u64);
    if width > MAX_IMAGE_WIDTH || height > MAX_IMAGE_HEIGHT || pixels > MAX_IMAGE_PIXELS {
        return Err(());
    }
    let output_size = png_read_output_size(bytes);
    if output_size > MAX_RGBA_BYTES {
        return Err(());
    }
    let (color, data) = match png_read_frame(bytes, output_size) {
        Some(frame) => frame,
        None => {
            return Err(());
        },
    };
    png_frame_to_rgba(width, height, color, data)
}

/// The PNG encoding of the RGBA image of `width` by `height` whose pixels
/// are `rgba`, 8 bits per sample, or `None` when the encoder refuses it.
pub uninterp spec fn png_encoding(width: u32, height: u32, rgba: Seq<u8>) -> Option<Seq<u8>>;

/// Encodes with `png::Encoder` as 8-bit RGBA. The encoder refuses a zero
/// width or height and pixel data whose length is not `4 * width * height`,
/// and writes into a `Vec` without failing otherwise.
#[verifier::external_body]
fn png_write(width: u32, height: u32, rgba: &[u8]) -> (result: Option<Vec<u8>>)
    requires
        width <= MAX_IMAGE_WIDTH,
        height <= MAX_IMAGE_HEIGHT,
    ensures
        match result {
            Some(bytes) => png_encoding(width, height, rgba@) == Some(bytes@),
            None => png_encoding(width, height, rgba@) is None,
        },
        result is Some <==> (width > 0 && height > 0 && rgba@.len() == 4 * width * height),
{
    let mut bytes = Vec::new();
    {
        let mut encoder = png::Encoder::new(&mut bytes, width, height);
        encoder.set_color(png::ColorType::Rgba);
        encoder.set_depth(png::BitDepth::Eight);
        let mut writer = encoder.write_header().ok()?;
        writer.write_image_data(rgba).ok()?;
    }
    Some(bytes)
}

/// Encodes an RGBA image of `width` by `height` as a PNG with 8 bits per
/// sample; `Encode` when the dimensions are zero or the pixels do not fill
/// the image exactly.
pub fn encode_png(width: u32, height: u32, rgba: &[u8]) -> (result: Result<Vec<u8>, ImageError>)
    requires
        width <= MAX_IMAGE_WIDTH,
        height <= MAX_IMAGE_HEIGHT,
    ensures
        match png_encoding(width, height, rgba@) {
            Some(bytes) => result matches Ok(encoded) && encoded@ == bytes,
            None => result == Err::<Vec<u8>, ImageError>(ImageError::Encode),
        },
        result is Ok <==> (width > 0 && height > 0 && rgba@.len() == 4 * width * height),
{
    match png_write(width, height, rgba) {
        Some(bytes) => Ok(bytes),
        None => Err(ImageError::Encode),
    }
}

} // verus!
