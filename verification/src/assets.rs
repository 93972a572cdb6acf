//! Images and text files: byte order marks, PNG decoding and resizing.
use crate::text::{chars_of, string_of};
use image::codecs::png::PngDecoder;
use image::{ColorType, ImageDecoder, ImageFormat, RgbaImage};
use fast_image_resize::{FilterType, ResizeAlg, ResizeOptions, Resizer};
use std::io::Cursor;
use vstd::prelude::*;
use vstd::slice::slice_subrange;

verus! {

/// An error of the `image` crate.
#[verifier::external_type_specification]
#[verifier::external_body]
pub struct ExImageError(image::ImageError);

/// An error of the `fast_image_resize` crate.
#[verifier::external_type_specification]
#[verifier::external_body]
pub struct ExResizeError(fast_image_resize::ResizeError);

/// The bytes without a leading UTF-8 byte order mark.
pub open spec fn unmarked(bytes: Seq<u8>) -> Seq<u8> {
    if seq![0xEFu8, 0xBBu8, 0xBFu8].is_prefix_of(bytes) {
        bytes.skip(3)
    } else {
        bytes
    }
}

/// The bytes of a file without a leading UTF-8 byte order mark.
pub fn without_byte_order_mark(bytes: &[u8]) -> (r: &[u8])
    ensures
        r@ == unmarked(bytes@),
{
    let ghost mark = seq![0xEFu8, 0xBBu8, 0xBFu8];
    if bytes.len() >= 3 && bytes[0] == 0xEF && bytes[1] == 0xBB && bytes[2] == 0xBF {
        assert(mark.is_prefix_of(bytes@)) by {
            assert(bytes@.subrange(0, 3) =~= mark);
        }
        let rest = slice_subrange(bytes, 3, bytes.len());
        assert(rest@ =~= bytes@.skip(3));
        rest
    } else {
        assert(!mark.is_prefix_of(bytes@)) by {
            if mark.is_prefix_of(bytes@) {
                assert(mark[0] == bytes@[0] && mark[1] == bytes@[1] && mark[2] == bytes@[2]);
            }
        }
        bytes
    }
}

/// The text without a leading byte order mark.
pub open spec fn unmarked_text(text: Seq<char>) -> Seq<char> {
    if text.len() > 0 && text[0] == '\u{feff}' {
        text.skip(1)
    } else {
        text
    }
}

/// A text without a leading byte order mark.
pub fn text_without_byte_order_mark(text: &str) -> (r: String)
    ensures
        r@ == unmarked_text(text@),
{
    let chars = chars_of(text);
    if chars.len() > 0 && chars[0] == '\u{feff}' {
        string_of(&chars, 1, chars.len())
    } else {
        text.to_string()
    }
}

/// An image with four bytes per pixel: red, green, blue and alpha.
#[derive(Debug)]
pub struct PixelImage {
    pub width: u32,
    pub height: u32,
    pub pixels: Vec<u8>,
}

impl PixelImage {
    /// There are four bytes for every pixel.
    pub open spec fn well_formed(self) -> bool {
        self.pixels@.len() == 4 * self.width * self.height
    }
}

impl Clone for PixelImage {
    fn clone(&self) -> (r: PixelImage)
        ensures
            r.width == self.width,
            r.height == self.height,
            r.pixels@ == self.pixels@,
    {
        let mut pixels: Vec<u8> = Vec::new();
        let mut i: usize = 0;
        while i < self.pixels.len()
            invariant
                i <= self.pixels@.len(),
                pixels@ == self.pixels@.take(i as int),
            decreases self.pixels@.len() - i,
        {
            pixels.push(self.pixels[i]);
            i = i + 1;
        }
        PixelImage { width: self.width, height: self.height, pixels }
    }
}

/// What the header of a PNG file says.
#[derive(Debug)]
pub struct PngHeader {
    pub width: u32,
    pub height: u32,
    /// The pixels have eight bits for each of red, green, blue and alpha.
    pub rgba8: bool,
    /// The name of the pixel layout.
    pub color: String,
}

/// The header of a PNG file as a mathematical value.
#[verifier::ext_equal]
pub struct PngHeaderView {
    pub width: u32,
    pub height: u32,
    pub rgba8: bool,
    pub color: Seq<char>,
}

impl View for PngHeader {
    type V = PngHeaderView;

    open spec fn view(&self) -> PngHeaderView {
        PngHeaderView {
            width: self.width,
            height: self.height,
            rgba8: self.rgba8,
            color: self.color@,
        }
    }
}

/// The header that `PngDecoder::new` reads in the bytes of a file, or `None` when
/// they are not the beginning of a PNG file.
pub uninterp spec fn png_header(bytes: Seq<u8>) -> Option<PngHeaderView>;

/// The pixels that `PngDecoder` decodes from the bytes of a file, or `None` when
/// they do not decode.
pub uninterp spec fn png_pixels(bytes: Seq<u8>) -> Option<Seq<u8>>;

/// The image that a PNG file holds, brought to four bytes per pixel: width,
/// height and pixels. `None` when the bytes do not decode as PNG.
pub uninterp spec fn png_as_rgba8(bytes: Seq<u8>) -> Option<(u32, u32, Seq<u8>)>;

/// `PngDecoder::new`: reads the header, which depends on the bytes alone.
#[verifier::external_body]
fn read_png_header(bytes: &[u8]) -> (r: Result<PngHeader, image::ImageError>)
    ensures
        match r {
            Ok(header) => png_header(bytes@) == Some(header@),
            Err(_) => png_header(bytes@) is None,
        },
{
    let decoder = PngDecoder::new(Cursor::new(bytes))?;
    let (width, height) = decoder.dimensions();
    let rgba8 = decoder.color_type() == ColorType::Rgba8;
    Ok(PngHeader { width, height, rgba8, color: format!("{:?}", decoder.color_type()) })
}

/// `PngDecoder::read_image` on a file whose pixels have four bytes: the pixels
/// depend on the bytes alone and fill the image.
#[verifier::external_body]
fn read_png_pixels(bytes: &[u8]) -> (r: Result<Vec<u8>, image::ImageError>)
    requires
        png_header(bytes@) is Some,
        png_header(bytes@)->0.rgba8,
        4 * png_header(bytes@)->0.width * png_header(bytes@)->0.height <= usize::MAX / 2,
    ensures
        match r {
            Ok(pixels) => png_pixels(bytes@) == Some(pixels@) && pixels@.len() == 4 * png_header(
                bytes@,
            )->0.width * png_header(bytes@)->0.height,
            Err(_) => png_pixels(bytes@) is None,
        },
{
    let decoder = PngDecoder::new(Cursor::new(bytes))?;
    let mut pixels = vec![0u8; decoder.total_bytes() as usize];
    decoder.read_image(&mut pixels)?;
    Ok(pixels)
}

/// `image::load_from_memory_with_format` for PNG, followed by
/// `DynamicImage::to_rgba8`: the image depends on the bytes alone, and has four
/// bytes per pixel.
#[verifier::external_body]
fn load_png_as_rgba8(bytes: &Vec<u8>) -> (r: Result<PixelImage, image::ImageError>)
    ensures
        match r {
            Ok(image) => image.well_formed() && png_as_rgba8(bytes@) == Some(
                (image.width, image.height, image.pixels@),
            ),
            Err(_) => png_as_rgba8(bytes@) is None,
        },
{
    let image = image::load_from_memory_with_format(bytes, ImageFormat::Png)?.to_rgba8();
    let (width, height) = image.dimensions();
    Ok(PixelImage { width, height, pixels: image.into_raw() })
}

/// Every byte is zero.
pub open spec fn blank(pixels: Seq<u8>) -> bool {
    forall|i: int| 0 <= i < pixels.len() ==> #[trigger] pixels[i] == 0
}

/// The pixels that an image has after `Resizer::resize` with a box filter that takes
/// the alpha channel into account, for images with four bytes per pixel.
pub uninterp spec fn box_resized(
    width: u32,
    height: u32,
    pixels: Seq<u8>,
    to_width: u32,
    to_height: u32,
) -> Seq<u8>;

/// `Resizer::resize` with a box filter that takes the alpha channel into account,
/// into a new image. It succeeds: both images have four bytes per pixel, and the
/// whole source is taken. The pixels depend on the source and the wanted size alone
/// and are named by `box_resized`; a source without pixels leaves the new image
/// blank.
#[verifier::external_body]
fn resize_box(source: &PixelImage, width: u32, height: u32) -> (r: Result<
    PixelImage,
    fast_image_resize::ResizeError,
>)
    requires
        source.well_formed(),
        4 * width * height <= usize::MAX / 2,
    ensures
        match r {
            Ok(image) => {
                &&& image.width == width
                &&& image.height == height
                &&& image.well_formed()
                &&& image.pixels@ == box_resized(
                    source.width,
                    source.height,
                    source.pixels@,
                    width,
                    height,
                )
                &&& source.pixels@.len() == 0 ==> blank(image.pixels@)
            },
            Err(_) => false,
        },
{
    let mut destination = RgbaImage::new(width, height);
    let options = ResizeOptions::new().resize_alg(ResizeAlg::Convolution(FilterType::Box)).use_alpha(true);
    let pixels = source.pixels.clone();
    if let Some(image) = RgbaImage::from_raw(source.width, source.height, pixels) {
        Resizer::new().resize(&image, &mut destination, &options)?;
    }
    Ok(PixelImage { width, height, pixels: destination.into_raw() })
}

/// Why an image could not be used.
pub enum AssetError {
    /// The bytes do not begin like a PNG file.
    Header(image::ImageError),
    /// The pixels have another layout.
    NotRgba8(String),
    /// The image has more pixels than can be addressed.
    TooLarge,
    /// The bytes do not decode.
    Decode(image::ImageError),
    /// The image could not be resized.
    Resize(fast_image_resize::ResizeError),
}

/// The number of bytes of an image can be addressed.
pub open spec fn addressable(width: u32, height: u32) -> bool {
    4 * width * height <= usize::MAX / 2
}

/// Whether the number of bytes of an image can be addressed.
fn is_addressable(width: u32, height: u32) -> (r: bool)
    ensures
        r == addressable(width, height),
{
    assert(width * height <= 0xFFFF_FFFF * 0xFFFF_FFFF) by (nonlinear_arith)
        requires
            width <= 0xFFFF_FFFF,
            height <= 0xFFFF_FFFF,
    ;
    let area: u128 = width as u128 * height as u128;
    let bytes: u128 = 4 * area;
    assert(4 * (width * height) == 4 * width * height) by (nonlinear_arith);
    bytes <= (usize::MAX / 2) as u128
}

/// Decodes a PNG file whose pixels are stored as red, green, blue and alpha of
/// eight bits each.
pub fn decode_rgba8(bytes: &[u8]) -> (r: Result<PixelImage, AssetError>)
    ensures
        match r {
            Ok(image) => {
                &&& png_header(bytes@) is Some
                &&& png_header(bytes@)->0.rgba8
                &&& addressable(image.width, image.height)
                &&& image.width == png_header(bytes@)->0.width
                &&& image.height == png_header(bytes@)->0.height
                &&& png_pixels(bytes@) == Some(image.pixels@)
                &&& image.well_formed()
            },
            Err(AssetError::Header(_)) => png_header(bytes@) is None,
            Err(AssetError::NotRgba8(color)) => png_header(bytes@) is Some && !png_header(
                bytes@,
            )->0.rgba8 && color@ == png_header(bytes@)->0.color,
            Err(AssetError::TooLarge) => png_header(bytes@) is Some && png_header(bytes@)->0.rgba8
                && !addressable(png_header(bytes@)->0.width, png_header(bytes@)->0.height),
            Err(AssetError::Decode(_)) => png_header(bytes@) is Some && png_header(bytes@)->0.rgba8
                && addressable(png_header(bytes@)->0.width, png_header(bytes@)->0.height)
                && png_pixels(bytes@) is None,
            Err(AssetError::Resize(_)) => false,
        },
{
    let header = match read_png_header(bytes) {
        Ok(header) => header,
        Err(error) => {
            return Err(AssetError::Header(error));
        },
    };
    if !header.rgba8 {
        return Err(AssetError::NotRgba8(header.color));
    }
    if !is_addressable(header.width, header.height) {
        return Err(AssetError::TooLarge);
    }
    match read_png_pixels(bytes) {
        Ok(pixels) => Ok(PixelImage { width: header.width, height: header.height, pixels }),
        Err(error) => Err(AssetError::Decode(error)),
    }
}

/// Decodes a PNG file, whatever the layout of its pixels.
pub fn decode_png(bytes: &Vec<u8>) -> (r: Result<PixelImage, AssetError>)
    ensures
        match r {
            Ok(image) => image.well_formed() && png_as_rgba8(bytes@) == Some(
                (image.width, image.height, image.pixels@),
            ),
            Err(error) => error is Decode && png_as_rgba8(bytes@) is None,
        },
{
    match load_png_as_rgba8(bytes) {
        Ok(image) => Ok(image),
        Err(error) => Err(AssetError::Decode(error)),
    }
}

/// Resizes an image. An image that has the wanted size already is returned as it
/// is.
pub fn resize_rgba_box(source: &PixelImage, width: u32, height: u32) -> (r: Result<
    PixelImage,
    AssetError,
>)
    requires
        source.well_formed(),
    ensures
        match r {
            Ok(image) => {
                &&& image.width == width
                &&& image.height == height
                &&& image.well_formed()
                &&& if source.width == width && source.height == height {
                    image.pixels@ == source.pixels@
                } else {
                    &&& addressable(width, height)
                    &&& image.pixels@ == box_resized(
                        source.width,
                        source.height,
                        source.pixels@,
                        width,
                        height,
                    )
                    &&& source.pixels@.len() == 0 ==> blank(image.pixels@)
                }
            },
            Err(error) => {
                &&& error is TooLarge
                &&& source.width != width || source.height != height
                &&& !addressable(width, height)
            },
        },
{
    if source.width == width && source.height == height {
        return Ok(source.clone());
    }
    if !is_addressable(width, height) {
        return Err(AssetError::TooLarge);
    }
    match resize_box(source, width, height) {
        Ok(image) => Ok(image),
        Err(error) => Err(AssetError::Resize(error)),
    }
}

// ----- laws ------------------------------------------------------------------------

/// A byte order mark at the beginning is taken off, once; all else stays.
pub proof fn lemma_byte_order_mark(bytes: Seq<u8>, text: Seq<char>)
    ensures
        unmarked(seq![0xEFu8, 0xBBu8, 0xBFu8] + bytes) == bytes,
        bytes.len() < 3 || bytes[0] != 0xEF || bytes[1] != 0xBB || bytes[2] != 0xBF ==> unmarked(
            bytes,
        ) == bytes,
        unmarked_text(seq!['\u{feff}'] + text) == text,
        text.len() == 0 || text[0] != '\u{feff}' ==> unmarked_text(text) == text,
{
    let mark = seq![0xEFu8, 0xBBu8, 0xBFu8];
    assert((mark + bytes).subrange(0, 3) =~= mark);
    assert(unmarked(mark + bytes) =~= bytes);
    assert((seq!['\u{feff}'] + text).skip(1) =~= text);
    if mark.is_prefix_of(bytes) {
        assert(bytes.subrange(0, 3)[0] == 0xEF && bytes.subrange(0, 3)[1] == 0xBB
            && bytes.subrange(0, 3)[2] == 0xBF);
    }
}

} // verus!
