//! Decoded images, as the `image` crate gives them.

use vstd::prelude::*;

verus! {

/// An image with red, green, blue and alpha bytes, row by row from the top.
pub struct Rgba8 {
    pub width: u32,
    pub height: u32,
    pub pixels: Vec<u8>,
}

/// The mathematical form of such an image.
#[verifier::ext_equal]
pub struct Bitmap {
    pub width: u32,
    pub height: u32,
    pub pixels: Seq<u8>,
}

impl Bitmap {
    /// The number of pixels.
    pub open spec fn area(self) -> int {
        self.width * self.height
    }

    /// Every pixel has its four bytes.
    pub open spec fn wf(self) -> bool {
        4 * self.area() <= self.pixels.len()
    }

    /// The alpha byte of the pixel in column `x` and row `y`.
    pub open spec fn alpha(self, x: int, y: int) -> u8 {
        self.pixels[4 * (y * self.width + x) + 3]
    }
}

impl View for Rgba8 {
    type V = Bitmap;

    open spec fn view(&self) -> Bitmap {
        Bitmap { width: self.width, height: self.height, pixels: self.pixels@ }
    }
}

/// An image of any colour type, carried from the decoder to the functions below.
#[verifier::external_type_specification]
#[verifier::external_body]
pub struct ExDynamicImage(image::DynamicImage);

/// The image that `image::load_from_memory` decodes, if it accepts the bytes.
pub uninterp spec fn decoded_image(data: Seq<u8>) -> Option<image::DynamicImage>;

/// The pixels of an image of eight-bit colours with alpha.
pub uninterp spec fn rgba8_content(img: image::DynamicImage) -> Option<Bitmap>;

/// The grey bytes, row by row, of an image stretched to the given size.
pub uninterp spec fn grey_content(img: image::DynamicImage, width: u32, height: u32) -> Seq<u8>;

/// The width and the height of an image.
pub uninterp spec fn image_size(img: image::DynamicImage) -> (u32, u32);

/// How many bits a pixel of an image has.
pub uninterp spec fn pixel_bits(img: image::DynamicImage) -> u16;

/// How many channels a pixel of an image has.
pub uninterp spec fn channel_number(img: image::DynamicImage) -> u8;

/// The JPEG file of an image scaled down to fit a square.
pub uninterp spec fn thumbnail_file(img: image::DynamicImage, side: u32) -> Option<Seq<u8>>;

/// The dimensions that the header of an image file gives, whatever its format.
pub uninterp spec fn header_dimensions(data: Seq<u8>) -> Option<(u32, u32)>;

/// `image::load_from_memory`: guesses the format and decodes. Its result depends
/// on the bytes alone.
#[verifier::external_body]
pub(crate) fn decode(data: &[u8]) -> (r: Option<image::DynamicImage>)
    ensures
        r == decoded_image(data@),
{
    image::load_from_memory(data).ok()
}

/// The buffer inside `DynamicImage::ImageRgba8`, and nothing for the other
/// variants. The buffer holds four bytes for each pixel.
#[verifier::external_body]
pub(crate) fn rgba8(img: image::DynamicImage) -> (r: Option<Rgba8>)
    ensures
        match r {
            Some(p) => p@.wf() && rgba8_content(img) == Some(p@),
            None => rgba8_content(img) is None,
        },
{
    match img {
        image::DynamicImage::ImageRgba8(b) => Some(
            Rgba8 { width: b.width(), height: b.height(), pixels: b.into_raw() },
        ),
        _ => None,
    }
}

/// `DynamicImage::resize_exact` with the triangle filter, then `into_luma8`: one
/// byte for each pixel of the new size.
#[verifier::external_body]
pub(crate) fn stretched_grey(img: &image::DynamicImage, width: u32, height: u32) -> (r: Vec<u8>)
    requires
        0 < width <= 0x100,
        0 < height <= 0x100,
    ensures
        r@ == grey_content(*img, width, height),
        r@.len() == width * height,
{
    img.resize_exact(width, height, image::imageops::FilterType::Triangle).into_luma8().into_raw()
}

/// `GenericImageView::dimensions`. The result depends on the image alone.
#[verifier::external_body]
fn size_of(img: &image::DynamicImage) -> (r: (u32, u32))
    ensures
        r == image_size(*img),
{
    image::GenericImageView::dimensions(img)
}

/// `ColorType::bits_per_pixel` of `DynamicImage::color`. The result depends on the
/// image alone.
#[verifier::external_body]
fn bits_of(img: &image::DynamicImage) -> (r: u16)
    ensures
        r == pixel_bits(*img),
{
    img.color().bits_per_pixel()
}

/// `ColorType::channel_count` of `DynamicImage::color`. The result depends on the
/// image alone.
#[verifier::external_body]
fn channels_of(img: &image::DynamicImage) -> (r: u8)
    ensures
        r == channel_number(*img),
{
    img.color().channel_count()
}

/// The smaller of two numbers.
pub open spec fn smaller(a: int, b: int) -> int {
    if a < b {
        a
    } else {
        b
    }
}

/// How many pixels of an image at most make one pixel of its thumbnail. The longer
/// side is divided by the side of the thumbnail, the shorter one by what is left of
/// it after rounding, at least two thirds of its share; the divisions are inexact.
pub open spec fn block_bound(width: u32, height: u32, side: u32) -> int {
    let long = if width < height {
        height as int
    } else {
        width as int
    };
    let short = width + height - long;
    let inexact = long / 0x10_0000 + 3;
    smaller(long, long / (side as int) + inexact) * smaller(
        short,
        3 * long / (2 * side) + inexact,
    )
}

/// Whether the pixels that make one pixel of a thumbnail can be summed up in 32 bits:
/// samples of sixteen bits leave room for fewer than those of eight, and others are
/// not summed up as integers.
pub open spec fn can_be_shrunk(img: image::DynamicImage, side: u32) -> bool {
    let (width, height) = image_size(img);
    block_bound(width, height, side) <= if pixel_bits(img) == 16 * channel_number(img) {
        0x1_0000int
    } else {
        0x100_0000int
    }
}

/// Whether an image can be made a thumbnail.
pub(crate) fn is_shrinkable(img: &image::DynamicImage, side: u32) -> (r: bool)
    requires
        0 < side <= 0x1000,
    ensures
        r == can_be_shrunk(*img, side),
{
    let (width, height) = size_of(img);
    let deep = bits_of(img) == 16 * (channels_of(img) as u16);
    let long: u64 = if width < height {
        height as u64
    } else {
        width as u64
    };
    let short: u64 = width as u64 + height as u64 - long;
    let inexact: u64 = long / 0x10_0000 + 3;
    let a: u64 = long / side as u64 + inexact;
    let b: u64 = 3 * long / (2 * side as u64) + inexact;
    let across: u64 = if long < a {
        long
    } else {
        a
    };
    let down: u64 = if short < b {
        short
    } else {
        b
    };
    assert(across * down <= 0xffff_ffff * 0xffff_ffff) by (nonlinear_arith)
        requires
            0 <= across <= 0xffff_ffff,
            0 <= down <= 0xffff_ffff,
    ;
    let block: u64 = across * down;
    if deep {
        block <= 0x1_0000
    } else {
        block <= 0x100_0000
    }
}

/// `DynamicImage::thumbnail`, then `into_rgb8` and `write_to` as JPEG. Its result
/// depends on the image and the side alone. It sums pixels up in 32 bits, and must
/// not be asked for more than fit.
#[verifier::external_body]
pub(crate) fn encode_thumbnail(img: &image::DynamicImage, side: u32) -> (r: Option<Vec<u8>>)
    requires
        0 < side <= 0x1000,
        can_be_shrunk(*img, side),
    ensures
        match r {
            Some(f) => thumbnail_file(*img, side) == Some(f@),
            None => thumbnail_file(*img, side) is None,
        },
{
    let mut out = std::io::Cursor::new(Vec::new());
    img.thumbnail(side, side).into_rgb8().write_to(&mut out, image::ImageFormat::Jpeg).ok()?;
    Some(out.into_inner())
}

/// `image::ImageReader::into_dimensions` after `with_guessed_format`: reads the
/// header without decoding pixels. Its result depends on the bytes alone.
#[verifier::external_body]
pub(crate) fn read_dimensions(data: &[u8]) -> (r: Option<(u32, u32)>)
    ensures
        r == header_dimensions(data@),
{
    image::ImageReader::new(std::io::Cursor::new(data)).with_guessed_format().ok()?.into_dimensions().ok()
}

} // verus!
