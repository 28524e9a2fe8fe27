//! The `bmp` crate's image type, and what this library relies on of it.
//!
//! A `bmp::Image` is opaque to the verifier. The spec functions below name
//! what it holds, and each wrapper states, over those names, what the
//! method it calls does. None of these contracts is proved: they record what
//! the `bmp` crate's source shows.
use vstd::prelude::*;
use crate::pixel::Pixel;

verus! {

/// Makes `bmp::Image` known to the verifier, as a type whose inside it
/// cannot see.
#[verifier::external_type_specification]
#[verifier::external_body]
pub struct ExImage(bmp::Image);

/// Makes `bmp::BmpError`, the reason why a file could not be decoded, known
/// to the verifier. Nothing is read from it.
#[verifier::external_type_specification]
#[verifier::external_body]
pub struct ExBmpError(bmp::BmpError);

/// The width of an image, in pixels.
pub uninterp spec fn image_width(img: bmp::Image) -> u32;

/// The height of an image, in pixels.
pub uninterp spec fn image_height(img: bmp::Image) -> u32;

/// The pixels of an image, by `(x, y)` with `(0, 0)` in the upper left
/// corner. Only the points inside the image matter.
pub uninterp spec fn image_pixels(img: bmp::Image) -> Map<(u32, u32), Pixel>;

/// The two 16-bit creator fields of the file header that an image carries
/// along. They are zero in a new image and are kept from the file in a
/// decoded one.
pub uninterp spec fn image_creator(img: bmp::Image) -> (u16, u16);

/// What the `bmp` crate's encoder gives for an image of the given size,
/// pixels and creator fields: the bytes of the 24-bit bitmap file that it
/// writes, or `None` where it reports an error and writes no file.
pub uninterp spec fn bmp_file(
    width: u32,
    height: u32,
    pixels: Map<(u32, u32), Pixel>,
    creator: (u16, u16),
) -> Option<Seq<u8>>;

/// The widest image whose row length the `bmp` crate computes exactly: it
/// does so in single-precision floating point, which holds integers up to
/// 2^24, and the largest intermediate value is 24 * width + 31.
pub const MAX_WIDTH: u32 = 699_049;

/// The bytes in one stored row of a 24-bit bitmap: three per pixel, padded
/// to a multiple of four.
pub open spec fn row_len(width: int) -> int {
    3 * width + width % 4
}

/// The length of the bitmap file for an image of the given size: a 54-byte
/// header and the rows.
pub open spec fn file_len(width: int, height: int) -> int {
    54 + height * row_len(width)
}

/// Whether the `bmp` crate can hold and write an image of the given size
/// without overflowing its 32-bit arithmetic.
pub open spec fn representable(width: int, height: int) -> bool {
    &&& 0 <= width <= MAX_WIDTH
    &&& 0 <= height
    &&& file_len(width, height) <= u32::MAX
}

/// The pixels inside an image: `image_pixels` cut down to the points
/// `(x, y)` with `x` below the width and `y` below the height.
pub open spec fn image_raster(img: bmp::Image) -> Map<(u32, u32), Pixel> {
    Map::new(
        |p: (u32, u32)| p.0 < image_width(img) && p.1 < image_height(img),
        |p: (u32, u32)| image_pixels(img)[p],
    )
}

/// Calls `bmp::Image::new`. Trusted: the image has the size asked for,
/// every pixel in it is black and its creator fields are zero. Sizes that
/// overflow the crate's arithmetic are left out.
#[verifier::external_body]
pub(crate) fn image_new(width: u32, height: u32) -> (img: bmp::Image)
    requires
        representable(width as int, height as int),
    ensures
        image_width(img) == width,
        image_height(img) == height,
        image_creator(img) == (0u16, 0u16),
        forall|x: u32, y: u32|
            x < width && y < height ==> #[trigger] image_pixels(img)[(x, y)] == Pixel::black(),
{
    bmp::Image::new(width, height)
}

/// Calls `bmp::Image::get_width`.
#[verifier::external_body]
pub(crate) fn image_get_width(img: &bmp::Image) -> (width: u32)
    ensures
        width == image_width(*img),
{
    img.get_width()
}

/// Calls `bmp::Image::get_height`.
#[verifier::external_body]
pub(crate) fn image_get_height(img: &bmp::Image) -> (height: u32)
    ensures
        height == image_height(*img),
{
    img.get_height()
}

/// Calls `bmp::Image::get_pixel`. Trusted: the result is the pixel at
/// `(x, y)`. Points outside the image, for which the crate's index
/// arithmetic fails, are left out.
#[verifier::external_body]
pub(crate) fn image_get_pixel(img: &bmp::Image, x: u32, y: u32) -> (p: Pixel)
    requires
        x < image_width(*img),
        y < image_height(*img),
        image_width(*img) * image_height(*img) <= u32::MAX,
    ensures
        p == image_pixels(*img)[(x, y)],
{
    let px = img.get_pixel(x, y);
    Pixel { r: px.r, g: px.g, b: px.b }
}

/// Calls `bmp::Image::set_pixel`. Trusted: the pixel at `(x, y)` becomes
/// `p`, and every other pixel, the size and the creator fields stay as they
/// were. Points outside the image are left out.
#[verifier::external_body]
pub(crate) fn image_set_pixel(img: &mut bmp::Image, x: u32, y: u32, p: Pixel)
    requires
        x < image_width(*old(img)),
        y < image_height(*old(img)),
        image_width(*old(img)) * image_height(*old(img)) <= u32::MAX,
    ensures
        image_pixels(*final(img)) == image_pixels(*old(img)).insert((x, y), p),
        image_width(*final(img)) == image_width(*old(img)),
        image_height(*final(img)) == image_height(*old(img)),
        image_creator(*final(img)) == image_creator(*old(img)),
{
    img.set_pixel(x, y, bmp::Pixel { r: p.r, g: p.g, b: p.b });
}

/// Calls `bmp::Image::to_writer` on an empty byte vector. Trusted: whether
/// the call reports an error, and what it writes if it does not, depend on
/// the image's size, the pixels inside it and its creator fields alone;
/// that outcome is named `bmp_file`. Nothing is claimed about which of the
/// two it is. Sizes that overflow the crate's arithmetic are left out.
#[verifier::external_body]
pub(crate) fn image_encode(img: &bmp::Image) -> (out: Option<Vec<u8>>)
    requires
        representable(image_width(*img) as int, image_height(*img) as int),
    ensures
        match out {
            Some(bytes) => bmp_file(
                image_width(*img),
                image_height(*img),
                image_raster(*img),
                image_creator(*img),
            ) == Some(bytes@),
            None => bmp_file(
                image_width(*img),
                image_height(*img),
                image_raster(*img),
                image_creator(*img),
            ) is None,
        },
{
    let mut bytes: Vec<u8> = Vec::new();
    match img.to_writer(&mut bytes) {
        Ok(()) => Some(bytes),
        Err(_) => None,
    }
}

} // verus!
