//! The pixel store: the square raster that backs a volume.
//!
//! The store owns a `bmp::Image`. Every access goes straight to the image,
//! so a pixel that was set is what the next access sees. Whoever changes
//! the raster holds it by `&mut`, so no two operations touch it at once; a
//! host that shares a volume between threads keeps it behind a lock.
use vstd::prelude::*;
use crate::error::Error;
use crate::image::{
    bmp_file, image_creator, image_encode, image_get_height, image_get_pixel, image_get_width,
    image_height, image_new, image_raster, image_set_pixel, image_width, representable, row_len,
    MAX_WIDTH,
};
use crate::pixel::Pixel;

verus! {

/// A `D` by `D` raster of RGB pixels.
pub struct PixelStore {
    image: bmp::Image,
}

/// The raster of side `dimension` in which every pixel is black.
pub open spec fn blank_raster(dimension: u32) -> Map<(u32, u32), Pixel> {
    Map::new(|p: (u32, u32)| p.0 < dimension && p.1 < dimension, |p: (u32, u32)| Pixel::black())
}

/// Whether a raster of side `dimension` can be written as a bitmap file.
/// The largest side for which it can is 37837.
pub open spec fn fits(dimension: int) -> bool {
    representable(dimension, dimension)
}

/// Decides `representable` for a given size.
pub fn can_represent(width: u32, height: u32) -> (ok: bool)
    ensures
        ok == representable(width as int, height as int),
{
    if width > MAX_WIDTH {
        return false;
    }
    let row: u64 = 3 * (width as u64) + (width % 4) as u64;
    assert(row == row_len(width as int));
    assert(height as int * row as int <= 0xffff_ffff * 2_097_150) by (nonlinear_arith)
        requires
            0 <= height <= 0xffff_ffff,
            0 <= row <= 2_097_150,
    ;
    let rows: u64 = height as u64 * row;
    54 + rows <= u32::MAX as u64
}

impl View for PixelStore {
    type V = Map<(u32, u32), Pixel>;

    /// The pixels of the raster, by `(x, y)` with `(0, 0)` in the upper left
    /// corner. The domain is exactly the grid.
    closed spec fn view(&self) -> Map<(u32, u32), Pixel> {
        image_raster(self.image)
    }
}

impl PixelStore {
    /// The side `D` of the raster.
    pub closed spec fn dimension(&self) -> u32 {
        image_width(self.image)
    }

    /// The creator fields that the raster's file header carries.
    pub closed spec fn creator(&self) -> (u16, u16) {
        image_creator(self.image)
    }

    /// The raster is square and small enough to be written as a bitmap.
    pub closed spec fn wf(&self) -> bool {
        &&& image_width(self.image) == image_height(self.image)
        &&& fits(image_width(self.image) as int)
    }

    /// The bitmap file that holds this raster, or `None` if the encoder
    /// writes none for it.
    pub open spec fn file(&self) -> Option<Seq<u8>> {
        bmp_file(self.dimension(), self.dimension(), self@, self.creator())
    }

    /// A well-formed store fits in a bitmap file and holds exactly the
    /// points of its grid.
    pub proof fn lemma_domain(&self)
        requires
            self.wf(),
        ensures
            fits(self.dimension() as int),
            forall|p: (u32, u32)|
                self@.dom().contains(p) <==> p.0 < self.dimension() && p.1 < self.dimension(),
    {
    }

    /// A blank raster of side `dimension`, every pixel black. Refused when
    /// a raster of that side cannot be written as a bitmap file.
    pub fn blank(dimension: u32) -> (r: Result<PixelStore, Error>)
        ensures
            r is Ok <==> fits(dimension as int),
            r matches Ok(s) ==> {
                &&& s.wf()
                &&& s.dimension() == dimension
                &&& s@ == blank_raster(dimension)
                &&& s.creator() == (0u16, 0u16)
            },
            r matches Err(e) ==> e == Error::TooLarge,
    {
        if !can_represent(dimension, dimension) {
            return Err(Error::TooLarge);
        }
        let image = image_new(dimension, dimension);
        let s = PixelStore { image };
        assert(s@ =~= blank_raster(dimension));
        Ok(s)
    }

    /// Takes over a decoded image as the raster, with the size that the
    /// image has. Refused when the image is not square, or too large to be
    /// written back.
    pub fn adopt(image: bmp::Image) -> (r: Result<PixelStore, Error>)
        ensures
            r is Ok <==> image_width(image) == image_height(image) && fits(
                image_width(image) as int,
            ),
            r matches Ok(s) ==> {
                &&& s.wf()
                &&& s.dimension() == image_width(image)
                &&& s@ == image_raster(image)
                &&& s.creator() == image_creator(image)
            },
            r matches Err(e) ==> e == (if image_width(image) != image_height(image) {
                Error::NotSquare
            } else {
                Error::TooLarge
            }),
    {
        let width = image_get_width(&image);
        let height = image_get_height(&image);
        if width != height {
            return Err(Error::NotSquare);
        }
        if !can_represent(width, height) {
            return Err(Error::TooLarge);
        }
        Ok(PixelStore { image })
    }

    /// The width of the raster, `D`.
    pub fn width(&self) -> (w: u32)
        ensures
            w == self.dimension(),
    {
        image_get_width(&self.image)
    }

    /// The height of the raster, which is `D` too.
    pub fn height(&self) -> (h: u32)
        requires
            self.wf(),
        ensures
            h == self.dimension(),
    {
        image_get_height(&self.image)
    }

    /// The pixel at `(x, y)`.
    pub fn get_pixel(&self, x: u32, y: u32) -> (p: Pixel)
        requires
            self.wf(),
            x < self.dimension(),
            y < self.dimension(),
        ensures
            p == self@[(x, y)],
    {
        proof {
            lemma_fits_bounds(self.dimension());
        }
        image_get_pixel(&self.image, x, y)
    }

    /// Overwrites the pixel at `(x, y)` and nothing else.
    pub fn set_pixel(&mut self, x: u32, y: u32, p: Pixel)
        requires
            old(self).wf(),
            x < old(self).dimension(),
            y < old(self).dimension(),
        ensures
            final(self).wf(),
            final(self).dimension() == old(self).dimension(),
            final(self).creator() == old(self).creator(),
            final(self)@ == old(self)@.insert((x, y), p),
    {
        proof {
            lemma_fits_bounds(self.dimension());
        }
        image_set_pixel(&mut self.image, x, y, p);
        assert(self@ =~= old(self)@.insert((x, y), p));
    }

    /// Serialises the whole raster as a bitmap file. The outcome is the one
    /// that the encoder gives for a raster of this side with these pixels
    /// and creator fields: the bytes of its file, or `None` where the
    /// encoder writes none.
    pub fn encode(&self) -> (out: Option<Vec<u8>>)
        requires
            self.wf(),
        ensures
            match out {
                Some(bytes) => self.file() == Some(bytes@),
                None => self.file() is None,
            },
    {
        image_encode(&self.image)
    }

    /// The image behind the store.
    pub fn image(&self) -> (img: &bmp::Image)
        ensures
            image_width(*img) == self.dimension(),
            image_creator(*img) == self.creator(),
            self.wf() ==> image_height(*img) == self.dimension(),
            image_raster(*img) == self@,
    {
        &self.image
    }
}

/// A raster that fits has a side of at most 37837, so its pixel count fits
/// in 32 bits and three times that count in 64.
pub proof fn lemma_fits_bounds(dimension: u32)
    requires
        fits(dimension as int),
    ensures
        dimension <= 37837,
        dimension * dimension <= u32::MAX,
        3 * (dimension * dimension) <= i64::MAX,
{
    let d = dimension as int;
    assert(d <= 37837) by (nonlinear_arith)
        requires
            0 <= d,
            54 + d * (3 * d + d % 4) <= 0xffff_ffff,
            0 <= d % 4,
    ;
    assert(d * d <= 37837 * 37837) by (nonlinear_arith)
        requires
            0 <= d <= 37837,
    ;
}

} // verus!
