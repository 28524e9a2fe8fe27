//! The volume: a raster addressed as a flat range of bytes.
//!
//! In channel-split mode the volume has `3 * D * D` bytes, one per colour
//! channel of each pixel. In greyscale mode it has `D * D` bytes, one per
//! pixel: a write sets all three channels to the byte, a read returns the
//! red one.
use vstd::prelude::*;
use vstd::arithmetic::div_mod::{lemma_basic_div, lemma_small_mod};
use crate::channel::ChannelPageMapper;
use crate::config::BMPConfig;
use crate::coordinate::{CoordinateMapper, Traversal};
use crate::error::Error;
use crate::image::{bmp_file, image_creator, image_height, image_raster, image_width};
use crate::pixel::{Channel, Pixel};
use crate::store::{blank_raster, fits, lemma_fits_bounds, PixelStore};

verus! {

/// What a volume is, as far as its behaviour goes.
#[verifier::ext_equal]
pub struct DiskView {
    /// The side `D` of the raster.
    pub dimension: u32,
    /// Channel-split addressing if set, greyscale addressing if not.
    pub split_channels: bool,
    /// The order in which addresses walk over the raster.
    pub traversal: Traversal,
    /// The pixels, by `(x, y)`.
    pub pixels: Map<(u32, u32), Pixel>,
    /// The creator fields of the raster's file header.
    pub creator: (u16, u16),
}

impl DiskView {
    /// The raster fits in a bitmap file and holds exactly the points of the
    /// `D` by `D` grid.
    pub open spec fn wf(self) -> bool {
        &&& fits(self.dimension as int)
        &&& forall|p: (u32, u32)|
            self.pixels.dom().contains(p) <==> p.0 < self.dimension && p.1 < self.dimension
    }

    /// The mapper from pixel indices to grid points.
    pub open spec fn grid(self) -> CoordinateMapper {
        CoordinateMapper { traversal: self.traversal, dimension: self.dimension }
    }

    /// The number of pixels, `D * D`, which is also the length of a page.
    pub open spec fn cells(self) -> int {
        self.dimension * self.dimension
    }

    /// The length of the volume in bytes: `3 * D * D` in channel-split
    /// mode, `D * D` in greyscale mode.
    pub open spec fn size(self) -> int {
        if self.split_channels {
            3 * self.cells()
        } else {
            self.cells()
        }
    }

    /// The channel that holds the byte at `address`: the one that backs
    /// page `address div (D * D)`. In greyscale mode there is one page
    /// only, and the byte is read from the red channel.
    pub open spec fn channel(self, address: int) -> Channel {
        Channel::of_page(address / self.cells())
    }

    /// The grid point of the pixel that holds the byte at `address`: the
    /// one that the index `address mod (D * D)` stands for.
    pub open spec fn point(self, address: int) -> (u32, u32) {
        self.grid().point((address % self.cells()) as u64)
    }

    /// Whether `address` lies inside the volume and is held by a pixel of
    /// the raster.
    pub open spec fn resolves(self, address: int) -> bool {
        &&& 0 <= address < self.size()
        &&& self.grid().holds(self.point(address).0, self.point(address).1)
    }

    /// The byte at `address`.
    pub open spec fn byte(self, address: int) -> u8 {
        self.pixels[self.point(address)].channel(self.channel(address))
    }

    /// The pixel that holds `address` once `value` has been written there.
    pub open spec fn written(self, address: int, value: u8) -> Pixel {
        if self.split_channels {
            self.pixels[self.point(address)].with_channel(self.channel(address), value)
        } else {
            Pixel::gray(value)
        }
    }

    /// The volume after `value` has been written at `address`.
    pub open spec fn put(self, address: int, value: u8) -> DiskView {
        DiskView {
            pixels: self.pixels.insert(self.point(address), self.written(address, value)),
            ..self
        }
    }

    /// The volume after the bytes `bytes` have been written one by one,
    /// in order, at `offset`, `offset + 1` and so on.
    pub open spec fn put_all(self, offset: int, bytes: Seq<u8>) -> DiskView
        decreases bytes.len(),
    {
        if bytes.len() == 0 {
            self
        } else {
            self.put_all(offset, bytes.drop_last()).put(offset + bytes.len() - 1, bytes.last())
        }
    }

    /// How many of the `len` addresses from `offset` on resolve before the
    /// first one that does not.
    pub open spec fn reach(self, offset: int, len: int) -> int
        decreases len,
    {
        if len <= 0 || !self.resolves(offset) {
            0
        } else {
            1 + self.reach(offset + 1, len - 1)
        }
    }

    /// The `len` bytes from `offset` on.
    pub open spec fn bytes_at(self, offset: int, len: int) -> Seq<u8> {
        Seq::new(len as nat, |i: int| self.byte(offset + i))
    }

    /// The volume after a write of `bytes` at `offset`: the bytes are
    /// written in order, up to the first address that does not resolve.
    pub open spec fn write(self, offset: int, bytes: Seq<u8>) -> DiskView {
        self.put_all(offset, bytes.take(self.reach(offset, bytes.len() as int)))
    }

    /// The bitmap file that holds the volume, or `None` if the encoder
    /// writes none for it.
    pub open spec fn file(self) -> Option<Seq<u8>> {
        bmp_file(self.dimension, self.dimension, self.pixels, self.creator)
    }
}

/// The threading models that a host can be asked for.
#[derive(Clone, Copy, Debug, PartialEq, Eq, Structural)]
pub enum ThreadModel {
    /// One connection at a time.
    SerializeConnections,
    /// Any number of connections, but one request at a time over all of
    /// them.
    SerializeAllRequests,
    /// One request at a time per connection.
    SerializeRequests,
    /// No restriction.
    Parallel,
}

/// A mounted volume.
pub struct BMPDisk {
    store: PixelStore,
    split_channels: bool,
    traversal: Traversal,
}

impl View for BMPDisk {
    type V = DiskView;

    closed spec fn view(&self) -> DiskView {
        DiskView {
            dimension: self.store.dimension(),
            split_channels: self.split_channels,
            traversal: self.traversal,
            pixels: self.store@,
            creator: self.store.creator(),
        }
    }
}

impl BMPDisk {
    /// The invariant of a mounted volume.
    pub closed spec fn wf(&self) -> bool {
        self.store.wf()
    }

    /// The view of a well-formed volume is well formed.
    pub proof fn lemma_view_wf(&self)
        requires
            self.wf(),
        ensures
            self@.wf(),
    {
        self.store.lemma_domain();
    }

    /// The name under which the volume registers with its host.
    pub fn name() -> (name: &'static str)
        ensures
            name@ == "bmpdisk"@,
    {
        "bmpdisk"
    }

    /// The threading model that the volume asks of its host: at most one
    /// request in flight at any time.
    pub fn thread_model() -> (model: ThreadModel)
        ensures
            model == ThreadModel::SerializeAllRequests,
    {
        ThreadModel::SerializeAllRequests
    }

    /// Whether the volume takes writes. It always does.
    pub fn can_write(&self) -> (writable: bool)
        ensures
            writable,
    {
        true
    }

    /// Mounts a volume. `existing` is what decoding the backing file gave,
    /// or `None` if there is no such file. With a decoded image the volume
    /// takes over the image and its size, whatever `config.dimensions`
    /// says; the image has to be square and small enough to be written
    /// back. A file that could not be decoded ends the mount. Without a
    /// file the volume starts as a black raster of side
    /// `config.dimensions`.
    pub fn open(existing: Option<Result<bmp::Image, bmp::BmpError>>, config: &BMPConfig) -> (r:
        Result<BMPDisk, Error>)
        ensures
            match existing {
                Some(Err(_)) => r matches Err(e) && e == Error::Decode,
                Some(Ok(image)) => {
                    &&& r is Ok <==> image_width(image) == image_height(image) && fits(
                        image_width(image) as int,
                    )
                    &&& r matches Ok(disk) ==> disk.wf() && disk@ == (DiskView {
                        dimension: image_width(image),
                        split_channels: config.split_channels,
                        traversal: config.traversal,
                        pixels: image_raster(image),
                        creator: image_creator(image),
                    })
                    &&& r matches Err(e) ==> e == (if image_width(image) != image_height(image) {
                        Error::NotSquare
                    } else {
                        Error::TooLarge
                    })
                },
                None => {
                    &&& r is Ok <==> fits(config.dimensions as int)
                    &&& r matches Ok(disk) ==> disk.wf() && disk@ == (DiskView {
                        dimension: config.dimensions,
                        split_channels: config.split_channels,
                        traversal: config.traversal,
                        pixels: blank_raster(config.dimensions),
                        creator: (0u16, 0u16),
                    })
                    &&& r matches Err(e) ==> e == Error::TooLarge
                },
            },
    {
        let made = match existing {
            Some(Ok(image)) => PixelStore::adopt(image),
            Some(Err(_)) => Err(Error::Decode),
            None => PixelStore::blank(config.dimensions),
        };
        match made {
            Ok(store) => Ok(
                BMPDisk {
                    store,
                    split_channels: config.split_channels,
                    traversal: config.traversal,
                },
            ),
            Err(e) => Err(e),
        }
    }

    /// The length of the volume in bytes.
    pub fn get_size(&self) -> (size: i64)
        requires
            self.wf(),
        ensures
            size == self@.size(),
            size == (if self@.split_channels {
                3 * self@.dimension * self@.dimension
            } else {
                self@.dimension * self@.dimension
            }),
    {
        let d = self.store.width();
        proof {
            self.store.lemma_domain();
            lemma_fits_bounds(d);
            assert(3 * d * d == 3 * (d * d)) by (nonlinear_arith);
        }
        let cells: i64 = d as i64 * d as i64;
        if self.split_channels {
            3 * cells
        } else {
            cells
        }
    }

    /// The raster behind the volume.
    pub fn raster(&self) -> (store: &PixelStore)
        ensures
            store.wf() == self.wf(),
            store.dimension() == self@.dimension,
            store@ == self@.pixels,
            store.creator() == self@.creator,
    {
        &self.store
    }

    /// Resolves `address` to the channel and the grid point that hold it,
    /// if it lies inside the volume and on the raster.
    pub fn locate(&self, address: u64) -> (target: Option<(Channel, (u32, u32))>)
        requires
            self.wf(),
        ensures
            target is Some <==> self@.resolves(address as int),
            target matches Some(t) ==> {
                &&& t.0 == self@.channel(address as int)
                &&& t.1 == self@.point(address as int)
                &&& t.1.0 < self@.dimension
                &&& t.1.1 < self@.dimension
            },
    {
        let d = self.store.width();
        let grid = CoordinateMapper::new(self.traversal, d);
        proof {
            self.store.lemma_domain();
            lemma_fits_bounds(d);
        }
        let cells = grid.cell_count();
        let size = if self.split_channels {
            3 * cells
        } else {
            cells
        };
        if address >= size {
            return None;
        }
        let target = if self.split_channels {
            ChannelPageMapper::new(grid).map(address)
        } else {
            proof {
                lemma_small_mod(address as nat, cells as nat);
                lemma_basic_div(address as int, cells as int);
            }
            (Channel::Red, grid.map(address))
        };
        if grid.contains(target.1.0, target.1.1) {
            Some(target)
        } else {
            None
        }
    }

    /// Reads the byte at `address`.
    pub fn read_byte(&self, address: u64) -> (r: Result<u8, Error>)
        requires
            self.wf(),
        ensures
            r is Ok <==> self@.resolves(address as int),
            r matches Ok(value) ==> value == self@.byte(address as int),
            r matches Err(e) ==> e == Error::OutOfBounds,
    {
        match self.locate(address) {
            Some((channel, (x, y))) => Ok(self.store.get_pixel(x, y).get(channel)),
            None => Err(Error::OutOfBounds),
        }
    }

    /// Writes `value` at `address`. In channel-split mode one channel of
    /// the pixel changes; in greyscale mode all three are set to `value`.
    /// An address that does not resolve changes nothing.
    pub fn write_byte(&mut self, address: u64, value: u8) -> (r: Result<(), Error>)
        requires
            old(self).wf(),
        ensures
            final(self).wf(),
            r is Ok <==> old(self)@.resolves(address as int),
            r is Ok ==> final(self)@ == old(self)@.put(address as int, value),
            r matches Err(e) ==> e == Error::OutOfBounds && final(self)@ == old(self)@,
    {
        match self.locate(address) {
            Some((channel, (x, y))) => {
                let pixel = if self.split_channels {
                    let mut pixel = self.store.get_pixel(x, y);
                    pixel.set(channel, value);
                    pixel
                } else {
                    Pixel::splat(value)
                };
                self.store.set_pixel(x, y, pixel);
                Ok(())
            },
            None => Err(Error::OutOfBounds),
        }
    }

    /// Reads `buf.len()` bytes from `offset` on into `buf`, in order. An
    /// address that does not resolve ends the read: the bytes before it
    /// have been read, the rest of `buf` is untouched.
    pub fn read_at(&self, buf: &mut [u8], offset: u64) -> (r: Result<(), Error>)
        requires
            self.wf(),
        ensures
            final(buf)@.len() == old(buf)@.len(),
            r is Ok <==> self@.reach(offset as int, old(buf)@.len() as int) == old(buf)@.len(),
            r matches Err(e) ==> e == Error::OutOfBounds,
            final(buf)@ == self@.bytes_at(
                offset as int,
                self@.reach(offset as int, old(buf)@.len() as int),
            ) + old(buf)@.skip(self@.reach(offset as int, old(buf)@.len() as int)),
    {
        let len = buf.len();
        let mut i: usize = 0;
        while i < len
            invariant
                self.wf(),
                i <= len,
                len == buf@.len(),
                len == old(buf)@.len(),
                forall|a: int| offset <= a < offset + i ==> self@.resolves(a),
                forall|k: int| 0 <= k < i ==> buf@[k] == self@.byte(offset + k),
                forall|k: int| i <= k < len ==> buf@[k] == old(buf)@[k],
            decreases len - i,
        {
            if i as u64 > u64::MAX - offset {
                proof {
                    self.lemma_size_fits();
                    lemma_reach(self@, offset as int, len as int, i as int);
                    assert(buf@ =~= self@.bytes_at(offset as int, i as int) + old(buf)@.skip(
                        i as int,
                    ));
                }
                return Err(Error::OutOfBounds);
            }
            match self.read_byte(offset + i as u64) {
                Ok(value) => {
                    buf[i] = value;
                },
                Err(e) => {
                    proof {
                        lemma_reach(self@, offset as int, len as int, i as int);
                        assert(buf@ =~= self@.bytes_at(offset as int, i as int) + old(buf)@.skip(
                            i as int,
                        ));
                    }
                    return Err(e);
                },
            }
            i = i + 1;
        }
        proof {
            lemma_reach(self@, offset as int, len as int, len as int);
            assert(buf@ =~= self@.bytes_at(offset as int, len as int) + old(buf)@.skip(len as int));
        }
        Ok(())
    }

    /// Writes the bytes of `buf` at `offset`, `offset + 1` and so on, in
    /// order. An address that does not resolve ends the write: the bytes
    /// before it have been written, the others have not.
    pub fn put_at(&mut self, buf: &[u8], offset: u64) -> (r: Result<(), Error>)
        requires
            old(self).wf(),
        ensures
            final(self).wf(),
            final(self)@ == old(self)@.write(offset as int, buf@),
            r is Ok <==> old(self)@.reach(offset as int, buf@.len() as int) == buf@.len(),
            r matches Err(e) ==> e == Error::OutOfBounds,
    {
        let len = buf.len();
        let mut i: usize = 0;
        while i < len
            invariant
                self.wf(),
                old(self).wf(),
                i <= len,
                len == buf@.len(),
                forall|a: int| offset <= a < offset + i ==> old(self)@.resolves(a),
                self@ == old(self)@.put_all(offset as int, buf@.take(i as int)),
            decreases len - i,
        {
            proof {
                lemma_put_all_keeps_shape(old(self)@, offset as int, buf@.take(i as int));
            }
            if i as u64 > u64::MAX - offset {
                proof {
                    old(self).lemma_size_fits();
                    lemma_reach(old(self)@, offset as int, len as int, i as int);
                }
                return Err(Error::OutOfBounds);
            }
            match self.write_byte(offset + i as u64, buf[i]) {
                Ok(()) => {
                    proof {
                        let longer = buf@.take(i + 1);
                        assert(longer.drop_last() =~= buf@.take(i as int));
                        assert(longer.last() == buf@[i as int]);
                    }
                },
                Err(e) => {
                    proof {
                        lemma_reach(old(self)@, offset as int, len as int, i as int);
                    }
                    return Err(e);
                },
            }
            i = i + 1;
        }
        proof {
            lemma_reach(old(self)@, offset as int, len as int, len as int);
            assert(buf@.take(len as int) =~= buf@);
        }
        Ok(())
    }

    /// What a flush reports for the outcome of the encoder: the file it
    /// wrote, or a persistence failure if it wrote none.
    pub fn persist(encoded: Option<Vec<u8>>) -> (r: Result<Vec<u8>, Error>)
        ensures
            r == (match encoded {
                Some(file) => Ok::<Vec<u8>, Error>(file),
                None => Err::<Vec<u8>, Error>(Error::Persistence),
            }),
    {
        match encoded {
            Some(file) => Ok(file),
            None => Err(Error::Persistence),
        }
    }

    /// Serialises the whole raster as a bitmap file, to be stored in place
    /// of the backing image. Whether the encoder writes a file is up to the
    /// `bmp` crate: where it does, that file is handed back; where it does
    /// not, the flush is a persistence failure.
    pub fn flush(&self) -> (r: Result<Vec<u8>, Error>)
        requires
            self.wf(),
        ensures
            match r {
                Ok(file) => self@.file() == Some(file@),
                Err(e) => e == Error::Persistence && self@.file() is None,
            },
    {
        BMPDisk::persist(self.store.encode())
    }

    /// Writes the bytes of `buf` at `offset` and on, as `put_at` does, and
    /// then serialises the whole raster. The file is handed back only when
    /// every byte was written; after a write that stopped short the raster
    /// keeps what was written and nothing is serialised. A write that went
    /// through, for whose raster the encoder writes no file, is a
    /// persistence failure.
    pub fn write_at(&mut self, buf: &[u8], offset: u64) -> (r: Result<Vec<u8>, Error>)
        requires
            old(self).wf(),
        ensures
            final(self).wf(),
            final(self)@ == old(self)@.write(offset as int, buf@),
            match r {
                Ok(file) => {
                    &&& old(self)@.reach(offset as int, buf@.len() as int) == buf@.len()
                    &&& final(self)@.file() == Some(file@)
                },
                Err(e) => if old(self)@.reach(offset as int, buf@.len() as int) == buf@.len() {
                    e == Error::Persistence && final(self)@.file() is None
                } else {
                    e == Error::OutOfBounds
                },
            },
    {
        match self.put_at(buf, offset) {
            Ok(()) => self.flush(),
            Err(e) => Err(e),
        }
    }

    /// The volume ends below 2^63.
    pub proof fn lemma_size_fits(&self)
        requires
            self.wf(),
        ensures
            self@.size() <= i64::MAX,
    {
        self.store.lemma_domain();
        lemma_fits_bounds(self@.dimension);
    }
}

/// If the first `n` of `len` addresses from `offset` on resolve, and the
/// next one does not or there is none, then `reach` is `n`.
pub proof fn lemma_reach(v: DiskView, offset: int, len: int, n: int)
    requires
        0 <= n <= len,
        forall|a: int| offset <= a < offset + n ==> v.resolves(a),
        n == len || !v.resolves(offset + n),
    ensures
        v.reach(offset, len) == n,
    decreases n,
{
    if n > 0 {
        assert(v.resolves(offset));
        lemma_reach(v, offset + 1, len - 1, n - 1);
    }
}

/// Every address below `reach` resolves, and `reach` never exceeds the
/// length asked for.
pub proof fn lemma_reach_resolves(v: DiskView, offset: int, len: int)
    ensures
        0 <= v.reach(offset, len),
        len >= 0 ==> v.reach(offset, len) <= len,
        forall|a: int| offset <= a < offset + v.reach(offset, len) ==> v.resolves(a),
        0 <= v.reach(offset, len) < len ==> !v.resolves(offset + v.reach(offset, len)),
    decreases len,
{
    if len <= 0 || !v.resolves(offset) {
    } else {
        lemma_reach_resolves(v, offset + 1, len - 1);
    }
}

/// Writing bytes changes pixels only: the side, the addressing mode, the
/// traversal and the creator fields stay, and with them the length of the
/// volume and which addresses resolve.
pub proof fn lemma_put_all_keeps_shape(v: DiskView, offset: int, bytes: Seq<u8>)
    ensures
        v.put_all(offset, bytes).dimension == v.dimension,
        v.put_all(offset, bytes).size() == v.size(),
        v.put_all(offset, bytes).split_channels == v.split_channels,
        v.put_all(offset, bytes).traversal == v.traversal,
        v.put_all(offset, bytes).creator == v.creator,
        forall|a: int| v.put_all(offset, bytes).resolves(a) == v.resolves(a),
    decreases bytes.len(),
{
    if bytes.len() > 0 {
        lemma_put_all_keeps_shape(v, offset, bytes.drop_last());
    }
}

} // verus!
