//! A square RGB raster exposed as a flat, byte-addressed storage volume.
//!
//! Every byte of the volume lives in one colour channel of one pixel. Reads
//! and writes at a byte offset are turned into pixel coordinates and channel
//! values, and after a write the whole raster is serialised as a bitmap file.
//!
//! The modules, leaves first:
//! - [`error`]: why an operation was refused;
//! - [`pixel`]: pixels and their three channels;
//! - [`hilbert`]: the Hilbert curve, as the `fast_hilbert` crate computes it;
//! - [`coordinate`]: from a linear index to a point of the grid and back;
//! - [`channel`]: from a byte address to a channel page and a grid point;
//! - [`image`]: the `bmp` crate's image type and what is relied on of it;
//! - [`store`]: the raster itself;
//! - [`config`]: the options a volume is opened with;
//! - [`disk`]: the volume, with its size, reads, writes and serialisation;
//! - [`laws`]: what holds of every volume.
//!
//! The library does no input or output. Whoever mounts a volume decodes the
//! backing file, if there is one, hands the outcome to
//! [`disk::BMPDisk::open`], and stores the bytes that
//! [`disk::BMPDisk::write_at`] returns.
pub mod channel;
pub mod config;
pub mod coordinate;
pub mod disk;
pub mod error;
pub mod hilbert;
pub mod image;
pub mod laws;
pub mod pixel;
pub mod store;
