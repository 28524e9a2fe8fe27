//! What holds of every volume, whatever its size, mode and contents.
use vstd::prelude::*;
use crate::channel::{lemma_page_in_range, ChannelPageMapper};
use crate::coordinate::{lemma_raster_round_trips, lemma_round_trip_injective, Traversal};
use crate::disk::{lemma_put_all_keeps_shape, lemma_reach, lemma_reach_resolves, DiskView};
use crate::pixel::{Channel, Pixel};
use crate::store::lemma_fits_bounds;

verus! {

/// Whether two addresses are held by the same byte of the raster: the same
/// pixel and, in channel-split mode, the same channel of it.
pub open spec fn same_cell(v: DiskView, a: int, b: int) -> bool {
    v.point(a) == v.point(b) && (v.split_channels ==> v.channel(a) == v.channel(b))
}

/// Whether all of the `len` addresses from `offset` on resolve.
pub open spec fn all_resolve(v: DiskView, offset: int, len: int) -> bool {
    forall|a: int| offset <= a < offset + len ==> v.resolves(a)
}

/// A byte written at an address that resolves is the byte read back from
/// that address, in channel-split and in greyscale mode alike.
pub proof fn lemma_write_then_read(v: DiskView, address: int, value: u8)
    requires
        v.wf(),
        v.resolves(address),
    ensures
        v.put(address, value).wf(),
        v.put(address, value).resolves(address),
        v.put(address, value).byte(address) == value,
{
}

/// In greyscale mode a write sets the red, green and blue channel of the
/// pixel to the byte written, and a read of the address returns that byte.
pub proof fn lemma_greyscale_write(v: DiskView, address: int, value: u8)
    requires
        v.wf(),
        !v.split_channels,
        v.resolves(address),
    ensures
        v.put(address, value).pixels[v.point(address)] == (Pixel { r: value, g: value, b: value }),
        v.put(address, value).byte(address) == value,
{
}

/// In channel-split mode a write changes one channel of one pixel: the two
/// other channels of that pixel and all other pixels keep their values.
pub proof fn lemma_split_write_frame(v: DiskView, address: int, value: u8, p: (u32, u32), c: Channel)
    requires
        v.wf(),
        v.split_channels,
        v.resolves(address),
        p.0 < v.dimension,
        p.1 < v.dimension,
        p != v.point(address) || c != v.channel(address),
    ensures
        v.put(address, value).pixels[p].channel(c) == v.pixels[p].channel(c),
{
}

/// In channel-split mode every address inside the volume lies on page 0, 1
/// or 2, and the channel it is held by is the one that backs that page.
pub proof fn lemma_page_of_address(v: DiskView, address: int)
    requires
        v.wf(),
        v.split_channels,
        0 <= address < v.size(),
    ensures
        0 <= address / v.cells() <= 2,
        v.channel(address).page() == address / v.cells(),
{
    lemma_fits_bounds(v.dimension);
    lemma_page_in_range(ChannelPageMapper { grid: v.grid() }, address as u64);
}

/// Under a traversal that round-trips on the grid, every address inside
/// the volume resolves.
pub proof fn lemma_resolves(v: DiskView, address: int)
    requires
        v.wf(),
        v.grid().round_trips(),
        0 <= address < v.size(),
    ensures
        v.resolves(address),
{
    let n = v.cells();
    assert(n > 0) by (nonlinear_arith)
        requires
            0 <= address < 3 * n,
            n == v.dimension * v.dimension,
    ;
    lemma_fits_bounds(v.dimension);
    vstd::arithmetic::div_mod::lemma_mod_pos_bound(address, n);
    let i = (address % n) as u64;
    assert(v.grid().holds(v.grid().point(i).0, v.grid().point(i).1));
}

/// In raster order every address inside the volume resolves.
pub proof fn lemma_raster_resolves(v: DiskView, address: int)
    requires
        v.wf(),
        v.traversal == Traversal::Raster,
        0 <= address < v.size(),
    ensures
        v.resolves(address),
{
    lemma_raster_round_trips(v.grid());
    lemma_resolves(v, address);
}

/// Whether two volumes have the same size, mode and traversal, so that the
/// same addresses resolve in both, to the same channels and points.
pub open spec fn same_shape(v: DiskView, w: DiskView) -> bool {
    &&& v.dimension == w.dimension
    &&& v.split_channels == w.split_channels
    &&& v.traversal == w.traversal
}

/// Addresses that all resolve in one volume do so in any other of the same
/// shape.
pub proof fn lemma_all_resolve_by_shape(v: DiskView, w: DiskView, offset: int, len: int)
    requires
        same_shape(v, w),
        all_resolve(v, offset, len),
    ensures
        all_resolve(w, offset, len),
{
    assert forall|a: int| offset <= a < offset + len implies w.resolves(a) by {
        assert(v.resolves(a));
    }
}

/// A write to an address that resolves keeps the volume well formed.
pub proof fn lemma_put_keeps_wf(v: DiskView, address: int, value: u8)
    requires
        v.wf(),
        v.resolves(address),
    ensures
        v.put(address, value).wf(),
{
}

/// A run of writes to addresses that resolve keeps the volume well formed.
pub proof fn lemma_put_all_keeps_wf(v: DiskView, offset: int, bytes: Seq<u8>)
    requires
        v.wf(),
        all_resolve(v, offset, bytes.len() as int),
    ensures
        v.put_all(offset, bytes).wf(),
    decreases bytes.len(),
{
    if bytes.len() > 0 {
        let rest = bytes.drop_last();
        lemma_put_all_keeps_wf(v, offset, rest);
        lemma_put_all_keeps_shape(v, offset, rest);
        let last = offset + bytes.len() - 1;
        assert(v.resolves(last));
        lemma_put_keeps_wf(v.put_all(offset, rest), last, bytes.last());
    }
}

/// A later write to the same byte of the raster wipes out an earlier one.
pub proof fn lemma_put_overwrites(v: DiskView, a: int, x: u8, b: int, y: u8)
    requires
        v.wf(),
        v.resolves(a),
        v.resolves(b),
        same_cell(v, a, b),
    ensures
        v.put(a, x).put(b, y) == v.put(b, y),
{
    assert(v.put(a, x).put(b, y).pixels =~= v.put(b, y).pixels);
}

/// Writes to different bytes of the raster can be swapped.
pub proof fn lemma_put_commutes(v: DiskView, a: int, x: u8, b: int, y: u8)
    requires
        v.wf(),
        v.resolves(a),
        v.resolves(b),
        !same_cell(v, a, b),
    ensures
        v.put(a, x).put(b, y) == v.put(b, y).put(a, x),
{
    assert(v.put(a, x).put(b, y).pixels =~= v.put(b, y).put(a, x).pixels);
}

/// A write that is repeated after a run of other writes makes its first
/// occurrence redundant.
pub proof fn lemma_put_absorbs(v: DiskView, a: int, x: u8, offset: int, bytes: Seq<u8>)
    requires
        v.wf(),
        v.resolves(a),
        all_resolve(v, offset, bytes.len() as int),
    ensures
        v.put(a, x).put_all(offset, bytes).put(a, x) == v.put_all(offset, bytes).put(a, x),
    decreases bytes.len(),
{
    if bytes.len() == 0 {
        lemma_put_overwrites(v, a, x, a, x);
    } else {
        let rest = bytes.drop_last();
        let k = offset + bytes.len() - 1;
        let c = bytes.last();
        let with = v.put(a, x).put_all(offset, rest);
        let without = v.put_all(offset, rest);
        assert(v.resolves(k));
        lemma_put_keeps_wf(v, a, x);
        lemma_put_absorbs(v, a, x, offset, rest);
        lemma_all_resolve_by_shape(v, v.put(a, x), offset, rest.len() as int);
        lemma_put_all_keeps_wf(v.put(a, x), offset, rest);
        lemma_put_all_keeps_wf(v, offset, rest);
        lemma_put_all_keeps_shape(v.put(a, x), offset, rest);
        lemma_put_all_keeps_shape(v, offset, rest);
        if same_cell(v, k, a) {
            lemma_put_overwrites(with, k, c, a, x);
            lemma_put_overwrites(without, k, c, a, x);
        } else {
            lemma_put_commutes(with, k, c, a, x);
            lemma_put_commutes(without, k, c, a, x);
        }
    }
}

/// Writing a run of bytes a second time, at the same offset, changes
/// nothing.
pub proof fn lemma_put_all_twice(v: DiskView, offset: int, bytes: Seq<u8>)
    requires
        v.wf(),
        all_resolve(v, offset, bytes.len() as int),
    ensures
        v.put_all(offset, bytes).put_all(offset, bytes) == v.put_all(offset, bytes),
    decreases bytes.len(),
{
    if bytes.len() > 0 {
        let rest = bytes.drop_last();
        let k = offset + bytes.len() - 1;
        let c = bytes.last();
        let before = v.put_all(offset, rest);
        assert(v.resolves(k));
        lemma_put_all_twice(v, offset, rest);
        lemma_put_all_keeps_wf(v, offset, rest);
        lemma_put_all_keeps_shape(v, offset, rest);
        lemma_all_resolve_by_shape(v, before, offset, rest.len() as int);
        lemma_put_absorbs(before, k, c, offset, rest);
    }
}

/// Writing the same buffer twice at the same offset leaves the volume,
/// after the second write, exactly as it was after the first. The bitmap
/// file serialised after the second write is therefore, byte for byte, the
/// one serialised after the first.
pub proof fn lemma_second_write_changes_nothing(v: DiskView, offset: int, bytes: Seq<u8>)
    requires
        v.wf(),
    ensures
        v.write(offset, bytes).write(offset, bytes) == v.write(offset, bytes),
        v.write(offset, bytes).write(offset, bytes).file() == v.write(offset, bytes).file(),
{
    let len = bytes.len() as int;
    let n = v.reach(offset, len);
    lemma_reach_resolves(v, offset, len);
    let written = bytes.take(n);
    let once = v.put_all(offset, written);
    lemma_put_all_keeps_shape(v, offset, written);
    lemma_all_resolve_by_shape(v, once, offset, n);
    lemma_reach(once, offset, len, n);
    lemma_put_all_twice(v, offset, written);
}

/// Whether the `len` addresses from `offset` on are held by `len`
/// different bytes of the raster.
pub open spec fn distinct_cells(v: DiskView, offset: int, len: int) -> bool {
    forall|a: int, b: int|
        offset <= a < offset + len && offset <= b < offset + len && a != b ==> !#[trigger] same_cell(
            v,
            a,
            b,
        )
}

/// A write leaves every other byte of the raster as it was.
pub proof fn lemma_put_frame(v: DiskView, a: int, x: u8, b: int)
    requires
        v.wf(),
        v.resolves(a),
        v.resolves(b),
        !same_cell(v, a, b),
    ensures
        v.put(a, x).byte(b) == v.byte(b),
{
}

/// After a run of writes to different bytes of the raster, each address
/// written reads back the byte that was written there.
pub proof fn lemma_put_all_reads(v: DiskView, offset: int, bytes: Seq<u8>, i: int)
    requires
        v.wf(),
        all_resolve(v, offset, bytes.len() as int),
        distinct_cells(v, offset, bytes.len() as int),
        0 <= i < bytes.len(),
    ensures
        v.put_all(offset, bytes).byte(offset + i) == bytes[i],
    decreases bytes.len(),
{
    let rest = bytes.drop_last();
    let k = offset + bytes.len() - 1;
    let before = v.put_all(offset, rest);
    assert(v.resolves(k));
    assert(v.resolves(offset + i));
    lemma_put_all_keeps_wf(v, offset, rest);
    lemma_put_all_keeps_shape(v, offset, rest);
    if i == bytes.len() - 1 {
        lemma_write_then_read(before, k, bytes.last());
    } else {
        assert(!same_cell(v, k, offset + i));
        lemma_put_frame(before, k, bytes.last(), offset + i);
        lemma_put_all_reads(v, offset, rest, i);
    }
}

/// Writing a buffer and reading the same range back returns the buffer,
/// provided that every address of the range resolves and no two of them
/// share a byte of the raster.
pub proof fn lemma_write_then_read_all(v: DiskView, offset: int, bytes: Seq<u8>)
    requires
        v.wf(),
        all_resolve(v, offset, bytes.len() as int),
        distinct_cells(v, offset, bytes.len() as int),
    ensures
        v.write(offset, bytes) == v.put_all(offset, bytes),
        v.write(offset, bytes).reach(offset, bytes.len() as int) == bytes.len(),
        v.write(offset, bytes).bytes_at(offset, bytes.len() as int) == bytes,
{
    let len = bytes.len() as int;
    lemma_reach(v, offset, len, len);
    assert(bytes.take(len) =~= bytes);
    let after = v.put_all(offset, bytes);
    lemma_put_all_keeps_shape(v, offset, bytes);
    lemma_all_resolve_by_shape(v, after, offset, len);
    lemma_reach(after, offset, len, len);
    assert forall|i: int| 0 <= i < len implies after.bytes_at(offset, len)[i] == bytes[i] by {
        lemma_put_all_reads(v, offset, bytes, i);
    }
    assert(after.bytes_at(offset, len) =~= bytes);
}

/// Under a traversal that round-trips on the grid, two different addresses
/// inside the volume are never held by the same byte of the raster.
pub proof fn lemma_cells_differ(v: DiskView, a: int, b: int)
    requires
        v.wf(),
        v.grid().round_trips(),
        0 <= a < v.size(),
        0 <= b < v.size(),
        a != b,
    ensures
        !same_cell(v, a, b),
{
    let n = v.cells();
    assert(n > 0) by (nonlinear_arith)
        requires
            0 <= a < 3 * n,
            n == v.dimension * v.dimension,
    ;
    lemma_fits_bounds(v.dimension);
    vstd::arithmetic::div_mod::lemma_mod_pos_bound(a, n);
    vstd::arithmetic::div_mod::lemma_mod_pos_bound(b, n);
    vstd::arithmetic::div_mod::lemma_fundamental_div_mod(a, n);
    vstd::arithmetic::div_mod::lemma_fundamental_div_mod(b, n);
    if v.point(a) == v.point(b) {
        lemma_round_trip_injective(v.grid(), (a % n) as u64, (b % n) as u64);
        assert(a % n == b % n);
        if v.split_channels {
            lemma_page_of_address(v, a);
            lemma_page_of_address(v, b);
            assert(v.channel(a) != v.channel(b)) by {
                if v.channel(a) == v.channel(b) {
                    assert(a / n == b / n);
                }
            }
        } else {
            vstd::arithmetic::div_mod::lemma_small_mod(a as nat, n as nat);
            vstd::arithmetic::div_mod::lemma_small_mod(b as nat, n as nat);
        }
    }
}

/// Under a traversal that round-trips on the grid, a write that lies inside
/// the volume goes through in full, and reading the same range back
/// returns the buffer.
pub proof fn lemma_write_then_read_in_range(v: DiskView, offset: int, bytes: Seq<u8>)
    requires
        v.wf(),
        v.grid().round_trips(),
        0 <= offset,
        offset + bytes.len() <= v.size(),
    ensures
        v.reach(offset, bytes.len() as int) == bytes.len(),
        v.write(offset, bytes).reach(offset, bytes.len() as int) == bytes.len(),
        v.write(offset, bytes).bytes_at(offset, bytes.len() as int) == bytes,
{
    let len = bytes.len() as int;
    assert forall|a: int| offset <= a < offset + len implies v.resolves(a) by {
        lemma_resolves(v, a);
    }
    assert forall|a: int, b: int|
        offset <= a < offset + len && offset <= b < offset + len && a != b implies !#[trigger] same_cell(
        v,
        a,
        b,
    ) by {
        lemma_cells_differ(v, a, b);
    }
    lemma_reach(v, offset, len, len);
    lemma_write_then_read_all(v, offset, bytes);
}

/// In raster order, a write that lies inside the volume goes through in
/// full, and reading the same range back returns the buffer.
pub proof fn lemma_raster_write_then_read_all(v: DiskView, offset: int, bytes: Seq<u8>)
    requires
        v.wf(),
        v.traversal == Traversal::Raster,
        0 <= offset,
        offset + bytes.len() <= v.size(),
    ensures
        v.reach(offset, bytes.len() as int) == bytes.len(),
        v.write(offset, bytes).reach(offset, bytes.len() as int) == bytes.len(),
        v.write(offset, bytes).bytes_at(offset, bytes.len() as int) == bytes,
{
    lemma_raster_round_trips(v.grid());
    lemma_write_then_read_in_range(v, offset, bytes);
}

} // verus!
