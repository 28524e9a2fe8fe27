//! From a byte address of the channel-split address space to a colour
//! channel and a point of the grid.
//!
//! The address space is three pages of `D * D` bytes each, one per colour
//! channel: `page = address div (D * D)`, and the remainder is the index of
//! the pixel within the page.
use vstd::prelude::*;
use crate::coordinate::{CoordinateMapper, Traversal};
use crate::pixel::Channel;

verus! {

/// Maps the addresses `0 .. 3 * D * D` to a channel and a grid point.
#[derive(Clone, Copy, Debug, PartialEq, Eq, Structural)]
pub struct ChannelPageMapper {
    pub grid: CoordinateMapper,
}

impl ChannelPageMapper {
    /// The length of the channel-split address space, `3 * D * D`.
    pub open spec fn span(&self) -> int {
        3 * self.grid.cells()
    }

    /// The channel whose page holds `address`.
    pub open spec fn channel(&self, address: u64) -> Channel {
        Channel::of_page(address as int / self.grid.cells())
    }

    /// The index, within its page, of the pixel that holds `address`.
    pub open spec fn offset(&self, address: u64) -> u64 {
        (address as int % self.grid.cells()) as u64
    }

    /// The grid point of the pixel that holds `address`.
    pub open spec fn point(&self, address: u64) -> (u32, u32) {
        self.grid.point(self.offset(address))
    }

    /// The page mapper over the given grid.
    pub fn new(grid: CoordinateMapper) -> (m: ChannelPageMapper)
        ensures
            m.grid == grid,
    {
        ChannelPageMapper { grid }
    }

    /// The channel whose page holds `address`. The page number is always
    /// 0, 1 or 2, so the result is one of the three channels.
    pub fn page(&self, address: u64) -> (c: Channel)
        requires
            address < self.span(),
        ensures
            c.page() == address as int / self.grid.cells(),
            c == self.channel(address),
    {
        let cells = self.grid.cell_count();
        proof {
            lemma_page_in_range(*self, address);
        }
        let page = address / cells;
        if page == 0 {
            Channel::Red
        } else if page == 1 {
            Channel::Green
        } else {
            Channel::Blue
        }
    }

    /// The channel and the grid point behind `address`. In raster order the
    /// point is always inside the grid.
    pub fn map(&self, address: u64) -> (target: (Channel, (u32, u32)))
        requires
            address < self.span(),
        ensures
            target.0 == self.channel(address),
            target.0.page() == address as int / self.grid.cells(),
            target.1 == self.point(address),
            self.grid.traversal == Traversal::Raster ==> self.grid.holds(target.1.0, target.1.1),
    {
        let cells = self.grid.cell_count();
        proof {
            lemma_page_in_range(*self, address);
        }
        let channel = self.page(address);
        let point = self.grid.map(address % cells);
        (channel, point)
    }
}

/// Every address below `3 * D * D` lies on page 0, 1 or 2, at an offset
/// below `D * D`.
pub proof fn lemma_page_in_range(m: ChannelPageMapper, address: u64)
    requires
        address < m.span(),
    ensures
        m.grid.cells() > 0,
        0 <= address as int / m.grid.cells() <= 2,
        0 <= address as int % m.grid.cells() < m.grid.cells(),
        m.channel(address).page() == address as int / m.grid.cells(),
{
    let a = address as int;
    let n = m.grid.cells();
    vstd::arithmetic::div_mod::lemma_fundamental_div_mod(a, n);
    assert(0 <= a / n <= 2) by (nonlinear_arith)
        requires
            n > 0,
            0 <= a < 3 * n,
            a == n * (a / n) + (a % n),
            0 <= a % n < n,
    ;
}

} // verus!
