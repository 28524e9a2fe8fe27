//! From a linear index to a point of the square grid, and back.
//!
//! Two traversal orders are offered. Raster order scans the grid row by
//! row. Hilbert order follows the Hilbert curve, so that indices close to
//! each other land on pixels close to each other.
use vstd::prelude::*;
use vstd::arithmetic::div_mod::{
    lemma_fundamental_div_mod,
    lemma_fundamental_div_mod_converse,
};
use crate::hilbert::{hilbert_h2xy, hilbert_index, hilbert_point, hilbert_xy2h};

verus! {

/// The order in which the indices walk over the grid.
#[derive(Clone, Copy, Debug, PartialEq, Eq, Structural)]
pub enum Traversal {
    /// Row by row: `x = index mod D`, `y = index div D`.
    Raster,
    /// Along the Hilbert curve.
    Hilbert,
}

/// Maps the indices `0 .. D * D` to the points of a `D` by `D` grid.
#[derive(Clone, Copy, Debug, PartialEq, Eq, Structural)]
pub struct CoordinateMapper {
    pub traversal: Traversal,
    pub dimension: u32,
}

impl CoordinateMapper {
    /// The number of points of the grid, `D * D`.
    pub open spec fn cells(&self) -> int {
        self.dimension * self.dimension
    }

    /// Whether `(x, y)` is a point of the grid.
    pub open spec fn holds(&self, x: u32, y: u32) -> bool {
        x < self.dimension && y < self.dimension
    }

    /// The point that `index` stands for.
    pub open spec fn point(&self, index: u64) -> (u32, u32) {
        match self.traversal {
            Traversal::Raster => (
                (index % self.dimension as u64) as u32,
                (index / self.dimension as u64) as u32,
            ),
            Traversal::Hilbert => hilbert_point(index),
        }
    }

    /// The index that stands for the point `(x, y)`.
    pub open spec fn index(&self, x: u32, y: u32) -> u64 {
        match self.traversal {
            Traversal::Raster => (y * self.dimension + x) as u64,
            Traversal::Hilbert => hilbert_index(x, y),
        }
    }

    /// Whether the traversal is a bijection from the indices below `D * D`
    /// onto the grid, with `index` as its inverse: every such index stands
    /// for a point of the grid, and that point's index is the index again.
    pub open spec fn round_trips(&self) -> bool {
        forall|i: u64|
            i < self.cells() ==> {
                let p = #[trigger] self.point(i);
                self.holds(p.0, p.1) && self.index(p.0, p.1) == i
            }
    }

    /// The mapper for a grid of side `dimension`, walked in the given order.
    pub fn new(traversal: Traversal, dimension: u32) -> (m: CoordinateMapper)
        ensures
            m.traversal == traversal,
            m.dimension == dimension,
    {
        CoordinateMapper { traversal, dimension }
    }

    /// The number of points of the grid.
    pub fn cell_count(&self) -> (n: u64)
        ensures
            n == self.cells(),
    {
        proof {
            lemma_square_fits(self.dimension);
        }
        let d: u64 = self.dimension as u64;
        d * d
    }

    /// Whether `(x, y)` is a point of the grid.
    pub fn contains(&self, x: u32, y: u32) -> (inside: bool)
        ensures
            inside == self.holds(x, y),
    {
        x < self.dimension && y < self.dimension
    }

    /// The point that `index` stands for. In raster order it is always a
    /// point of the grid. In Hilbert order the curve decides where it lies,
    /// and the caller has to test it with `contains`.
    pub fn map(&self, index: u64) -> (p: (u32, u32))
        requires
            index < self.cells(),
        ensures
            p == self.point(index),
            self.traversal == Traversal::Raster ==> self.holds(p.0, p.1),
    {
        match self.traversal {
            Traversal::Raster => {
                proof {
                    lemma_raster_point_in_grid(self.dimension, index);
                }
                let d: u64 = self.dimension as u64;
                ((index % d) as u32, (index / d) as u32)
            },
            Traversal::Hilbert => hilbert_h2xy(index),
        }
    }

    /// The index that stands for the point `(x, y)` of the grid.
    pub fn invert(&self, x: u32, y: u32) -> (index: u64)
        requires
            self.holds(x, y),
        ensures
            index == self.index(x, y),
            self.traversal == Traversal::Raster ==> index < self.cells(),
    {
        match self.traversal {
            Traversal::Raster => {
                proof {
                    lemma_raster_index_in_range(self.dimension, x, y);
                }
                let d: u64 = self.dimension as u64;
                y as u64 * d + x as u64
            },
            Traversal::Hilbert => hilbert_xy2h(x, y),
        }
    }
}

/// The square of a 32-bit number fits in 64 bits.
pub proof fn lemma_square_fits(d: u32)
    ensures
        0 <= d * d <= u64::MAX,
{
    assert(0 <= d * d <= 0xffff_ffff * 0xffff_ffff) by (nonlinear_arith)
        requires
            0 <= d <= 0xffff_ffff,
    ;
}

/// In raster order every index below `D * D` stands for a point of the grid.
pub proof fn lemma_raster_point_in_grid(d: u32, index: u64)
    requires
        index < d * d,
    ensures
        d > 0,
        0 <= (index as int) % (d as int) < d,
        0 <= (index as int) / (d as int) < d,
{
    assert(d > 0) by (nonlinear_arith)
        requires
            0 <= index < d * d,
            d >= 0,
    ;
    let i = index as int;
    let n = d as int;
    lemma_fundamental_div_mod(i, n);
    assert(0 <= i / n < n) by (nonlinear_arith)
        requires
            n > 0,
            0 <= i < n * n,
            i == n * (i / n) + (i % n),
            0 <= i % n < n,
    ;
}

/// In raster order the index of a point of the grid lies below `D * D`.
pub proof fn lemma_raster_index_in_range(d: u32, x: u32, y: u32)
    requires
        x < d,
        y < d,
    ensures
        0 <= y * d + x < d * d,
        d * d <= u64::MAX,
{
    lemma_square_fits(d);
    assert(0 <= y * d + x < d * d) by (nonlinear_arith)
        requires
            0 <= x < d,
            0 <= y < d,
    ;
}

/// Raster order is a bijection between the indices below `D * D` and the
/// points of the grid: mapping an index to its point and the point back
/// gives the index again.
pub proof fn lemma_raster_roundtrip(m: CoordinateMapper, index: u64)
    requires
        m.traversal == Traversal::Raster,
        index < m.cells(),
    ensures
        m.holds(m.point(index).0, m.point(index).1),
        m.index(m.point(index).0, m.point(index).1) == index,
{
    lemma_raster_point_in_grid(m.dimension, index);
    lemma_fundamental_div_mod(index as int, m.dimension as int);
    let q = (index as int) / (m.dimension as int);
    assert(q * m.dimension == m.dimension * q) by (nonlinear_arith);
}

/// Raster order round-trips on every grid.
pub proof fn lemma_raster_round_trips(m: CoordinateMapper)
    requires
        m.traversal == Traversal::Raster,
    ensures
        m.round_trips(),
{
    assert forall|i: u64| i < m.cells() implies {
        let p = #[trigger] m.point(i);
        m.holds(p.0, p.1) && m.index(p.0, p.1) == i
    } by {
        lemma_raster_roundtrip(m, i);
    }
}

/// Under a traversal that round-trips, two different indices below `D * D`
/// never share a point.
pub proof fn lemma_round_trip_injective(m: CoordinateMapper, i: u64, j: u64)
    requires
        m.round_trips(),
        i < m.cells(),
        j < m.cells(),
        m.point(i) == m.point(j),
    ensures
        i == j,
{
}

/// The other direction of the bijection: mapping a point of the grid to its
/// raster index and the index back gives the point again.
pub proof fn lemma_raster_roundtrip_point(m: CoordinateMapper, x: u32, y: u32)
    requires
        m.traversal == Traversal::Raster,
        m.holds(x, y),
    ensures
        m.index(x, y) < m.cells(),
        m.point(m.index(x, y)) == (x, y),
{
    lemma_raster_index_in_range(m.dimension, x, y);
    let n = m.dimension as int;
    assert(n * y == y * n) by (nonlinear_arith);
    lemma_fundamental_div_mod_converse(y * n + x, n, y as int, x as int);
}

/// Two different indices below `D * D` never share a point in raster order.
pub proof fn lemma_raster_injective(m: CoordinateMapper, i: u64, j: u64)
    requires
        m.traversal == Traversal::Raster,
        i < m.cells(),
        j < m.cells(),
        m.point(i) == m.point(j),
    ensures
        i == j,
{
    lemma_raster_roundtrip(m, i);
    lemma_raster_roundtrip(m, j);
}

} // verus!
