//! The Hilbert curve, as the `fast_hilbert` crate computes it.
//!
//! The curve itself is not defined here: the two spec functions below name
//! what `fast_hilbert` returns, and everything proved about the Hilbert
//! traversal is proved for whatever those results are.
use vstd::prelude::*;

verus! {

/// The grid point at distance `h` along the Hilbert curve.
pub uninterp spec fn hilbert_point(h: u64) -> (u32, u32);

/// The distance along the Hilbert curve at which the point `(x, y)` lies.
pub uninterp spec fn hilbert_index(x: u32, y: u32) -> u64;

/// Calls `fast_hilbert::h2xy` with 32-bit coordinates. Trusted: the result
/// is a function of `h` alone, named `hilbert_point`. Nothing is claimed
/// about where the point lies.
#[verifier::external_body]
pub(crate) fn hilbert_h2xy(h: u64) -> (p: (u32, u32))
    ensures
        p == hilbert_point(h),
{
    fast_hilbert::h2xy::<u32>(h)
}

/// Calls `fast_hilbert::xy2h` with 32-bit coordinates. Trusted: the result
/// is a function of `x` and `y` alone, named `hilbert_index`.
#[verifier::external_body]
pub(crate) fn hilbert_xy2h(x: u32, y: u32) -> (h: u64)
    ensures
        h == hilbert_index(x, y),
{
    fast_hilbert::xy2h::<u32>(x, y)
}

} // verus!
