use vstd::prelude::*;

pub mod rgba;
pub mod image;
pub mod transform;
pub mod pipeline;
pub mod generator;
pub mod laws;

verus! {

/// How a convolution step gets its kernel.
pub enum Filter<P> {
    /// A kernel declared as a pipeline that yields the kernel raster.
    Convoluted(P),
    /// The min/max median approximation over a square of this size.
    Median(usize),
}

} // verus!
