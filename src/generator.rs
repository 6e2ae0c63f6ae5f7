use vstd::prelude::*;

use crate::image::{Image, raster_of};
use crate::pipeline::{CpuPipeline, Step};
use crate::rgba::{Rgba, ONE, spec_gray};
use crate::transform::lemma_matches;
use crate::Filter;

verus! {

/// A factory of kernels keyed by a size.
pub struct CpuGenerator {
    pub size: usize,
}

/// The weight of each cell of the average kernel of the given size: `1 / size²`.
pub open spec fn average_weight(size: nat) -> i64 {
    (ONE as int / (size * size) as int) as i64
}

impl CpuGenerator {
    pub fn new(size: usize) -> (g: CpuGenerator)
        ensures
            g.size == size,
    {
        CpuGenerator { size }
    }

    /// A uniform `size` by `size` kernel of weight `1 / (size * size)`.
    pub fn average_needle(&self) -> (f: Filter<CpuPipeline>)
        requires
            self.size > 0,
        ensures
            match f {
                Filter::Convoluted(p) => {
                    &&& p.steps@.len() == 1
                    &&& match p.steps@[0] {
                        Step::Replace(k) => k@ == raster_of(
                            self.size as nat,
                            self.size as nat,
                            |x: int, y: int| spec_gray(average_weight(self.size as nat)),
                        ),
                        _ => false,
                    }
                },
                Filter::Median(_) => false,
            },
    {
        let size = self.size;
        assert(size as int * size as int <= u128::MAX) by (nonlinear_arith)
            requires
                size <= usize::MAX,
                usize::MAX <= u64::MAX,
        {
            assert(size as int * size as int <= u64::MAX as int * u64::MAX as int);
        }
        let npixels = size as u128 * size as u128;
        assert(npixels >= 1) by (nonlinear_arith)
            requires
                npixels == size * size,
                size >= 1,
        ;
        let value = (65536u128 / npixels) as i64;
        let pixel = Rgba::gray(value);
        let k = Image::from_pixel(size, size, pixel);
        proof {
            lemma_matches(k@, size as nat, size as nat, |x: int, y: int| spec_gray(average_weight(size as nat)));
        }
        let p = CpuPipeline::new().replace_with(k);
        Filter::Convoluted(p)
    }
}

} // verus!
