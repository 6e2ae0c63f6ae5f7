use vstd::prelude::*;

use crate::image::{Image, Raster, raster_of};
use crate::rgba::{Rgba, ONE, spec_gray};
use crate::transform::{
    PixelOp, ZipOp, copy_image, offset_image, map_image, zip_image, convolve_image, median_image,
    non_max_image, quantize_image, lemma_matches, spec_offset, spec_map, spec_zip, spec_convolve,
    spec_median, spec_non_max, spec_quantize,
};
use crate::Filter;

verus! {

broadcast use vstd::std_specs::vec::axiom_vec_index_decreases, vstd::std_specs::vec::axiom_vec_decreases_to_view, vstd::seq::axiom_seq_index_decreases;

/// One declared transform of a pipeline.
pub enum Step {
    /// Yields the given raster whatever the input (a kernel or a prepared field).
    Replace(Image),
    /// Shifts the content, replicating the edges.
    Offset(i64, i64),
    /// Transforms each pixel alone.
    Pixel(PixelOp),
    /// Applies the inner pipeline to the raster produced so far and combines
    /// the two pixel by pixel.
    Zip(Box<CpuPipeline>, ZipOp),
    /// Convolves with a kernel, folding the weighted copies with the operation.
    Convolve(Image, ZipOp),
    /// The min/max median approximation over a square neighbourhood.
    Median(usize),
    NonMaxSuppress,
    Quantize(Vec<i64>),
}

/// An ordered list of declared transforms; nothing runs until `apply`.
pub struct CpuPipeline {
    pub steps: Vec<Step>,
}

/// `s` convolves with a kernel whose raster is `k`, folding with `op`.
pub open spec fn is_convolve(s: Step, k: Raster, op: ZipOp) -> bool {
    match s {
        Step::Convolve(img, o) => img@ == k && o == op,
        _ => false,
    }
}

/// The weights of the gradient kernel: -1 above and left of the centre, +1
/// below and right of it, and black (zero colour, opaque) elsewhere.
pub open spec fn gradient_weight(x: int, y: int) -> Rgba {
    if (x == 1 && y == 0) || (x == 0 && y == 1) {
        Rgba { r: -65536i64, g: -65536i64, b: -65536i64, a: -65536i64 }
    } else if (x == 1 && y == 2) || (x == 2 && y == 1) {
        Rgba::spec_white()
    } else {
        Rgba::spec_black()
    }
}

pub open spec fn gradient_kernel() -> Raster {
    raster_of(3, 3, |x: int, y: int| gradient_weight(x, y))
}

/// The weight of the fixed 5 by 5 blur kernel at squared distance `d2` from its
/// centre: the Gaussian density with deviation 0.6, in fixed point.
pub open spec fn blur_weight(d2: int) -> i64 {
    if d2 == 0 {
        43575
    } else if d2 == 1 {
        10865
    } else if d2 == 2 {
        2709
    } else if d2 == 4 {
        168
    } else if d2 == 5 {
        42
    } else {
        0
    }
}

pub open spec fn blur_kernel() -> Raster {
    raster_of(5, 5, |x: int, y: int| spec_gray(blur_weight((x - 2) * (x - 2) + (y - 2) * (y - 2))))
}

impl Default for CpuPipeline {
    fn default() -> (p: CpuPipeline)
        ensures
            p.steps@.len() == 0,
    {
        CpuPipeline::new()
    }
}

/// The all-black raster of the given size.
pub open spec fn black_raster(width: nat, height: nat) -> Raster {
    raster_of(width, height, |x: int, y: int| Rgba::spec_black())
}

/// The raster after the first `n` steps of `p`, starting from `m`.
pub open spec fn run_upto(p: CpuPipeline, n: int, m: Raster) -> Raster
    decreases p, n,
{
    if n <= 0 || n > p.steps@.len() {
        m
    } else {
        let cur = run_upto(p, n - 1, m);
        match p.steps@[n - 1] {
            Step::Replace(img) => img@,
            Step::Offset(dx, dy) => spec_offset(cur, dx as int, dy as int),
            Step::Pixel(op) => spec_map(cur, op),
            Step::Zip(q, op) => spec_zip(cur, run_upto(*q, q.steps@.len() as int, cur), op),
            Step::Convolve(k, op) => spec_convolve(cur, k@, op),
            Step::Median(size) => spec_median(cur, size as nat),
            Step::NonMaxSuppress => spec_non_max(cur),
            Step::Quantize(ts) => spec_quantize(cur, ts@),
        }
    }
}

/// The raster that `p` produces from `m`: its steps folded left to right.
pub open spec fn run(p: CpuPipeline, m: Raster) -> Raster {
    run_upto(p, p.steps@.len() as int, m)
}

impl CpuPipeline {
    /// The pipeline with no steps.
    pub fn new() -> (p: CpuPipeline)
        ensures
            p.steps@.len() == 0,
    {
        CpuPipeline { steps: Vec::new() }
    }

    fn commit(self, step: Step) -> (p: CpuPipeline)
        ensures
            p.steps@ == self.steps@.push(step),
    {
        let mut steps = self.steps;
        steps.push(step);
        CpuPipeline { steps }
    }

    /// Folds the steps over a copy of `image`; `image` itself is not changed.
    pub fn apply(&self, image: &Image) -> (r: Image)
        ensures
            r@ == run(*self, image@),
        decreases self,
    {
        let mut cur = copy_image(image);
        let len = self.steps.len();
        let mut i: usize = 0;
        while i < len
            invariant
                len == self.steps@.len(),
                i <= len,
                cur@ == run_upto(*self, i as int, image@),
            decreases len - i,
        {
            let next = match &self.steps[i] {
                Step::Replace(img) => copy_image(img),
                Step::Offset(dx, dy) => offset_image(&cur, *dx, *dy),
                Step::Pixel(op) => map_image(&cur, *op),
                Step::Zip(q, op) => {
                    let o = q.apply(&cur);
                    zip_image(&cur, &o, *op)
                },
                Step::Convolve(k, op) => convolve_image(&cur, k, *op),
                Step::Median(size) => median_image(&cur, *size),
                Step::NonMaxSuppress => non_max_image(&cur),
                Step::Quantize(ts) => quantize_image(&cur, ts),
            };
            cur = next;
            i = i + 1;
        }
        cur
    }

    /// `apply` on an all-black raster of the given size.
    pub fn generate(&self, width: usize, height: usize) -> (r: Image)
        ensures
            r@ == run(*self, black_raster(width as nat, height as nat)),
    {
        let black = Image::black(width, height);
        proof {
            lemma_matches(black@, width as nat, height as nat, |x: int, y: int| Rgba::spec_black());
        }
        self.apply(&black)
    }
}

/// Builds the gradient kernel.
pub fn make_gradient_kernel() -> (k: Image)
    ensures
        k@ == gradient_kernel(),
{
    let f = |x: usize, y: usize| -> (p: Rgba)
        ensures
            p == gradient_weight(x as int, y as int),
        {
            if (x == 1 && y == 0) || (x == 0 && y == 1) {
                Rgba::new(-ONE, -ONE, -ONE, -ONE)
            } else if (x == 1 && y == 2) || (x == 2 && y == 1) {
                Rgba::white()
            } else {
                Rgba::black()
            }
        };
    let k = Image::construct(3, 3, f);
    proof {
        assert forall|x: int, y: int| 0 <= x < 3 && 0 <= y < 3 implies #[trigger] k@.at(x, y)
            == gradient_weight(x, y) by {
            assert(f.ensures((x as usize, y as usize), k@.at(x, y)));
        }
        lemma_matches(k@, 3, 3, |x: int, y: int| gradient_weight(x, y));
    }
    k
}

/// Builds the fixed blur kernel.
pub fn make_blur_kernel() -> (k: Image)
    ensures
        k@ == blur_kernel(),
{
    let f = |x: usize, y: usize| -> (p: Rgba)
        requires
            x < 5,
            y < 5,
        ensures
            p == spec_gray(blur_weight((x - 2) * (x - 2) + (y - 2) * (y - 2))),
        {
            let dx: i64 = x as i64 - 2;
            let dy: i64 = y as i64 - 2;
            assert(0 <= dx * dx <= 4 && 0 <= dy * dy <= 4) by (nonlinear_arith)
                requires
                    -2 <= dx <= 2,
                    -2 <= dy <= 2,
            ;
            let d2 = dx * dx + dy * dy;
            let w: i64 = if d2 == 0 {
                43575
            } else if d2 == 1 {
                10865
            } else if d2 == 2 {
                2709
            } else if d2 == 4 {
                168
            } else if d2 == 5 {
                42
            } else {
                0
            };
            Rgba::gray(w)
        };
    let k = Image::construct(5, 5, f);
    proof {
        assert forall|x: int, y: int| 0 <= x < 5 && 0 <= y < 5 implies #[trigger] k@.at(x, y)
            == spec_gray(blur_weight((x - 2) * (x - 2) + (y - 2) * (y - 2))) by {
            assert(f.ensures((x as usize, y as usize), k@.at(x, y)));
        }
        lemma_matches(k@, 5, 5, |x: int, y: int| spec_gray(blur_weight((x - 2) * (x - 2) + (y - 2) * (y - 2))));
    }
    k
}

impl CpuPipeline {
    /// Appends a step that yields `image` whatever the input.
    pub fn replace_with(self, image: Image) -> (p: CpuPipeline)
        ensures
            p.steps@ == self.steps@.push(Step::Replace(image)),
    {
        self.commit(Step::Replace(image))
    }

    /// Appends a shift of the content by `(x, y)`, edges replicated.
    pub fn offset(self, x: i64, y: i64) -> (p: CpuPipeline)
        ensures
            p.steps@ == self.steps@.push(Step::Offset(x, y)),
    {
        self.commit(Step::Offset(x, y))
    }

    /// Appends a channel-wise multiplication by `factor`.
    pub fn dim(self, factor: Rgba) -> (p: CpuPipeline)
        ensures
            p.steps@ == self.steps@.push(Step::Pixel(PixelOp::Dim(factor))),
    {
        self.commit(Step::Pixel(PixelOp::Dim(factor)))
    }

    /// Appends `1 - value` on every channel.
    pub fn invert(self) -> (p: CpuPipeline)
        ensures
            p.steps@ == self.steps@.push(Step::Pixel(PixelOp::Invert)),
    {
        self.commit(Step::Pixel(PixelOp::Invert))
    }

    /// Appends: apply `other` to the raster so far and add the two.
    pub fn add(self, other: CpuPipeline) -> (p: CpuPipeline)
        ensures
            p.steps@ == self.steps@.push(Step::Zip(Box::new(other), ZipOp::Add)),
    {
        self.commit(Step::Zip(Box::new(other), ZipOp::Add))
    }

    /// Appends: apply `other` to the raster so far and subtract it, keeping
    /// the left alpha.
    pub fn sub(self, other: CpuPipeline) -> (p: CpuPipeline)
        ensures
            p.steps@ == self.steps@.push(Step::Zip(Box::new(other), ZipOp::Sub)),
    {
        self.commit(Step::Zip(Box::new(other), ZipOp::Sub))
    }

    /// Appends: apply `noise` to the raster so far, recentre it around zero
    /// and add it.
    pub fn ennoise(self, noise: CpuPipeline) -> (p: CpuPipeline)
        ensures
            p.steps@ == self.steps@.push(Step::Zip(Box::new(noise), ZipOp::Ennoise)),
    {
        self.commit(Step::Zip(Box::new(noise), ZipOp::Ennoise))
    }

    /// Appends the luminance weighting followed by the grayscale reduction
    /// (which weights once more).
    pub fn grayscale(self) -> (p: CpuPipeline)
        ensures
            p.steps@ == self.steps@.push(Step::Pixel(PixelOp::Dim(Rgba::spec_grayscale_factor()))).push(
                Step::Pixel(PixelOp::Grayscale),
            ),
    {
        self.dim(Rgba::grayscale_factor()).commit(Step::Pixel(PixelOp::Grayscale))
    }

    /// Appends a convolution with `needle`, the weighted copies folded with `combine`.
    pub fn convolve_by(self, needle: Image, combine: ZipOp) -> (p: CpuPipeline)
        ensures
            p.steps@ == self.steps@.push(Step::Convolve(needle, combine)),
    {
        self.commit(Step::Convolve(needle, combine))
    }

    /// Appends a convolution with the kernel whose cell `(x, y)` is `needle(x, y)`.
    pub fn convolve<F: Fn(usize, usize) -> Rgba>(
        self,
        needle_width: usize,
        needle_height: usize,
        needle: F,
        combine: ZipOp,
    ) -> (p: CpuPipeline)
        requires
            forall|x: usize, y: usize| x < needle_width && y < needle_height ==> #[trigger] needle.requires((x, y)),
        ensures
            p.steps@.len() == self.steps@.len() + 1,
            p.steps@.drop_last() == self.steps@,
            exists|k: Image| #![trigger k@] {
                &&& p.steps@.last() == Step::Convolve(k, combine)
                &&& k@.width == needle_width
                &&& k@.height == needle_height
                &&& forall|x: usize, y: usize|
                    x < needle_width && y < needle_height ==> #[trigger] needle.ensures((x, y), k@.at(x as int, y as int))
            },
    {
        let k = Image::construct(needle_width, needle_height, needle);
        let p = self.commit(Step::Convolve(k, combine));
        assert(p.steps@.drop_last() =~= self.steps@);
        p
    }

    /// Appends the gradient: convolution with the gradient kernel, then the
    /// absolute value of every channel.
    pub fn gradient(self) -> (p: CpuPipeline)
        ensures
            p.steps@.len() == self.steps@.len() + 2,
            p.steps@.subrange(0, self.steps@.len() as int) == self.steps@,
            is_convolve(p.steps@[self.steps@.len() as int], gradient_kernel(), ZipOp::Add),
            p.steps@[self.steps@.len() + 1int] == Step::Pixel(PixelOp::Abs),
    {
        let k = make_gradient_kernel();
        let p = self.commit(Step::Convolve(k, ZipOp::Add)).commit(Step::Pixel(PixelOp::Abs));
        assert(p.steps@.subrange(0, self.steps@.len() as int) =~= self.steps@);
        p
    }

    /// Appends non-max suppression.
    pub fn non_max_suppress(self) -> (p: CpuPipeline)
        ensures
            p.steps@ == self.steps@.push(Step::NonMaxSuppress),
    {
        self.commit(Step::NonMaxSuppress)
    }

    /// Appends quantization against `thresholds`.
    pub fn quantize(self, thresholds: Vec<i64>) -> (p: CpuPipeline)
        ensures
            p.steps@ == self.steps@.push(Step::Quantize(thresholds)),
    {
        self.commit(Step::Quantize(thresholds))
    }

    /// Appends a filter: a convolution with the kernel that the kernel pipeline
    /// generates on an empty canvas, folded by addition; or the median
    /// approximation.
    pub fn filter(self, needle: Filter<CpuPipeline>) -> (p: CpuPipeline)
        ensures
            p.steps@.len() == self.steps@.len() + 1,
            p.steps@.drop_last() == self.steps@,
            match needle {
                Filter::Convoluted(k) => is_convolve(p.steps@.last(), run(k, black_raster(0, 0)), ZipOp::Add),
                Filter::Median(size) => p.steps@.last() == Step::Median(size),
            },
    {
        let p = match needle {
            Filter::Convoluted(n) => {
                let k = n.generate(0, 0);
                self.commit(Step::Convolve(k, ZipOp::Add))
            },
            Filter::Median(size) => self.commit(Step::Median(size)),
        };
        assert(p.steps@.drop_last() =~= self.steps@);
        p
    }

    /// Appends a blur with the fixed 5 by 5 Gaussian kernel of deviation 0.6;
    /// `size` and `variance` are accepted and not used.
    pub fn gaussian_blur(self, size: usize, variance: i64) -> (p: CpuPipeline)
        ensures
            p.steps@.len() == self.steps@.len() + 1,
            p.steps@.drop_last() == self.steps@,
            is_convolve(p.steps@.last(), blur_kernel(), ZipOp::Add),
    {
        let k = make_blur_kernel();
        let p = self.commit(Step::Convolve(k, ZipOp::Add));
        assert(p.steps@.drop_last() =~= self.steps@);
        p
    }

    /// Appends the edge detector: grayscale, blur, gradient, non-max
    /// suppression, quantization.
    pub fn canny(self, thresholds: Vec<i64>) -> (p: CpuPipeline)
        ensures
            p.steps@.len() == self.steps@.len() + 7,
            p.steps@.subrange(0, self.steps@.len() as int) == self.steps@,
            p.steps@[self.steps@.len() as int] == Step::Pixel(PixelOp::Dim(Rgba::spec_grayscale_factor())),
            p.steps@[self.steps@.len() + 1int] == Step::Pixel(PixelOp::Grayscale),
            is_convolve(p.steps@[self.steps@.len() + 2int], blur_kernel(), ZipOp::Add),
            is_convolve(p.steps@[self.steps@.len() + 3int], gradient_kernel(), ZipOp::Add),
            p.steps@[self.steps@.len() + 4int] == Step::Pixel(PixelOp::Abs),
            p.steps@[self.steps@.len() + 5int] == Step::NonMaxSuppress,
            p.steps@[self.steps@.len() + 6int] == Step::Quantize(thresholds),
    {
        let ghost n = self.steps@.len() as int;
        let ghost s0 = self.steps@;
        let a = self.grayscale();
        let b = a.gaussian_blur(5, 39321);
        let ghost sb = b.steps@;
        let c = b.gradient();
        let d = c.non_max_suppress();
        let p = d.quantize(thresholds);
        assert(b.steps@[n] == b.steps@.drop_last()[n]);
        assert(b.steps@[n + 1] == b.steps@.drop_last()[n + 1]);
        assert(c.steps@[n] == c.steps@.subrange(0, n + 3)[n]);
        assert(c.steps@[n + 1] == c.steps@.subrange(0, n + 3)[n + 1]);
        assert(c.steps@[n + 2] == c.steps@.subrange(0, n + 3)[n + 2]);
        assert(sb.subrange(0, n) =~= s0);
        assert(p.steps@.subrange(0, n) =~= s0);
        p
    }
}

} // verus!
